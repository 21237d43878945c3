//! The framing layer's contract: how a message relates to the bytes that
//! carry it.  `Decode` pairs an executable decoder with a specification-level
//! one over byte sequences; `Encode` pairs an executable encoder with the
//! byte sequence it produces.

pub mod laws;
pub mod messages;
pub mod reader;
pub mod writer;

use vstd::prelude::*;

use crate::wire::{is_utf8, nul_pos, spec_i32_from_be_bytes};
pub use reader::Reader;
pub use writer::Writer;

verus! {

/// Why a decode failed.  Every variant is fatal to the connection: the
/// framing is corrupt and no later frame boundary can be trusted.
#[derive(Clone, Copy, Debug, PartialEq, Eq, Structural)]
pub enum DecodeError {
    /// The stream ended inside a frame.
    UnexpectedEof,
    /// A protocol string was not well-formed UTF-8.
    InvalidUtf8,
    /// An `SSLRequest` carried a code other than the SSL-request magic.
    InvalidSslCode,
    /// A steady-state frame carried an unrecognized type tag.
    UnknownMessageType(u8),
    /// An error-response field carried an unrecognized field tag.
    UnknownField(u8),
    /// A ready-for-query frame carried an unrecognized status byte.
    UnknownTransactionStatus(u8),
    /// An authentication frame carried an unrecognized method code.
    UnknownAuthKind(i32),
    /// A startup parameter named `replication` carried an unrecognized value.
    InvalidReplication,
}

/// Reads one byte at offset 0 of `s`.
pub open spec fn dec_u8(s: Seq<u8>) -> Result<(u8, int), DecodeError> {
    if s.len() < 1 {
        Err(DecodeError::UnexpectedEof)
    } else {
        Ok((s[0], 1))
    }
}

/// Reads a big-endian signed 32-bit integer at offset 0 of `s`.
pub open spec fn dec_i32(s: Seq<u8>) -> Result<(i32, int), DecodeError> {
    if s.len() < 4 {
        Err(DecodeError::UnexpectedEof)
    } else {
        Ok((spec_i32_from_be_bytes(s.take(4)), 4))
    }
}

/// Reads a NUL-terminated UTF-8 string at offset 0 of `s`; the terminator is
/// consumed but not part of the result.
pub open spec fn dec_cstr(s: Seq<u8>) -> Result<(Seq<u8>, int), DecodeError> {
    let p = nul_pos(s);
    if p == s.len() {
        Err(DecodeError::UnexpectedEof)
    } else if !is_utf8(s.take(p)) {
        Err(DecodeError::InvalidUtf8)
    } else {
        Ok((s.take(p), p + 1))
    }
}

/// Reads a NUL-terminated byte string at offset 0 of `s`, without the UTF-8
/// check; used for the password, which stays an opaque byte buffer.
pub open spec fn dec_raw_cstr(s: Seq<u8>) -> Result<(Seq<u8>, int), DecodeError> {
    let p = nul_pos(s);
    if p == s.len() {
        Err(DecodeError::UnexpectedEof)
    } else {
        Ok((s.take(p), p + 1))
    }
}

/// A message that can be written to the wire.  `enc` is the exact byte
/// sequence the encoder produces; `enc_wf` bounds the message so that the
/// length prefix fits a signed 32-bit integer.
pub trait Encode {
    spec fn enc(&self) -> Seq<u8>;

    spec fn enc_wf(&self) -> bool;

    fn encode(&self, writer: &mut Writer)
        requires
            self.enc_wf(),
        ensures
            final(writer)@ == old(writer)@ + self.enc(),
    ;
}

/// A message that can be read from the wire.  `dec` is the
/// specification-level decoder: the view of the message read at offset 0 of
/// `s` and the number of bytes it occupies, or the error the decoder
/// reports.
pub trait Decode: Sized + View {
    spec fn dec(s: Seq<u8>) -> Result<(Self::V, int), DecodeError>;

    fn decode(reader: &mut Reader) -> (res: Result<Self, DecodeError>)
        requires
            old(reader).wf(),
        ensures
            final(reader).wf(),
            final(reader).bytes() == old(reader).bytes(),
            old(reader).pos() <= final(reader).pos(),
            (match res {
                Ok(m) => Self::dec(old(reader).remaining()) == Ok::<(Self::V, int), DecodeError>(
                    (m@, final(reader).pos() - old(reader).pos()),
                ),
                Err(e) => Self::dec(old(reader).remaining()) == Err::<(Self::V, int), DecodeError>(
                    e,
                ),
            }),
    ;
}

} // verus!
