//! The reading half of the framing layer: primitive big-endian integer and
//! NUL-terminated string input from a byte buffer, plus one-byte lookahead.
//! The buffer holds what the transport has delivered; running out of it
//! mid-frame is reported as `UnexpectedEof`, never looped on.

use vstd::prelude::*;

use crate::proto::{dec_cstr, dec_i32, dec_raw_cstr, dec_u8, DecodeError};
use crate::wire::{is_utf8_exec, lemma_nul_pos_is, nul_pos, spec_u32_from_be_bytes, u32_value};

verus! {

broadcast use vstd::seq::group_seq_axioms, vstd::seq_lib::lemma_seq_skip_of_skip;

pub struct Reader {
    data: Vec<u8>,
    pos: usize,
}

impl Reader {
    /// The whole underlying buffer.
    pub closed spec fn bytes(&self) -> Seq<u8> {
        self.data@
    }

    /// How far the reader has consumed it.
    pub closed spec fn pos(&self) -> int {
        self.pos as int
    }

    pub open spec fn wf(&self) -> bool {
        0 <= self.pos() <= self.bytes().len()
    }

    /// The bytes not yet consumed.
    pub open spec fn remaining(&self) -> Seq<u8> {
        self.bytes().skip(self.pos())
    }

    pub fn new(data: Vec<u8>) -> (r: Reader)
        ensures
            r.wf(),
            r.bytes() == data@,
            r.pos() == 0,
    {
        Reader { data, pos: 0 }
    }

    pub fn position(&self) -> (p: usize)
        ensures
            p == self.pos(),
    {
        self.pos
    }

    /// Non-consuming lookahead at the next byte; `None` at the end of the
    /// buffer.
    pub fn peek(&self) -> (r: Option<u8>)
        requires
            self.wf(),
        ensures
            r == (if self.remaining().len() > 0 {
                Some(self.remaining()[0])
            } else {
                None::<u8>
            }),
    {
        if self.pos < self.data.len() {
            Some(self.data[self.pos])
        } else {
            None
        }
    }

    pub fn read_byte(&mut self) -> (res: Result<u8, DecodeError>)
        requires
            old(self).wf(),
        ensures
            final(self).wf(),
            final(self).bytes() == old(self).bytes(),
            (match res {
                Ok(b) => final(self).pos() == old(self).pos() + 1 && dec_u8(old(self).remaining())
                    == Ok::<(u8, int), DecodeError>((b, 1)),
                Err(e) => final(self).pos() == old(self).pos() && dec_u8(old(self).remaining())
                    == Err::<(u8, int), DecodeError>(e),
            }),
    {
        if self.pos < self.data.len() {
            let b = self.data[self.pos];
            self.pos = self.pos + 1;
            Ok(b)
        } else {
            Err(DecodeError::UnexpectedEof)
        }
    }

    /// Reads four bytes as a big-endian signed 32-bit integer.
    pub fn read_i32(&mut self) -> (res: Result<i32, DecodeError>)
        requires
            old(self).wf(),
        ensures
            final(self).wf(),
            final(self).bytes() == old(self).bytes(),
            (match res {
                Ok(v) => final(self).pos() == old(self).pos() + 4 && dec_i32(old(self).remaining())
                    == Ok::<(i32, int), DecodeError>((v, 4)),
                Err(e) => final(self).pos() == old(self).pos() && dec_i32(old(self).remaining())
                    == Err::<(i32, int), DecodeError>(e),
            }),
    {
        if self.data.len() - self.pos >= 4 {
            let b0 = self.data[self.pos];
            let b1 = self.data[self.pos + 1];
            let b2 = self.data[self.pos + 2];
            let b3 = self.data[self.pos + 3];
            let u: u32 = ((b0 as u32) << 24) | ((b1 as u32) << 16) | ((b2 as u32) << 8) | (
            b3 as u32);
            self.pos = self.pos + 4;
            proof {
                let t = old(self).remaining().take(4);
                assert(t.len() == 4 && t[0] == b0 && t[1] == b1 && t[2] == b2 && t[3] == b3);
                assert(u == spec_u32_from_be_bytes(t));
            }
            Ok(u32_value(u))
        } else {
            Err(DecodeError::UnexpectedEof)
        }
    }

    /// Reads bytes up to a NUL, strips the NUL, and validates the text as
    /// UTF-8; a buffer with no NUL left is a malformed frame.
    pub fn read_string(&mut self) -> (res: Result<Vec<u8>, DecodeError>)
        requires
            old(self).wf(),
        ensures
            final(self).wf(),
            final(self).bytes() == old(self).bytes(),
            old(self).pos() <= final(self).pos(),
            (match res {
                Ok(v) => dec_cstr(old(self).remaining()) == Ok::<(Seq<u8>, int), DecodeError>(
                    (v@, final(self).pos() - old(self).pos()),
                ),
                Err(e) => final(self).pos() == old(self).pos() && dec_cstr(old(self).remaining())
                    == Err::<(Seq<u8>, int), DecodeError>(e),
            }),
    {
        match self.scan_string() {
            Ok((v, j)) => {
                if !is_utf8_exec(v.as_slice()) {
                    Err(DecodeError::InvalidUtf8)
                } else {
                    let n: usize = self.data.len();
                    assert(j < n);
                    self.pos = j + 1;
                    Ok(v)
                }
            },
            Err(e) => Err(e),
        }
    }

    /// Reads bytes up to a NUL and strips the NUL, without the UTF-8 check;
    /// the password stays an opaque byte buffer.
    pub fn read_string_bytes(&mut self) -> (res: Result<Vec<u8>, DecodeError>)
        requires
            old(self).wf(),
        ensures
            final(self).wf(),
            final(self).bytes() == old(self).bytes(),
            (match res {
                Ok(v) => dec_raw_cstr(old(self).remaining()) == Ok::<(Seq<u8>, int), DecodeError>(
                    (v@, final(self).pos() - old(self).pos()),
                ) && final(self).pos() > old(self).pos(),
                Err(e) => final(self).pos() == old(self).pos() && dec_raw_cstr(
                    old(self).remaining(),
                ) == Err::<(Seq<u8>, int), DecodeError>(e),
            }),
    {
        match self.scan_string() {
            Ok((v, j)) => {
                let n: usize = self.data.len();
                assert(j < n);
                self.pos = j + 1;
                Ok(v)
            },
            Err(e) => Err(e),
        }
    }

    /// Finds the NUL terminator and copies the bytes before it, without
    /// consuming anything; `j` is the terminator's index in the buffer.
    fn scan_string(&self) -> (res: Result<(Vec<u8>, usize), DecodeError>)
        requires
            self.wf(),
        ensures
            (match res {
                Ok(r) => nul_pos(self.remaining()) < self.remaining().len() && r.0@
                    == self.remaining().take(nul_pos(self.remaining())) && r.1 == self.pos()
                    + nul_pos(self.remaining()) && self.pos() <= r.1 < self.bytes().len(),
                Err(e) => e == DecodeError::UnexpectedEof && nul_pos(self.remaining())
                    == self.remaining().len(),
            }),
    {
        let n: usize = self.data.len();
        let mut j: usize = self.pos;
        while j < n && self.data[j] != 0
            invariant
                self.wf(),
                n == self.data@.len(),
                self.pos <= j <= n,
                forall|k: int| self.pos() <= k < j ==> self.data@[k] != 0,
            decreases n - j,
        {
            j = j + 1;
        }
        proof {
            let rem = self.remaining();
            assert forall|k: int| 0 <= k < j - self.pos() implies rem[k] != 0 by {
                assert(rem[k] == self.data@[self.pos() + k]);
            }
            lemma_nul_pos_is(rem, j - self.pos());
        }
        if j == n {
            return Err(DecodeError::UnexpectedEof);
        }
        let mut out: Vec<u8> = Vec::new();
        let mut k: usize = self.pos;
        while k < j
            invariant
                self.wf(),
                self.pos <= k <= j <= self.data@.len(),
                out@ == self.data@.subrange(self.pos(), k as int),
            decreases j - k,
        {
            out.push(self.data[k]);
            proof {
                assert(out@ =~= self.data@.subrange(self.pos(), k + 1));
            }
            k = k + 1;
        }
        proof {
            assert(out@ =~= self.remaining().take(j - self.pos()));
        }
        Ok((out, j))
    }
}

} // verus!
