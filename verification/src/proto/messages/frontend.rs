//! Messages the client sends to the server: the startup handshake (which is
//! ambiguous between an SSL probe and a real startup until the version field
//! is read), the password reply, and the steady-state query and termination
//! frames.

use vstd::prelude::*;

use crate::proto::{
    dec_cstr, dec_i32, dec_raw_cstr, dec_u8, Decode, DecodeError, Encode, Reader, Writer,
};
use crate::secret::{sec_bytes, secstr_new, secstr_unsecure};
use crate::wire::{lemma_nul_pos_bounds, spec_i32_to_be_bytes};

verus! {

broadcast use vstd::seq::group_seq_axioms, vstd::seq_lib::lemma_seq_skip_of_skip;

/// The fixed code a client sends in place of a protocol version to probe
/// for SSL support.
pub const SSL_REQUEST_CODE: i32 = 80877103;

// ---------------------------------------------------------------------------
// SSLRequest
// ---------------------------------------------------------------------------

/// An SSL probe: a frame whose version field holds the SSL-request magic
/// instead of a protocol version.
#[derive(Clone, Copy, Debug, PartialEq, Eq, Structural)]
pub struct SSLRequest {
    pub code: i32,
}

impl View for SSLRequest {
    type V = SSLRequest;

    open spec fn view(&self) -> SSLRequest {
        *self
    }
}

impl Encode for SSLRequest {
    open spec fn enc(&self) -> Seq<u8> {
        spec_i32_to_be_bytes(8) + spec_i32_to_be_bytes(self.code)
    }

    open spec fn enc_wf(&self) -> bool {
        true
    }

    fn encode(&self, writer: &mut Writer) {
        writer.write_i32(8);
        writer.write_i32(self.code);
        proof {
            assert(writer@ =~= old(writer)@ + self.enc());
        }
    }
}

impl Decode for SSLRequest {
    open spec fn dec(s: Seq<u8>) -> Result<(SSLRequest, int), DecodeError> {
        match dec_i32(s) {
            Err(e) => Err(e),
            Ok((_len, _)) => match dec_i32(s.skip(4)) {
                Err(e) => Err(e),
                Ok((code, _)) => if code != SSL_REQUEST_CODE {
                    Err(DecodeError::InvalidSslCode)
                } else {
                    Ok((SSLRequest { code }, 8))
                },
            },
        }
    }

    fn decode(reader: &mut Reader) -> (res: Result<SSLRequest, DecodeError>) {
        let _len = reader.read_i32()?;
        let code = reader.read_i32()?;
        if code != SSL_REQUEST_CODE {
            Err(DecodeError::InvalidSslCode)
        } else {
            Ok(SSLRequest { code })
        }
    }
}

// ---------------------------------------------------------------------------
// Params
// ---------------------------------------------------------------------------

/// The view of a startup parameter list: its key/value pairs in wire order.
pub open spec fn params_model(v: Seq<(Vec<u8>, Vec<u8>)>) -> Seq<(Seq<u8>, Seq<u8>)> {
    v.map_values(|p: (Vec<u8>, Vec<u8>)| (p.0@, p.1@))
}

/// The wire bytes of a parameter list, without the closing NUL: each key
/// and value as a NUL-terminated string.
pub open spec fn params_payload(ps: Seq<(Seq<u8>, Seq<u8>)>) -> Seq<u8>
    decreases ps.len(),
{
    if ps.len() == 0 {
        Seq::<u8>::empty()
    } else {
        ps[0].0 + seq![0u8] + ps[0].1 + seq![0u8] + params_payload(ps.skip(1))
    }
}

/// The byte count of a parameter list on the wire, without the closing NUL.
pub open spec fn params_len(ps: Seq<(Seq<u8>, Seq<u8>)>) -> int
    decreases ps.len(),
{
    if ps.len() == 0 {
        0
    } else {
        2 + ps[0].0.len() + ps[0].1.len() + params_len(ps.skip(1))
    }
}

pub proof fn lemma_params_len(ps: Seq<(Seq<u8>, Seq<u8>)>)
    ensures
        params_len(ps) >= 0,
        params_payload(ps).len() == params_len(ps),
    decreases ps.len(),
{
    if ps.len() > 0 {
        lemma_params_len(ps.skip(1));
    }
}

/// Reads a parameter list: at least one key/value pair, then the closing
/// NUL that takes the place of a further key.  A stream that never supplies
/// the terminator fails with a decode error; the list is never left open.
pub open spec fn dec_params(s: Seq<u8>) -> Result<(Seq<(Seq<u8>, Seq<u8>)>, int), DecodeError>
    decreases s.len(),
    via dec_params_decreases
{
    match dec_cstr(s) {
        Err(e) => Err(e),
        Ok((name, n1)) => match dec_cstr(s.skip(n1)) {
            Err(e) => Err(e),
            Ok((value, n2)) => {
                let rest = s.skip(n1 + n2);
                if rest.len() == 0 {
                    Err(DecodeError::UnexpectedEof)
                } else if rest[0] == 0 {
                    Ok((seq![(name, value)], n1 + n2 + 1))
                } else {
                    match dec_params(rest) {
                        Err(e) => Err(e),
                        Ok((ps, m)) => Ok((seq![(name, value)] + ps, n1 + n2 + m)),
                    }
                }
            },
        },
    }
}

#[via_fn]
proof fn dec_params_decreases(s: Seq<u8>) {
    lemma_nul_pos_bounds(s);
    lemma_nul_pos_bounds(s.skip(nul_pos_plus(s)));
}

/// The offset just past the first NUL of `s`.
pub open spec fn nul_pos_plus(s: Seq<u8>) -> int {
    crate::wire::nul_pos(s) + 1
}

/// A startup parameter list.
#[derive(Debug)]
pub struct Params(pub Vec<(Vec<u8>, Vec<u8>)>);

impl View for Params {
    type V = Seq<(Seq<u8>, Seq<u8>)>;

    open spec fn view(&self) -> Seq<(Seq<u8>, Seq<u8>)> {
        params_model(self.0@)
    }
}

impl Params {
    /// The pairs in wire order, for the caller to walk.
    pub fn into_iter(self) -> (v: Vec<(Vec<u8>, Vec<u8>)>)
        ensures
            params_model(v@) == self@,
    {
        self.0
    }
}

impl Encode for Params {
    open spec fn enc(&self) -> Seq<u8> {
        params_payload(self@) + seq![0u8]
    }

    open spec fn enc_wf(&self) -> bool {
        true
    }

    fn encode(&self, writer: &mut Writer) {
        self.encode_from(writer, 0);
        writer.write_byte(0);
        proof {
            assert(self@.skip(0) =~= self@);
            assert(writer@ =~= old(writer)@ + self.enc());
        }
    }
}

impl Params {
    fn encode_from(&self, writer: &mut Writer, i: usize)
        requires
            i <= self.0@.len(),
        ensures
            final(writer)@ == old(writer)@ + params_payload(self@.skip(i as int)),
        decreases self.0@.len() - i,
    {
        if i == self.0.len() {
            proof {
                assert(writer@ =~= old(writer)@ + params_payload(self@.skip(i as int)));
            }
        } else {
            proof {
                assert(self@.skip(i as int)[0] == (self.0@[i as int].0@, self.0@[i as int].1@));
                assert(self@.skip(i as int).skip(1) =~= self@.skip(i + 1));
            }
            writer.write_str(self.0[i].0.as_slice());
            writer.write_str(self.0[i].1.as_slice());
            self.encode_from(writer, i + 1);
            proof {
                assert(writer@ =~= old(writer)@ + params_payload(self@.skip(i as int)));
            }
        }
    }
}

impl Decode for Params {
    open spec fn dec(s: Seq<u8>) -> Result<(Seq<(Seq<u8>, Seq<u8>)>, int), DecodeError> {
        dec_params(s)
    }

    fn decode(reader: &mut Reader) -> (res: Result<Params, DecodeError>)
        decreases old(reader).remaining().len(),
    {
        let name = reader.read_string()?;
        let value = reader.read_string()?;
        proof {
            lemma_nul_pos_bounds(old(reader).remaining());
        }
        match reader.peek() {
            None => Err(DecodeError::UnexpectedEof),
            Some(b) => {
                if b == 0 {
                    let consumed = reader.read_byte();
                    proof {
                        assert(consumed is Ok);
                    }
                    let v: Vec<(Vec<u8>, Vec<u8>)> = vec![(name, value)];
                    proof {
                        assert(params_model(v@) =~= seq![(v@[0].0@, v@[0].1@)]);
                    }
                    Ok(Params(v))
                } else {
                    let rest = Self::decode(reader)?;
                    let Params(mut pairs) = rest;
                    let ghost pre = pairs@;
                    pairs.insert(0, (name, value));
                    proof {
                        assert(pairs@ =~= seq![(name, value)] + pre);
                        assert(params_model(pairs@) =~= seq![(name@, value@)] + params_model(pre));
                    }
                    Ok(Params(pairs))
                }
            },
        }
    }
}

// ---------------------------------------------------------------------------
// StartupMessage
// ---------------------------------------------------------------------------

/// A real startup frame: the protocol version and the session parameters.
#[derive(Debug)]
pub struct StartupMessage {
    pub version: i32,
    pub params: Params,
}

impl View for StartupMessage {
    type V = (i32, Seq<(Seq<u8>, Seq<u8>)>);

    open spec fn view(&self) -> (i32, Seq<(Seq<u8>, Seq<u8>)>) {
        (self.version, self.params@)
    }
}

impl Encode for StartupMessage {
    open spec fn enc(&self) -> Seq<u8> {
        spec_i32_to_be_bytes((params_len(self.params@) + 9) as i32) + spec_i32_to_be_bytes(
            self.version,
        ) + params_payload(self.params@) + seq![0u8]
    }

    open spec fn enc_wf(&self) -> bool {
        params_len(self.params@) + 9 <= 0x7fff_ffff
    }

    fn encode(&self, writer: &mut Writer) {
        proof {
            lemma_params_len(self.params@);
        }
        let payload_len = self.params.wire_len_from(0);
        writer.write_i32((payload_len + 9) as i32);
        writer.write_i32(self.version);
        self.params.encode(writer);
        proof {
            assert(writer@ =~= old(writer)@ + self.enc());
        }
    }
}

impl Params {
    /// The wire size of the pairs from index `i` on, without the closing
    /// NUL.
    fn wire_len_from(&self, i: usize) -> (n: usize)
        requires
            i <= self.0@.len(),
            params_len(self@.skip(i as int)) <= 0x7fff_ffff,
        ensures
            n == params_len(self@.skip(i as int)),
        decreases self.0@.len() - i,
    {
        proof {
            lemma_params_len(self@.skip(i as int));
        }
        if i == self.0.len() {
            0
        } else {
            proof {
                assert(self@.skip(i as int)[0] == (self.0@[i as int].0@, self.0@[i as int].1@));
                assert(self@.skip(i as int).skip(1) =~= self@.skip(i + 1));
                lemma_params_len(self@.skip(i + 1));
            }
            let rest = self.wire_len_from(i + 1);
            2 + self.0[i].0.len() + self.0[i].1.len() + rest
        }
    }
}

impl Decode for StartupMessage {
    open spec fn dec(s: Seq<u8>) -> Result<((i32, Seq<(Seq<u8>, Seq<u8>)>), int), DecodeError> {
        match dec_i32(s) {
            Err(e) => Err(e),
            Ok((_len, _)) => match dec_i32(s.skip(4)) {
                Err(e) => Err(e),
                Ok((version, _)) => match dec_params(s.skip(8)) {
                    Err(e) => Err(e),
                    Ok((ps, n)) => Ok(((version, ps), 8 + n)),
                },
            },
        }
    }

    fn decode(reader: &mut Reader) -> (res: Result<StartupMessage, DecodeError>) {
        let _len = reader.read_i32()?;
        let version = reader.read_i32()?;
        let params = Params::decode(reader)?;
        Ok(StartupMessage { version, params })
    }
}

// ---------------------------------------------------------------------------
// Handshake
// ---------------------------------------------------------------------------

/// What a handshake frame turned out to be once the version field was read.
#[derive(Debug)]
pub enum Handshake {
    SSLRequest(SSLRequest),
    StartupMessage(StartupMessage),
}

/// The view of a handshake frame.
pub enum HandshakeModel {
    SslRequest(i32),
    Startup(i32, Seq<(Seq<u8>, Seq<u8>)>),
}

impl View for Handshake {
    type V = HandshakeModel;

    open spec fn view(&self) -> HandshakeModel {
        match self {
            Handshake::SSLRequest(r) => HandshakeModel::SslRequest(r.code),
            Handshake::StartupMessage(m) => HandshakeModel::Startup(m.version, m.params@),
        }
    }
}

impl Encode for Handshake {
    open spec fn enc(&self) -> Seq<u8> {
        match self {
            Handshake::SSLRequest(r) => r.enc(),
            Handshake::StartupMessage(m) => m.enc(),
        }
    }

    open spec fn enc_wf(&self) -> bool {
        match self {
            Handshake::SSLRequest(r) => r.enc_wf() && r.code == SSL_REQUEST_CODE,
            Handshake::StartupMessage(m) => m.enc_wf() && m.version != SSL_REQUEST_CODE,
        }
    }

    fn encode(&self, writer: &mut Writer) {
        match self {
            Handshake::SSLRequest(r) => r.encode(writer),
            Handshake::StartupMessage(m) => m.encode(writer),
        }
    }
}

impl Decode for Handshake {
    open spec fn dec(s: Seq<u8>) -> Result<(HandshakeModel, int), DecodeError> {
        match dec_i32(s) {
            Err(e) => Err(e),
            Ok((_len, _)) => match dec_i32(s.skip(4)) {
                Err(e) => Err(e),
                Ok((version, _)) => if version == SSL_REQUEST_CODE {
                    Ok((HandshakeModel::SslRequest(version), 8))
                } else {
                    match dec_params(s.skip(8)) {
                        Err(e) => Err(e),
                        Ok((ps, n)) => Ok((HandshakeModel::Startup(version, ps), 8 + n)),
                    }
                },
            },
        }
    }

    fn decode(reader: &mut Reader) -> (res: Result<Handshake, DecodeError>) {
        let _len = reader.read_i32()?;
        let version = reader.read_i32()?;
        if version == SSL_REQUEST_CODE {
            return Ok(Handshake::SSLRequest(SSLRequest { code: version }));
        }
        let params = Params::decode(reader)?;
        Ok(Handshake::StartupMessage(StartupMessage { version, params }))
    }
}

// ---------------------------------------------------------------------------
// Query, Terminate, IncomingMessage
// ---------------------------------------------------------------------------

/// A simple-protocol query: the literal SQL text, sent as one unit.
#[derive(Debug)]
pub struct Query {
    pub query: Vec<u8>,
}

impl View for Query {
    type V = Seq<u8>;

    open spec fn view(&self) -> Seq<u8> {
        self.query@
    }
}

impl Encode for Query {
    open spec fn enc(&self) -> Seq<u8> {
        spec_i32_to_be_bytes((self@.len() + 5) as i32) + self@ + seq![0u8]
    }

    open spec fn enc_wf(&self) -> bool {
        self@.len() + 5 <= 0x7fff_ffff
    }

    fn encode(&self, writer: &mut Writer) {
        writer.write_i32((self.query.len() + 5) as i32);
        writer.write_str(self.query.as_slice());
        proof {
            assert(writer@ =~= old(writer)@ + self.enc());
        }
    }
}

impl Decode for Query {
    open spec fn dec(s: Seq<u8>) -> Result<(Seq<u8>, int), DecodeError> {
        match dec_i32(s) {
            Err(e) => Err(e),
            Ok((_len, _)) => match dec_cstr(s.skip(4)) {
                Err(e) => Err(e),
                Ok((q, n)) => Ok((q, 4 + n)),
            },
        }
    }

    fn decode(reader: &mut Reader) -> (res: Result<Query, DecodeError>) {
        let _len = reader.read_i32()?;
        let query = reader.read_string()?;
        Ok(Query { query })
    }
}

/// The client's request to end the session; its payload is the length field
/// alone.
#[derive(Debug)]
pub struct Terminate {}

impl View for Terminate {
    type V = ();

    open spec fn view(&self) -> () {
        ()
    }
}

impl Encode for Terminate {
    open spec fn enc(&self) -> Seq<u8> {
        spec_i32_to_be_bytes(4)
    }

    open spec fn enc_wf(&self) -> bool {
        true
    }

    fn encode(&self, writer: &mut Writer) {
        writer.write_i32(4);
    }
}

impl Decode for Terminate {
    open spec fn dec(s: Seq<u8>) -> Result<((), int), DecodeError> {
        match dec_i32(s) {
            Err(e) => Err(e),
            Ok((_len, _)) => Ok(((), 4)),
        }
    }

    fn decode(reader: &mut Reader) -> (res: Result<Terminate, DecodeError>) {
        let _len = reader.read_i32()?;
        Ok(Terminate {})
    }
}

/// A steady-state frame from the client, dispatched on its tag byte:
/// `'Q'` for a query, `'X'` for termination.  Any other tag is a protocol
/// violation.
#[derive(Debug)]
pub enum IncomingMessage {
    Query(Query),
    Terminate(Terminate),
}

/// The view of a steady-state frame from the client.
pub enum IncomingModel {
    Query(Seq<u8>),
    Terminate,
}

impl View for IncomingMessage {
    type V = IncomingModel;

    open spec fn view(&self) -> IncomingModel {
        match self {
            IncomingMessage::Query(q) => IncomingModel::Query(q.query@),
            IncomingMessage::Terminate(_) => IncomingModel::Terminate,
        }
    }
}

impl Encode for IncomingMessage {
    open spec fn enc(&self) -> Seq<u8> {
        match self {
            IncomingMessage::Query(q) => seq![81u8] + q.enc(),
            IncomingMessage::Terminate(t) => seq![88u8] + t.enc(),
        }
    }

    open spec fn enc_wf(&self) -> bool {
        match self {
            IncomingMessage::Query(q) => q.enc_wf(),
            IncomingMessage::Terminate(t) => t.enc_wf(),
        }
    }

    fn encode(&self, writer: &mut Writer) {
        match self {
            IncomingMessage::Query(q) => {
                writer.write_byte(81u8);
                q.encode(writer);
            },
            IncomingMessage::Terminate(t) => {
                writer.write_byte(88u8);
                t.encode(writer);
            },
        }
        proof {
            assert(writer@ =~= old(writer)@ + self.enc());
        }
    }
}

impl Decode for IncomingMessage {
    open spec fn dec(s: Seq<u8>) -> Result<(IncomingModel, int), DecodeError> {
        match dec_u8(s) {
            Err(e) => Err(e),
            Ok((id, _)) => if id == 81u8 {
                match Query::dec(s.skip(1)) {
                    Err(e) => Err(e),
                    Ok((q, n)) => Ok((IncomingModel::Query(q), 1 + n)),
                }
            } else if id == 88u8 {
                match Terminate::dec(s.skip(1)) {
                    Err(e) => Err(e),
                    Ok((_t, n)) => Ok((IncomingModel::Terminate, 1 + n)),
                }
            } else {
                Err(DecodeError::UnknownMessageType(id))
            },
        }
    }

    fn decode(reader: &mut Reader) -> (res: Result<IncomingMessage, DecodeError>) {
        let id = reader.read_byte()?;
        if id == 81u8 {
            let q = Query::decode(reader)?;
            Ok(IncomingMessage::Query(q))
        } else if id == 88u8 {
            let t = Terminate::decode(reader)?;
            Ok(IncomingMessage::Terminate(t))
        } else {
            Err(DecodeError::UnknownMessageType(id))
        }
    }
}

// ---------------------------------------------------------------------------
// PasswordMessage
// ---------------------------------------------------------------------------

/// The client's password reply during cleartext authentication.  The
/// password is held in a secret buffer that locks and scrubs its memory,
/// never in an ordinary string, and is not checked as UTF-8: it stays an
/// opaque byte credential.
pub struct PasswordMessage {
    pub password: secstr::SecVec<u8>,
}

impl View for PasswordMessage {
    type V = Seq<u8>;

    open spec fn view(&self) -> Seq<u8> {
        sec_bytes(self.password)
    }
}

impl Encode for PasswordMessage {
    open spec fn enc(&self) -> Seq<u8> {
        spec_i32_to_be_bytes((self@.len() + 5) as i32) + self@ + seq![0u8]
    }

    open spec fn enc_wf(&self) -> bool {
        self@.len() + 5 <= 0x7fff_ffff
    }

    fn encode(&self, writer: &mut Writer) {
        let bytes = secstr_unsecure(&self.password);
        writer.write_i32((bytes.len() + 5) as i32);
        writer.write_str(bytes);
        proof {
            assert(writer@ =~= old(writer)@ + self.enc());
        }
    }
}

impl Decode for PasswordMessage {
    open spec fn dec(s: Seq<u8>) -> Result<(Seq<u8>, int), DecodeError> {
        match dec_i32(s) {
            Err(e) => Err(e),
            Ok((_len, _)) => match dec_raw_cstr(s.skip(4)) {
                Err(e) => Err(e),
                Ok((pw, n)) => Ok((pw, 4 + n)),
            },
        }
    }

    fn decode(reader: &mut Reader) -> (res: Result<PasswordMessage, DecodeError>) {
        let _len = reader.read_i32()?;
        let bytes = reader.read_string_bytes()?;
        Ok(PasswordMessage { password: secstr_new(bytes) })
    }
}

// ---------------------------------------------------------------------------
// How much a successful decode consumes: at least one byte, at most the
// whole buffer.  The state machine's termination rests on these bounds.
// ---------------------------------------------------------------------------

pub proof fn lemma_dec_cstr_bounds(s: Seq<u8>)
    ensures
        dec_cstr(s) matches Ok(t) ==> 1 <= t.1 <= s.len(),
        dec_raw_cstr(s) matches Ok(t) ==> 1 <= t.1 <= s.len(),
{
    lemma_nul_pos_bounds(s);
}

pub proof fn lemma_dec_params_bounds(s: Seq<u8>)
    ensures
        dec_params(s) matches Ok(t) ==> 1 <= t.1 <= s.len(),
    decreases s.len(),
{
    lemma_dec_cstr_bounds(s);
    if let Ok((name, n1)) = dec_cstr(s) {
        lemma_dec_cstr_bounds(s.skip(n1));
        if let Ok((value, n2)) = dec_cstr(s.skip(n1)) {
            lemma_dec_params_bounds(s.skip(n1 + n2));
        }
    }
}

pub proof fn lemma_dec_handshake_bounds(s: Seq<u8>)
    ensures
        Handshake::dec(s) matches Ok(t) ==> 8 <= t.1 <= s.len(),
{
    lemma_dec_params_bounds(s.skip(8));
}

pub proof fn lemma_dec_startup_bounds(s: Seq<u8>)
    ensures
        StartupMessage::dec(s) matches Ok(t) ==> 8 <= t.1 <= s.len(),
{
    lemma_dec_params_bounds(s.skip(8));
}

pub proof fn lemma_dec_password_bounds(s: Seq<u8>)
    ensures
        PasswordMessage::dec(s) matches Ok(t) ==> 5 <= t.1 <= s.len(),
{
    lemma_dec_cstr_bounds(s.skip(4));
}

pub proof fn lemma_dec_incoming_bounds(s: Seq<u8>)
    ensures
        IncomingMessage::dec(s) matches Ok(t) ==> 5 <= t.1 <= s.len(),
{
    lemma_dec_cstr_bounds(s.skip(5));
}

} // verus!
