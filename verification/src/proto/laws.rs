//! The codec's two global guarantees, stated and proved for every message
//! of the catalog: decoding an encoded message gives the message back
//! (round-trip), and every encoded message declares exactly the length of
//! what follows its length field (length invariant).

use vstd::prelude::*;

use crate::proto::messages::backend::{
    dec_auth_frame, fields_len, fields_payload, frame, lemma_field_byte_roundtrip,
    lemma_fields_len, AuthenticationCleartextPassword, AuthenticationOk, CommandComplete,
    ErrorResponse, Field, ReadyForQuery, SSLResponse, TransactionStatus,
};
use crate::proto::messages::frontend::{
    dec_params, params_len, params_payload, lemma_params_len, Handshake, HandshakeModel,
    IncomingMessage, IncomingModel, Params, PasswordMessage, Query, SSLRequest, StartupMessage,
    Terminate, SSL_REQUEST_CODE,
};
use crate::proto::{dec_cstr, dec_i32, dec_raw_cstr, Decode, DecodeError, Encode};
use crate::wire::{
    is_utf8, lemma_i32_be_roundtrip, lemma_nul_pos_terminated, no_nul, spec_i32_from_be_bytes,
    spec_i32_to_be_bytes,
};

verus! {

broadcast use vstd::seq::group_seq_axioms, vstd::seq_lib::lemma_seq_skip_of_skip;

/// Text a protocol string can carry faithfully: no interior NUL (the
/// terminator would cut it short) and well-formed UTF-8 (the decoder
/// rejects anything else).
pub open spec fn text_wf(v: Seq<u8>) -> bool {
    no_nul(v) && is_utf8(v)
}

/// Every field value of an error report carries faithful text.
pub open spec fn fields_wf(fs: Seq<(Field, Seq<u8>)>) -> bool {
    forall|i: int| 0 <= i < fs.len() ==> text_wf(#[trigger] fs[i].1)
}

/// A parameter list the wire can carry faithfully: at least one pair (the
/// decoder demands one before the terminator), faithful text throughout,
/// and no empty key (an empty key's encoding is the terminator itself).
pub open spec fn params_wf(ps: Seq<(Seq<u8>, Seq<u8>)>) -> bool {
    &&& ps.len() >= 1
    &&& forall|i: int|
        0 <= i < ps.len() ==> text_wf(#[trigger] ps[i].0) && text_wf(ps[i].1) && ps[i].0.len() > 0
}

// ---------------------------------------------------------------------------
// Primitive round-trips.
// ---------------------------------------------------------------------------

pub proof fn lemma_dec_i32_of(x: i32, rest: Seq<u8>)
    ensures
        dec_i32(spec_i32_to_be_bytes(x) + rest) == Ok::<(i32, int), DecodeError>((x, 4)),
{
    lemma_i32_be_roundtrip(x);
    assert((spec_i32_to_be_bytes(x) + rest).take(4) =~= spec_i32_to_be_bytes(x));
}

pub proof fn lemma_dec_raw_cstr_of(v: Seq<u8>, rest: Seq<u8>)
    requires
        no_nul(v),
    ensures
        dec_raw_cstr(v + seq![0u8] + rest) == Ok::<(Seq<u8>, int), DecodeError>((v, v.len() as int + 1)),
{
    lemma_nul_pos_terminated(v, rest);
    assert((v + seq![0u8] + rest).take(v.len() as int) =~= v);
}

pub proof fn lemma_dec_cstr_of(v: Seq<u8>, rest: Seq<u8>)
    requires
        text_wf(v),
    ensures
        dec_cstr(v + seq![0u8] + rest) == Ok::<(Seq<u8>, int), DecodeError>((v, v.len() as int + 1)),
{
    lemma_nul_pos_terminated(v, rest);
    assert((v + seq![0u8] + rest).take(v.len() as int) =~= v);
}

// ---------------------------------------------------------------------------
// Round-trip, client-bound messages.
// ---------------------------------------------------------------------------

/// Round-trip for the SSL probe reply.
pub proof fn lemma_roundtrip_ssl_response(m: SSLResponse, rest: Seq<u8>)
    ensures
        SSLResponse::dec(m.enc() + rest) == Ok::<(SSLResponse, int), DecodeError>((m, 1)),
        m.enc().len() == 1,
{
}

/// Round-trip for the authentication-success report.
pub proof fn lemma_roundtrip_authentication_ok(m: &AuthenticationOk, rest: Seq<u8>)
    ensures
        AuthenticationOk::dec(m.enc() + rest) == Ok::<((), int), DecodeError>(((), 9)),
        m.enc().len() == 9,
{
    lemma_roundtrip_auth_frame(0, rest);
}

/// Round-trip for the cleartext-password request.
pub proof fn lemma_roundtrip_authentication_cleartext(
    m: &AuthenticationCleartextPassword,
    rest: Seq<u8>,
)
    ensures
        AuthenticationCleartextPassword::dec(m.enc() + rest) == Ok::<((), int), DecodeError>(
            ((), 9),
        ),
        m.enc().len() == 9,
{
    lemma_roundtrip_auth_frame(3, rest);
}

proof fn lemma_roundtrip_auth_frame(kind: i32, rest: Seq<u8>)
    ensures
        dec_auth_frame(frame(82u8, spec_i32_to_be_bytes(kind)) + rest, kind) == Ok::<
            ((), int),
            DecodeError,
        >(((), 9)),
        frame(82u8, spec_i32_to_be_bytes(kind)).len() == 9,
{
    let s = frame(82u8, spec_i32_to_be_bytes(kind)) + rest;
    assert(s[0] == 82u8);
    assert(s.skip(1) =~= spec_i32_to_be_bytes(8) + (spec_i32_to_be_bytes(kind) + rest));
    lemma_dec_i32_of(8, spec_i32_to_be_bytes(kind) + rest);
    assert(s.skip(5) =~= spec_i32_to_be_bytes(kind) + rest);
    lemma_dec_i32_of(kind, rest);
}

/// Round-trip for an error report.
pub proof fn lemma_roundtrip_error_response(m: &ErrorResponse, rest: Seq<u8>)
    requires
        m.enc_wf(),
        fields_wf(m@),
    ensures
        ErrorResponse::dec(m.enc() + rest) == Ok::<(Seq<(Field, Seq<u8>)>, int), DecodeError>(
            (m@, m.enc().len() as int),
        ),
{
    let fs = m@;
    lemma_fields_len(fs);
    let payload = fields_payload(fs) + seq![0u8];
    let s = m.enc() + rest;
    assert(s[0] == 69u8);
    assert(s.skip(1) =~= spec_i32_to_be_bytes((payload.len() + 4) as i32) + (payload + rest));
    lemma_dec_i32_of((payload.len() + 4) as i32, payload + rest);
    assert(s.skip(5) =~= fields_payload(fs) + seq![0u8] + rest);
    lemma_dec_fields_of(fs, rest);
}

/// Decoding an encoded field list finds exactly the fields and stops at
/// the terminator.
pub proof fn lemma_dec_fields_of(fs: Seq<(Field, Seq<u8>)>, rest: Seq<u8>)
    requires
        fields_wf(fs),
    ensures
        crate::proto::messages::backend::dec_fields(fields_payload(fs) + seq![0u8] + rest) == Ok::<
            (Seq<(Field, Seq<u8>)>, int),
            DecodeError,
        >((fs, fields_len(fs) + 1)),
    decreases fs.len(),
{
    lemma_fields_len(fs);
    let s = fields_payload(fs) + seq![0u8] + rest;
    if fs.len() == 0 {
        assert(s[0] == 0);
        assert(fs =~= Seq::<(Field, Seq<u8>)>::empty());
    } else {
        let f = fs[0].0;
        let v = fs[0].1;
        let tail = fields_payload(fs.skip(1)) + seq![0u8] + rest;
        assert(s =~= seq![f.spec_byte()] + (v + seq![0u8] + tail));
        lemma_field_byte_roundtrip(f);
        assert(s[0] == f.spec_byte());
        assert(s.skip(1) =~= v + seq![0u8] + tail);
        lemma_dec_cstr_of(v, tail);
        assert(s.skip(1).skip(v.len() as int + 1) =~= tail);
        assert forall|i: int| 0 <= i < fs.skip(1).len() implies text_wf(#[trigger] fs.skip(1)[i].1) by {
            assert(fs.skip(1)[i] == fs[i + 1]);
        }
        lemma_dec_fields_of(fs.skip(1), rest);
        lemma_fields_len(fs.skip(1));
        assert(seq![(f, v)] + fs.skip(1) =~= fs);
        assert(s.skip(1 + (v.len() as int + 1)) =~= tail);
    }
}

/// Round-trip for the readiness report.
pub proof fn lemma_roundtrip_ready_for_query(m: ReadyForQuery, rest: Seq<u8>)
    ensures
        ReadyForQuery::dec(m.enc() + rest) == Ok::<(ReadyForQuery, int), DecodeError>((m, 6)),
        m.enc().len() == 6,
{
    let s = m.enc() + rest;
    assert(s[0] == 90u8);
    assert(s.skip(1) =~= spec_i32_to_be_bytes(5) + (seq![m.transaction_status.spec_byte()] + rest));
    lemma_dec_i32_of(5, seq![m.transaction_status.spec_byte()] + rest);
    assert(s.skip(5) =~= seq![m.transaction_status.spec_byte()] + rest);
    assert(s.skip(5)[0] == m.transaction_status.spec_byte());
}

/// Round-trip for the completion report.
pub proof fn lemma_roundtrip_command_complete(m: &CommandComplete, rest: Seq<u8>)
    requires
        m.enc_wf(),
        text_wf(m@),
    ensures
        CommandComplete::dec(m.enc() + rest) == Ok::<(Seq<u8>, int), DecodeError>(
            (m@, m.enc().len() as int),
        ),
{
    let s = m.enc() + rest;
    assert(s[0] == 67u8);
    assert(s.skip(1) =~= spec_i32_to_be_bytes((m@.len() + 5) as i32) + (m@ + seq![0u8] + rest));
    lemma_dec_i32_of((m@.len() + 5) as i32, m@ + seq![0u8] + rest);
    assert(s.skip(5) =~= m@ + seq![0u8] + rest);
    lemma_dec_cstr_of(m@, rest);
}

// ---------------------------------------------------------------------------
// Round-trip, server-bound messages.
// ---------------------------------------------------------------------------

/// Round-trip for the SSL probe; its code is the SSL-request magic, or the
/// decoder rejects it by design.
pub proof fn lemma_roundtrip_ssl_request(m: SSLRequest, rest: Seq<u8>)
    requires
        m.code == SSL_REQUEST_CODE,
    ensures
        SSLRequest::dec(m.enc() + rest) == Ok::<(SSLRequest, int), DecodeError>((m, 8)),
        m.enc().len() == 8,
{
    let s = m.enc() + rest;
    assert(s.take(4) =~= spec_i32_to_be_bytes(8));
    lemma_dec_i32_of(8, spec_i32_to_be_bytes(m.code) + rest);
    assert(s =~= spec_i32_to_be_bytes(8) + (spec_i32_to_be_bytes(m.code) + rest));
    assert(s.skip(4) =~= spec_i32_to_be_bytes(m.code) + rest);
    lemma_dec_i32_of(m.code, rest);
}

/// Decoding an encoded parameter list finds exactly the pairs and consumes
/// the terminator.
pub proof fn lemma_dec_params_of(ps: Seq<(Seq<u8>, Seq<u8>)>, rest: Seq<u8>)
    requires
        params_wf(ps),
    ensures
        dec_params(params_payload(ps) + seq![0u8] + rest) == Ok::<
            (Seq<(Seq<u8>, Seq<u8>)>, int),
            DecodeError,
        >((ps, params_len(ps) + 1)),
    decreases ps.len(),
{
    lemma_params_len(ps);
    let k = ps[0].0;
    let v = ps[0].1;
    let s = params_payload(ps) + seq![0u8] + rest;
    let tail = params_payload(ps.skip(1)) + seq![0u8] + rest;
    assert(s =~= k + seq![0u8] + (v + seq![0u8] + tail));
    lemma_dec_cstr_of(k, v + seq![0u8] + tail);
    assert(s.skip(k.len() as int + 1) =~= v + seq![0u8] + tail);
    lemma_dec_cstr_of(v, tail);
    assert(s.skip(k.len() as int + 1 + (v.len() as int + 1)) =~= tail);
    lemma_params_len(ps.skip(1));
    if ps.len() == 1 {
        assert(params_payload(ps.skip(1)) =~= Seq::<u8>::empty());
        assert(tail[0] == 0);
        assert(seq![(k, v)] =~= ps);
    } else {
        assert(ps.skip(1)[0] == ps[1]);
        assert(tail[0] == ps[1].0[0]);
        assert(ps[1].0[0] != 0);
        assert forall|i: int|
            0 <= i < ps.skip(1).len() implies text_wf(#[trigger] ps.skip(1)[i].0) && text_wf(
            ps.skip(1)[i].1,
        ) && ps.skip(1)[i].0.len() > 0 by {
            assert(ps.skip(1)[i] == ps[i + 1]);
        }
        lemma_dec_params_of(ps.skip(1), rest);
        assert(seq![(k, v)] + ps.skip(1) =~= ps);
    }
}

/// Round-trip for a parameter list.
pub proof fn lemma_roundtrip_params(m: &Params, rest: Seq<u8>)
    requires
        params_wf(m@),
    ensures
        Params::dec(m.enc() + rest) == Ok::<(Seq<(Seq<u8>, Seq<u8>)>, int), DecodeError>(
            (m@, m.enc().len() as int),
        ),
{
    lemma_params_len(m@);
    assert(m.enc() + rest =~= params_payload(m@) + seq![0u8] + rest);
    lemma_dec_params_of(m@, rest);
}

/// Round-trip for a startup message.
pub proof fn lemma_roundtrip_startup_message(m: &StartupMessage, rest: Seq<u8>)
    requires
        m.enc_wf(),
        params_wf(m.params@),
    ensures
        StartupMessage::dec(m.enc() + rest) == Ok::<
            ((i32, Seq<(Seq<u8>, Seq<u8>)>), int),
            DecodeError,
        >((m@, m.enc().len() as int)),
{
    lemma_params_len(m.params@);
    let s = m.enc() + rest;
    let total = (params_len(m.params@) + 9) as i32;
    let tail = params_payload(m.params@) + seq![0u8] + rest;
    assert(s =~= spec_i32_to_be_bytes(total) + (spec_i32_to_be_bytes(m.version) + tail));
    lemma_dec_i32_of(total, spec_i32_to_be_bytes(m.version) + tail);
    assert(s.skip(4) =~= spec_i32_to_be_bytes(m.version) + tail);
    lemma_dec_i32_of(m.version, tail);
    assert(s.skip(8) =~= tail);
    lemma_dec_params_of(m.params@, rest);
}

/// Round-trip for the handshake: an SSL probe is recognized by the magic
/// code, a startup message by any other version.
pub proof fn lemma_roundtrip_handshake(m: &Handshake, rest: Seq<u8>)
    requires
        m.enc_wf(),
        (m matches Handshake::StartupMessage(sm) ==> params_wf(sm.params@)),
    ensures
        Handshake::dec(m.enc() + rest) == Ok::<(HandshakeModel, int), DecodeError>(
            (m@, m.enc().len() as int),
        ),
{
    match m {
        Handshake::SSLRequest(r) => {
            let s = m.enc() + rest;
            assert(s =~= spec_i32_to_be_bytes(8) + (spec_i32_to_be_bytes(r.code) + rest));
            lemma_dec_i32_of(8, spec_i32_to_be_bytes(r.code) + rest);
            assert(s.skip(4) =~= spec_i32_to_be_bytes(r.code) + rest);
            lemma_dec_i32_of(r.code, rest);
        },
        Handshake::StartupMessage(sm) => {
            lemma_params_len(sm.params@);
            let s = m.enc() + rest;
            let total = (params_len(sm.params@) + 9) as i32;
            let tail = params_payload(sm.params@) + seq![0u8] + rest;
            assert(s =~= spec_i32_to_be_bytes(total) + (spec_i32_to_be_bytes(sm.version) + tail));
            lemma_dec_i32_of(total, spec_i32_to_be_bytes(sm.version) + tail);
            assert(s.skip(4) =~= spec_i32_to_be_bytes(sm.version) + tail);
            lemma_dec_i32_of(sm.version, tail);
            assert(s.skip(8) =~= tail);
            lemma_dec_params_of(sm.params@, rest);
        },
    }
}

/// Round-trip for a simple query.
pub proof fn lemma_roundtrip_query(m: &Query, rest: Seq<u8>)
    requires
        m.enc_wf(),
        text_wf(m@),
    ensures
        Query::dec(m.enc() + rest) == Ok::<(Seq<u8>, int), DecodeError>(
            (m@, m.enc().len() as int),
        ),
{
    let s = m.enc() + rest;
    assert(s =~= spec_i32_to_be_bytes((m@.len() + 5) as i32) + (m@ + seq![0u8] + rest));
    lemma_dec_i32_of((m@.len() + 5) as i32, m@ + seq![0u8] + rest);
    assert(s.skip(4) =~= m@ + seq![0u8] + rest);
    lemma_dec_cstr_of(m@, rest);
}

/// Round-trip for the termination notice.
pub proof fn lemma_roundtrip_terminate(m: &Terminate, rest: Seq<u8>)
    ensures
        Terminate::dec(m.enc() + rest) == Ok::<((), int), DecodeError>(((), 4)),
        m.enc().len() == 4,
{
    lemma_dec_i32_of(4, rest);
    assert(m.enc() + rest =~= spec_i32_to_be_bytes(4) + rest);
}

/// Round-trip for a steady-state client frame.
pub proof fn lemma_roundtrip_incoming(m: &IncomingMessage, rest: Seq<u8>)
    requires
        m.enc_wf(),
        (m matches IncomingMessage::Query(q) ==> text_wf(q@)),
    ensures
        IncomingMessage::dec(m.enc() + rest) == Ok::<(IncomingModel, int), DecodeError>(
            (m@, m.enc().len() as int),
        ),
{
    match m {
        IncomingMessage::Query(q) => {
            let s = m.enc() + rest;
            assert(s =~= seq![81u8] + (q.enc() + rest));
            assert(s[0] == 81u8);
            assert(s.skip(1) =~= q.enc() + rest);
            lemma_roundtrip_query(q, rest);
        },
        IncomingMessage::Terminate(t) => {
            let s = m.enc() + rest;
            assert(s =~= seq![88u8] + (t.enc() + rest));
            assert(s[0] == 88u8);
            assert(s.skip(1) =~= t.enc() + rest);
            lemma_roundtrip_terminate(t, rest);
        },
    }
}

/// Round-trip for the password reply: the decoded secret holds the same
/// bytes.
pub proof fn lemma_roundtrip_password(m: &PasswordMessage, rest: Seq<u8>)
    requires
        m.enc_wf(),
        no_nul(m@),
    ensures
        PasswordMessage::dec(m.enc() + rest) == Ok::<(Seq<u8>, int), DecodeError>(
            (m@, m.enc().len() as int),
        ),
{
    let s = m.enc() + rest;
    assert(s =~= spec_i32_to_be_bytes((m@.len() + 5) as i32) + (m@ + seq![0u8] + rest));
    lemma_dec_i32_of((m@.len() + 5) as i32, m@ + seq![0u8] + rest);
    assert(s.skip(4) =~= m@ + seq![0u8] + rest);
    lemma_dec_raw_cstr_of(m@, rest);
}

// ---------------------------------------------------------------------------
// Length invariant.
// ---------------------------------------------------------------------------

/// Every tagged frame declares, after its tag, exactly the byte count of
/// the payload that follows the length field plus the length field's own
/// four bytes.
pub proof fn lemma_frame_length(tag: u8, payload: Seq<u8>)
    requires
        payload.len() + 4 <= 0x7fff_ffff,
    ensures
        frame(tag, payload).len() == 5 + payload.len(),
        spec_i32_from_be_bytes(frame(tag, payload).subrange(1, 5)) == payload.len() + 4,
{
    lemma_i32_be_roundtrip((payload.len() + 4) as i32);
    assert(frame(tag, payload).subrange(1, 5) =~= spec_i32_to_be_bytes(
        (payload.len() + 4) as i32,
    ));
}

/// An untagged startup-phase frame declares, at its head, its own total
/// byte count: the length field is inclusive of itself.
pub proof fn lemma_length_startup_message(m: &StartupMessage)
    requires
        m.enc_wf(),
    ensures
        spec_i32_from_be_bytes(m.enc().take(4)) == m.enc().len(),
{
    lemma_params_len(m.params@);
    lemma_i32_be_roundtrip((params_len(m.params@) + 9) as i32);
    assert(m.enc().take(4) =~= spec_i32_to_be_bytes((params_len(m.params@) + 9) as i32));
}

/// The query frame's declared length covers the text, its terminator and
/// the length field itself.
pub proof fn lemma_length_query(m: &Query)
    requires
        m.enc_wf(),
    ensures
        spec_i32_from_be_bytes(m.enc().take(4)) == m.enc().len(),
{
    lemma_i32_be_roundtrip((m@.len() + 5) as i32);
    assert(m.enc().take(4) =~= spec_i32_to_be_bytes((m@.len() + 5) as i32));
}

/// The password frame's declared length covers the secret, its terminator
/// and the length field itself.
pub proof fn lemma_length_password(m: &PasswordMessage)
    requires
        m.enc_wf(),
    ensures
        spec_i32_from_be_bytes(m.enc().take(4)) == m.enc().len(),
{
    lemma_i32_be_roundtrip((m@.len() + 5) as i32);
    assert(m.enc().take(4) =~= spec_i32_to_be_bytes((m@.len() + 5) as i32));
}

/// The error frame declares exactly the size of its field list, terminator
/// included.
pub proof fn lemma_length_error_response(m: &ErrorResponse)
    requires
        m.enc_wf(),
    ensures
        m.enc().len() == 5 + fields_len(m@) + 1,
        spec_i32_from_be_bytes(m.enc().subrange(1, 5)) == m.enc().len() - 1,
{
    lemma_fields_len(m@);
    lemma_frame_length(69u8, fields_payload(m@) + seq![0u8]);
}

/// The completion frame declares exactly the size of its tag text,
/// terminator included.
pub proof fn lemma_length_command_complete(m: &CommandComplete)
    requires
        m.enc_wf(),
    ensures
        m.enc().len() == 5 + m@.len() + 1,
        spec_i32_from_be_bytes(m.enc().subrange(1, 5)) == m.enc().len() - 1,
{
    lemma_frame_length(67u8, m@ + seq![0u8]);
}

} // verus!
