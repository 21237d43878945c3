//! Whole-session scenarios: the state machine driven over in-memory byte
//! streams, its output parsed back with the catalog's own decoders.

use postgres_conn::backend::auth::{AuthMethod, NoopAuth, PasswordAuth};
use postgres_conn::backend::manager::{Manager, Phase, Replication};
use postgres_conn::backend::query_exec::NoopQueryExec;
use postgres_conn::proto::messages::backend::{
    AuthenticationCleartextPassword, AuthenticationOk, CommandComplete, ErrorResponse, Field,
    ReadyForQuery, TransactionStatus,
};
use postgres_conn::proto::messages::frontend::{
    Params, PasswordMessage, Query, SSLRequest, StartupMessage, SSL_REQUEST_CODE,
};
use postgres_conn::proto::{Decode, DecodeError, Encode, Reader, Writer};

fn params_of(pairs: &[(&[u8], &[u8])]) -> Params {
    Params(
        pairs
            .iter()
            .map(|(k, v)| (k.to_vec(), v.to_vec()))
            .collect(),
    )
}

fn startup_frame(pairs: &[(&[u8], &[u8])]) -> Vec<u8> {
    let mut w = Writer::new();
    StartupMessage {
        version: 196608,
        params: params_of(pairs),
    }
    .encode(&mut w);
    w.into_vec()
}

fn ssl_probe_frame() -> Vec<u8> {
    let mut w = Writer::new();
    SSLRequest {
        code: SSL_REQUEST_CODE,
    }
    .encode(&mut w);
    w.into_vec()
}

fn query_frame(text: &[u8]) -> Vec<u8> {
    let mut w = Writer::new();
    w.write_byte(b'Q');
    Query {
        query: text.to_vec(),
    }
    .encode(&mut w);
    w.into_vec()
}

fn terminate_frame() -> Vec<u8> {
    vec![b'X', 0, 0, 0, 4]
}

fn password_frame(pw: &[u8]) -> Vec<u8> {
    let mut out = vec![];
    out.extend_from_slice(&((pw.len() as i32 + 5).to_be_bytes()));
    out.extend_from_slice(pw);
    out.push(0);
    out
}

/// Runs one whole session over the given client bytes with no-op
/// capabilities; returns what the server wrote and how the session ended.
fn run_noop(input: Vec<u8>) -> (Vec<u8>, Result<(), DecodeError>, Manager<NoopAuth, NoopQueryExec>) {
    let mut mgr = Manager::new(NoopAuth::new(), NoopQueryExec::new());
    let mut reader = Reader::new(input);
    let mut writer = Writer::new();
    let res = mgr.handle(&mut reader, &mut writer);
    (writer.into_vec(), res, mgr)
}

fn expect_auth_ok_ready(out: &mut Reader) {
    AuthenticationOk::decode(out).expect("authentication success report");
    let rfq = ReadyForQuery::decode(out).expect("readiness report");
    assert_eq!(rfq.transaction_status, TransactionStatus::Idle);
}

#[test]
fn plain_startup_then_terminate() {
    let mut input = startup_frame(&[(b"user", b"alice")]);
    input.extend_from_slice(&terminate_frame());
    let (out, res, mgr) = run_noop(input);
    assert!(res.is_ok());
    let mut r = Reader::new(out);
    expect_auth_ok_ready(&mut r);
    assert_eq!(r.peek(), None);
    assert_eq!(mgr.phase, Phase::Done);
    assert_eq!(mgr.state.user, b"alice".to_vec());
    assert_eq!(mgr.postgres_version, 196608);
}

#[test]
fn ssl_probe_is_declined_with_one_byte_then_startup_proceeds() {
    let mut input = ssl_probe_frame();
    input.extend_from_slice(&startup_frame(&[(b"user", b"alice")]));
    input.extend_from_slice(&terminate_frame());
    let (out, res, _mgr) = run_noop(input);
    assert!(res.is_ok());
    assert_eq!(out[0], b'N');
    assert_ne!(out[1], b'N');
    let mut r = Reader::new(out[1..].to_vec());
    expect_auth_ok_ready(&mut r);
    assert_eq!(r.peek(), None);
}

#[test]
fn startup_without_user_gets_one_error_and_a_retry() {
    let mut input = startup_frame(&[(b"application_name", b"psql")]);
    input.extend_from_slice(&startup_frame(&[(b"user", b"alice")]));
    input.extend_from_slice(&terminate_frame());
    let (out, res, mgr) = run_noop(input);
    assert!(res.is_ok());
    let mut r = Reader::new(out);
    let err = ErrorResponse::decode(&mut r).expect("the startup-retry report");
    assert_eq!(err.get_field(Field::Code).unwrap().as_slice(), b"P0001");
    assert_eq!(
        err.get_field(Field::Message).unwrap().as_slice(),
        b"the 'user' option is mandatory"
    );
    // Exactly one error, then the accepted retry's responses.
    expect_auth_ok_ready(&mut r);
    assert_eq!(r.peek(), None);
    assert_eq!(mgr.state.user, b"alice".to_vec());
}

#[test]
fn query_loop_repeats_identically_and_stays_open() {
    let mut input = startup_frame(&[(b"user", b"alice")]);
    input.extend_from_slice(&query_frame(b"SELECT 1"));
    input.extend_from_slice(&query_frame(b"SELECT 1"));
    input.extend_from_slice(&terminate_frame());
    let (out, res, _mgr) = run_noop(input);
    assert!(res.is_ok());
    let mut r = Reader::new(out);
    expect_auth_ok_ready(&mut r);
    for _ in 0..2 {
        let complete = CommandComplete::decode(&mut r).expect("completion report");
        assert_eq!(complete.command_tag, b"SELECT 0".to_vec());
        let rfq = ReadyForQuery::decode(&mut r).expect("readiness report");
        assert_eq!(rfq.transaction_status, TransactionStatus::Idle);
    }
    assert_eq!(r.peek(), None);
}

#[test]
fn terminate_ends_the_session_with_no_further_writes() {
    let mut input = startup_frame(&[(b"user", b"alice")]);
    input.extend_from_slice(&query_frame(b"SELECT 1"));
    input.extend_from_slice(&terminate_frame());
    // Anything after the terminate frame is never read.
    input.extend_from_slice(&query_frame(b"SELECT 2"));
    let (out, res, mgr) = run_noop(input);
    assert!(res.is_ok());
    assert_eq!(mgr.phase, Phase::Done);
    let mut r = Reader::new(out);
    expect_auth_ok_ready(&mut r);
    CommandComplete::decode(&mut r).unwrap();
    ReadyForQuery::decode(&mut r).unwrap();
    assert_eq!(r.peek(), None);
}

#[test]
fn startup_parameters_populate_the_session_state() {
    let mut input = startup_frame(&[
        (b"user", b"alice"),
        (b"database", b""),
        (b"options", b"-c x=y"),
    ]);
    input.extend_from_slice(&terminate_frame());
    let (_out, res, mgr) = run_noop(input);
    assert!(res.is_ok());
    assert_eq!(mgr.state.user, b"alice".to_vec());
    // An empty database name defaults to the user.
    assert_eq!(mgr.state.database, b"alice".to_vec());
    assert_eq!(mgr.state.replication, Replication::Disabled);
    assert_eq!(
        mgr.state.extra_params,
        vec![(b"options".to_vec(), b"-c x=y".to_vec())]
    );
}

#[test]
fn replication_parameter_is_parsed_and_validated() {
    let mut input = startup_frame(&[(b"user", b"alice"), (b"replication", b"database")]);
    input.extend_from_slice(&terminate_frame());
    let (_out, res, mgr) = run_noop(input);
    assert!(res.is_ok());
    assert_eq!(mgr.state.replication, Replication::Database);

    let input = startup_frame(&[(b"user", b"alice"), (b"replication", b"sometimes")]);
    let (out, res, _mgr) = run_noop(input);
    assert_eq!(res.unwrap_err(), DecodeError::InvalidReplication);
    assert!(out.is_empty());
}

#[test]
fn duplicate_extra_parameters_overwrite_in_place() {
    let mut input = startup_frame(&[
        (b"user", b"alice"),
        (b"options", b"one"),
        (b"options", b"two"),
    ]);
    input.extend_from_slice(&terminate_frame());
    let (_out, res, mgr) = run_noop(input);
    assert!(res.is_ok());
    assert_eq!(
        mgr.state.extra_params,
        vec![(b"options".to_vec(), b"two".to_vec())]
    );
}

#[test]
fn auth_gate_rejection_sends_28p01_and_closes_without_ready() {
    let mut input = startup_frame(&[(b"user", b"alice")]);
    input.extend_from_slice(&password_frame(b"wrong"));
    let mut mgr = Manager::new(PasswordAuth::new(b"right".to_vec()), NoopQueryExec::new());
    let mut reader = Reader::new(input);
    let mut writer = Writer::new();
    let res = mgr.handle(&mut reader, &mut writer);
    // Authentication failure closes the session cleanly after the report.
    assert!(res.is_ok());
    assert_eq!(mgr.phase, Phase::Done);
    let mut r = Reader::new(writer.into_vec());
    AuthenticationCleartextPassword::decode(&mut r).expect("the cleartext-password request");
    let err = ErrorResponse::decode(&mut r).expect("the rejection report");
    assert_eq!(err.get_field(Field::Code).unwrap().as_slice(), b"28P01");
    assert_eq!(
        err.get_field(Field::Message).unwrap().as_slice(),
        b"password authentication failed"
    );
    // No readiness report was ever sent.
    assert_eq!(r.peek(), None);
}

#[test]
fn handle_auth_runs_the_cleartext_exchange() {
    let mut mgr = Manager::new(PasswordAuth::new(b"pw".to_vec()), NoopQueryExec::new());
    let mut reader = Reader::new(password_frame(b"pw"));
    let mut writer = Writer::new();
    let verdict = mgr
        .handle_auth(AuthMethod::CleartextPassword, &mut reader, &mut writer)
        .expect("the exchange itself succeeds");
    assert!(verdict.is_ok());
    let mut out = Reader::new(writer.into_vec());
    AuthenticationCleartextPassword::decode(&mut out).expect("the request was sent first");
    assert_eq!(out.peek(), None);

    // With no method chosen, nothing is read or written.
    let mut mgr = Manager::new(NoopAuth::new(), NoopQueryExec::new());
    let mut reader = Reader::new(vec![]);
    let mut writer = Writer::new();
    let verdict = mgr
        .handle_auth(AuthMethod::NoAuth, &mut reader, &mut writer)
        .unwrap();
    assert!(verdict.is_ok());
    assert!(writer.into_vec().is_empty());
}

#[test]
fn the_right_password_opens_the_query_loop() {
    let mut input = startup_frame(&[(b"user", b"alice")]);
    input.extend_from_slice(&password_frame(b"right"));
    input.extend_from_slice(&query_frame(b"SELECT 1"));
    input.extend_from_slice(&terminate_frame());
    let mut mgr = Manager::new(PasswordAuth::new(b"right".to_vec()), NoopQueryExec::new());
    let mut reader = Reader::new(input);
    let mut writer = Writer::new();
    let res = mgr.handle(&mut reader, &mut writer);
    assert!(res.is_ok());
    assert_eq!(mgr.phase, Phase::Done);
    let mut r = Reader::new(writer.into_vec());
    AuthenticationCleartextPassword::decode(&mut r).expect("the cleartext-password request");
    expect_auth_ok_ready(&mut r);
    let complete = CommandComplete::decode(&mut r).expect("completion report");
    assert_eq!(complete.command_tag, b"SELECT 0".to_vec());
    ReadyForQuery::decode(&mut r).unwrap();
    assert_eq!(r.peek(), None);
}

#[test]
fn garbage_in_the_query_loop_is_fatal() {
    let mut input = startup_frame(&[(b"user", b"alice")]);
    input.extend_from_slice(&[b'?', 0, 0, 0, 4]);
    let (out, res, _mgr) = run_noop(input);
    assert_eq!(res.unwrap_err(), DecodeError::UnknownMessageType(b'?'));
    // The decode failure itself writes nothing.
    let mut r = Reader::new(out);
    expect_auth_ok_ready(&mut r);
    assert_eq!(r.peek(), None);
}
