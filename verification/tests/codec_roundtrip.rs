//! Round-trips and exact wire images for every message of the catalog.

use postgres_conn::proto::messages::backend::{
    AuthenticationCleartextPassword, AuthenticationOk, CommandComplete, CommandTag, ErrorResponse,
    Field, ReadyForQuery, SSLResponse, Severity, TransactionStatus,
};
use postgres_conn::proto::messages::frontend::{
    Handshake, IncomingMessage, Params, PasswordMessage, Query, SSLRequest, StartupMessage,
    Terminate, SSL_REQUEST_CODE,
};
use postgres_conn::proto::{Decode, DecodeError, Encode, Reader, Writer};

fn encode_to_vec<T: Encode>(m: &T) -> Vec<u8> {
    let mut w = Writer::new();
    m.encode(&mut w);
    w.into_vec()
}

#[test]
fn ssl_response_wire_image_and_roundtrip() {
    assert_eq!(encode_to_vec(&SSLResponse::NoSsl), vec![b'N']);
    assert_eq!(encode_to_vec(&SSLResponse::Ssl), vec![b'S']);
    let mut r = Reader::new(vec![b'N']);
    assert_eq!(SSLResponse::decode(&mut r).unwrap(), SSLResponse::NoSsl);
    let mut r = Reader::new(vec![b'x']);
    assert_eq!(
        SSLResponse::decode(&mut r).unwrap_err(),
        DecodeError::UnknownMessageType(b'x')
    );
}

#[test]
fn authentication_messages_wire_image() {
    assert_eq!(
        encode_to_vec(&AuthenticationOk {}),
        vec![b'R', 0, 0, 0, 8, 0, 0, 0, 0]
    );
    assert_eq!(
        encode_to_vec(&AuthenticationCleartextPassword {}),
        vec![b'R', 0, 0, 0, 8, 0, 0, 0, 3]
    );
    let mut r = Reader::new(encode_to_vec(&AuthenticationOk {}));
    assert!(AuthenticationOk::decode(&mut r).is_ok());
    let mut r = Reader::new(encode_to_vec(&AuthenticationCleartextPassword {}));
    assert!(AuthenticationCleartextPassword::decode(&mut r).is_ok());
    // An authentication frame with an unexpected method code is rejected.
    let mut r = Reader::new(vec![b'R', 0, 0, 0, 8, 0, 0, 0, 3]);
    assert_eq!(
        AuthenticationOk::decode(&mut r).unwrap_err(),
        DecodeError::UnknownAuthKind(3)
    );
}

#[test]
fn error_response_roundtrip_and_length() {
    let e = ErrorResponse::new(
        Severity::Error,
        b"28P01".to_vec(),
        b"password authentication failed".to_vec(),
    );
    let bytes = encode_to_vec(&e);
    // Tag, then the length of everything after the tag.
    assert_eq!(bytes[0], b'E');
    let len = i32::from_be_bytes([bytes[1], bytes[2], bytes[3], bytes[4]]);
    assert_eq!(len as usize, bytes.len() - 1);
    let mut r = Reader::new(bytes);
    let back = ErrorResponse::decode(&mut r).unwrap();
    assert_eq!(back.fields.len(), 3);
    assert_eq!(back.fields[0].0, Field::Severity);
    assert_eq!(back.fields[0].1, b"ERROR".to_vec());
    assert_eq!(back.fields[1].0, Field::Code);
    assert_eq!(back.fields[1].1, b"28P01".to_vec());
    assert_eq!(back.fields[2].0, Field::Message);
    assert_eq!(back.fields[2].1, b"password authentication failed".to_vec());
}

#[test]
fn error_response_unknown_field_tag_is_rejected() {
    // Tag 'E', some length, then a field tagged '!', which is no field.
    let bytes = vec![b'E', 0, 0, 0, 8, b'!', b'x', 0, 0];
    let mut r = Reader::new(bytes);
    assert_eq!(
        ErrorResponse::decode(&mut r).unwrap_err(),
        DecodeError::UnknownField(b'!')
    );
}

#[test]
fn ready_for_query_wire_image_and_roundtrip() {
    let m = ReadyForQuery::new(TransactionStatus::Idle);
    assert_eq!(encode_to_vec(&m), vec![b'Z', 0, 0, 0, 5, b'I']);
    for st in [
        TransactionStatus::Idle,
        TransactionStatus::InTransaction,
        TransactionStatus::Failed,
    ] {
        let m = ReadyForQuery::new(st);
        let mut r = Reader::new(encode_to_vec(&m));
        assert_eq!(ReadyForQuery::decode(&mut r).unwrap(), m);
    }
    let mut r = Reader::new(vec![b'Z', 0, 0, 0, 5, b'?']);
    assert_eq!(
        ReadyForQuery::decode(&mut r).unwrap_err(),
        DecodeError::UnknownTransactionStatus(b'?')
    );
}

#[test]
fn command_tags_render_to_the_exact_postgres_text() {
    assert_eq!(CommandTag::Select(0).render(), b"SELECT 0".to_vec());
    assert_eq!(CommandTag::Select(1234).render(), b"SELECT 1234".to_vec());
    assert_eq!(CommandTag::Insert(0, 1).render(), b"INSERT 0 1".to_vec());
    assert_eq!(CommandTag::Delete(7).render(), b"DELETE 7".to_vec());
    assert_eq!(CommandTag::Update(42).render(), b"UPDATE 42".to_vec());
    assert_eq!(CommandTag::Move(9).render(), b"MOVE 9".to_vec());
    assert_eq!(CommandTag::Fetch(10).render(), b"FETCH 10".to_vec());
    assert_eq!(CommandTag::Copy(0).render(), b"COPY 0".to_vec());
    assert_eq!(
        CommandTag::Select(u64::MAX).render(),
        format!("SELECT {}", u64::MAX).into_bytes()
    );
}

#[test]
fn command_complete_roundtrip_and_length() {
    let m = CommandComplete::new(CommandTag::Select(0).render());
    let bytes = encode_to_vec(&m);
    assert_eq!(bytes[0], b'C');
    let len = i32::from_be_bytes([bytes[1], bytes[2], bytes[3], bytes[4]]);
    assert_eq!(len as usize, bytes.len() - 1);
    let mut r = Reader::new(bytes);
    assert_eq!(
        CommandComplete::decode(&mut r).unwrap().command_tag,
        b"SELECT 0".to_vec()
    );
}

#[test]
fn ssl_request_roundtrip_and_magic_validation() {
    let m = SSLRequest {
        code: SSL_REQUEST_CODE,
    };
    let bytes = encode_to_vec(&m);
    assert_eq!(bytes.len(), 8);
    let mut r = Reader::new(bytes);
    assert_eq!(SSLRequest::decode(&mut r).unwrap().code, SSL_REQUEST_CODE);
    // A frame with any other code is not an SSL probe.
    let bad = SSLRequest { code: 7 };
    let mut r = Reader::new(encode_to_vec(&bad));
    assert_eq!(
        SSLRequest::decode(&mut r).unwrap_err(),
        DecodeError::InvalidSslCode
    );
}

fn params_of(pairs: &[(&[u8], &[u8])]) -> Params {
    Params(
        pairs
            .iter()
            .map(|(k, v)| (k.to_vec(), v.to_vec()))
            .collect(),
    )
}

#[test]
fn startup_message_roundtrip_and_inclusive_length() {
    let m = StartupMessage {
        version: 196608,
        params: params_of(&[(b"user", b"alice"), (b"application_name", b"psql")]),
    };
    let bytes = encode_to_vec(&m);
    // The startup length is inclusive of the length field itself.
    let len = i32::from_be_bytes([bytes[0], bytes[1], bytes[2], bytes[3]]);
    assert_eq!(len as usize, bytes.len());
    let mut r = Reader::new(bytes);
    let back = StartupMessage::decode(&mut r).unwrap();
    assert_eq!(back.version, 196608);
    let pairs = back.params.into_iter();
    assert_eq!(pairs.len(), 2);
    assert_eq!(pairs[0], (b"user".to_vec(), b"alice".to_vec()));
    assert_eq!(pairs[1], (b"application_name".to_vec(), b"psql".to_vec()));
}

#[test]
fn handshake_disambiguates_on_the_version_field() {
    let probe = Handshake::SSLRequest(SSLRequest {
        code: SSL_REQUEST_CODE,
    });
    let mut r = Reader::new(encode_to_vec(&probe));
    assert!(matches!(
        Handshake::decode(&mut r).unwrap(),
        Handshake::SSLRequest(_)
    ));

    let startup = Handshake::StartupMessage(StartupMessage {
        version: 196608,
        params: params_of(&[(b"user", b"bob")]),
    });
    let mut r = Reader::new(encode_to_vec(&startup));
    match Handshake::decode(&mut r).unwrap() {
        Handshake::StartupMessage(m) => {
            assert_eq!(m.version, 196608);
            assert_eq!(m.params.into_iter(), vec![(b"user".to_vec(), b"bob".to_vec())]);
        }
        Handshake::SSLRequest(_) => panic!("read a probe out of a startup frame"),
    }
}

#[test]
fn params_without_terminator_fail_instead_of_looping() {
    // "user\0alice\0" and then nothing: the closing NUL never comes.
    let m = StartupMessage {
        version: 196608,
        params: params_of(&[(b"user", b"alice")]),
    };
    let mut bytes = encode_to_vec(&m);
    bytes.pop();
    let mut r = Reader::new(bytes);
    assert_eq!(
        StartupMessage::decode(&mut r).unwrap_err(),
        DecodeError::UnexpectedEof
    );
}

#[test]
fn an_empty_parameter_list_is_rejected() {
    // The decoder demands one key/value pair before the closing NUL.
    let mut r = Reader::new(vec![0]);
    assert_eq!(Params::decode(&mut r).unwrap_err(), DecodeError::UnexpectedEof);
}

#[test]
fn an_interior_nul_cannot_ride_the_wire() {
    // A NUL inside the text acts as the terminator: such a value has no
    // faithful encoding, and decoding stops at the first NUL.
    let q = Query {
        query: b"a\0b".to_vec(),
    };
    let mut r = Reader::new(encode_to_vec(&q));
    assert_eq!(Query::decode(&mut r).unwrap().query, b"a".to_vec());
}

#[test]
fn strings_must_be_utf8() {
    // A query whose text holds an invalid UTF-8 byte.
    let mut bytes = vec![0, 0, 0, 7];
    bytes.extend_from_slice(&[b'a', 0xff, 0]);
    let mut r = Reader::new(bytes);
    assert_eq!(Query::decode(&mut r).unwrap_err(), DecodeError::InvalidUtf8);
}

#[test]
fn query_and_terminate_roundtrip_under_their_tags() {
    let q = IncomingMessage::Query(Query {
        query: b"SELECT 1".to_vec(),
    });
    let bytes = encode_to_vec(&q);
    assert_eq!(bytes[0], b'Q');
    let len = i32::from_be_bytes([bytes[1], bytes[2], bytes[3], bytes[4]]);
    assert_eq!(len as usize, bytes.len() - 1);
    let mut r = Reader::new(bytes);
    match IncomingMessage::decode(&mut r).unwrap() {
        IncomingMessage::Query(back) => assert_eq!(back.query, b"SELECT 1".to_vec()),
        IncomingMessage::Terminate(_) => panic!("read a terminate out of a query frame"),
    }

    let t = IncomingMessage::Terminate(Terminate {});
    let bytes = encode_to_vec(&t);
    assert_eq!(bytes, vec![b'X', 0, 0, 0, 4]);
    let mut r = Reader::new(bytes);
    assert!(matches!(
        IncomingMessage::decode(&mut r).unwrap(),
        IncomingMessage::Terminate(_)
    ));

    let mut r = Reader::new(vec![b'?', 0, 0, 0, 4]);
    assert_eq!(
        IncomingMessage::decode(&mut r).unwrap_err(),
        DecodeError::UnknownMessageType(b'?')
    );
}

#[test]
fn password_roundtrip_keeps_the_bytes_secret_side() {
    let mut bytes = vec![0, 0, 0, 12];
    bytes.extend_from_slice(b"hunter2\0");
    let mut r = Reader::new(bytes.clone());
    let pw = PasswordMessage::decode(&mut r).unwrap();
    // Re-encoding writes the same frame back.
    assert_eq!(encode_to_vec(&pw), bytes);
}

#[test]
fn writer_and_reader_agree_on_big_endian_integers() {
    for v in [0i32, 1, -1, 80877103, i32::MAX, i32::MIN, 196608] {
        let mut w = Writer::new();
        w.write_i32(v);
        let bytes = w.into_vec();
        assert_eq!(bytes, v.to_be_bytes().to_vec());
        let mut r = Reader::new(bytes);
        assert_eq!(r.read_i32().unwrap(), v);
    }
}

#[test]
fn reader_peek_does_not_consume() {
    let mut r = Reader::new(vec![7, 8]);
    assert_eq!(r.peek(), Some(7));
    assert_eq!(r.peek(), Some(7));
    assert_eq!(r.read_byte().unwrap(), 7);
    assert_eq!(r.peek(), Some(8));
    assert_eq!(r.read_byte().unwrap(), 8);
    assert_eq!(r.peek(), None);
    assert_eq!(r.read_byte().unwrap_err(), DecodeError::UnexpectedEof);
}
