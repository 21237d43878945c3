use postgres_conn::backend::auth::{Auth, AuthMethod, NoopAuth};
use postgres_conn::backend::manager::State;
use postgres_conn::proto::messages::frontend::PasswordMessage;
use postgres_conn::proto::{Decode, Reader};

#[test]
fn test_none_auth() {
    assert_eq!(NoopAuth::new().method(&State::default()), AuthMethod::NoAuth);
}

#[test]
fn noop_auth_rejects_cleartext_passwords() {
    // A password frame: length 4+6+1, "secret", NUL.
    let mut bytes = vec![0, 0, 0, 11];
    bytes.extend_from_slice(b"secret\0");
    let mut reader = Reader::new(bytes);
    let pw = PasswordMessage::decode(&mut reader).unwrap();

    let err = NoopAuth::new()
        .clear_text_password(&State::default(), pw)
        .unwrap_err();
    let msg = err
        .get_field(postgres_conn::proto::messages::backend::Field::Message)
        .unwrap();
    assert_eq!(msg.as_slice(), b"cleartext password not supported");
    let code = err
        .get_field(postgres_conn::proto::messages::backend::Field::Code)
        .unwrap();
    assert_eq!(code.as_slice(), b"XX000");
}
