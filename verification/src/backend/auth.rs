//! The authentication capability.  The core does not store credentials or
//! hash passwords: it asks an `Auth` implementation which method a
//! connection must use and hands it the password for validation.

use vstd::prelude::*;

use crate::backend::manager::{State, StateModel};
use crate::proto::messages::backend::{fields_len, ErrorResponse, Field, Severity};
use crate::proto::messages::frontend::PasswordMessage;

verus! {

/// The method an authenticator selects for a connection.
#[derive(Debug, PartialEq, Eq, Structural)]
pub enum AuthMethod {
    CleartextPassword,
    NoAuth,
}

/// The outcome of credential validation: success, or the error report to
/// base the client-visible failure on.
pub type AuthResult = Result<(), ErrorResponse>;

/// Decides which authentication method a connection must use and validates
/// credentials.  Both decisions are functions of their arguments alone —
/// an implementation must be deterministic per call — which the two spec
/// functions pin down; an implementation also keeps its diagnostics well
/// under a frame's maximum length, so any response the manager wraps them
/// in still fits.
pub trait Auth {
    /// The method decision, as a function of the session state.
    spec fn spec_method(&self, state: StateModel) -> AuthMethod;

    /// The validation decision, as a function of the session state and the
    /// password bytes.
    spec fn spec_password(&self, state: StateModel, password: Seq<u8>) -> Result<
        (),
        Seq<(Field, Seq<u8>)>,
    >;

    fn method(&self, state: &State) -> (r: AuthMethod)
        ensures
            r == self.spec_method(state@),
    ;

    fn clear_text_password(&self, state: &State, password: PasswordMessage) -> (r: AuthResult)
        ensures
            (match r {
                Ok(u) => self.spec_password(state@, password@) == Ok::<(), Seq<(Field, Seq<u8>)>>(
                    (),
                ),
                Err(e) => self.spec_password(state@, password@) == Err::<(), Seq<(Field, Seq<u8>)>>(
                    e@,
                ) && fields_len(e@) <= 0x3fff_ffff,
            }),
    ;
}

/// The text of the report a `NoopAuth` validator returns: it selects no
/// password method, so a password handed to it anyway is unsupported.
pub open spec fn spec_not_supported_report() -> Seq<(Field, Seq<u8>)> {
    seq![
        (Field::Severity, Severity::Error.spec_render()),
        (Field::Code, seq![88u8, 88u8, 48u8, 48u8, 48u8]),
        (
            Field::Message,
            seq![
                99u8, 108u8, 101u8, 97u8, 114u8, 116u8, 101u8, 120u8, 116u8, 32u8, 112u8, 97u8,
                115u8, 115u8, 119u8, 111u8, 114u8, 100u8, 32u8, 110u8, 111u8, 116u8, 32u8, 115u8,
                117u8, 112u8, 112u8, 111u8, 114u8, 116u8, 101u8, 100u8,
            ],
        ),
    ]
}

/// An authenticator that lets every connection in without credentials.
pub struct NoopAuth {}

impl NoopAuth {
    pub fn new() -> (r: NoopAuth) {
        NoopAuth {}
    }
}

impl Auth for NoopAuth {
    open spec fn spec_method(&self, state: StateModel) -> AuthMethod {
        AuthMethod::NoAuth
    }

    open spec fn spec_password(&self, state: StateModel, password: Seq<u8>) -> Result<
        (),
        Seq<(Field, Seq<u8>)>,
    > {
        Err(spec_not_supported_report())
    }

    fn method(&self, state: &State) -> (r: AuthMethod) {
        AuthMethod::NoAuth
    }

    fn clear_text_password(&self, state: &State, password: PasswordMessage) -> (r: AuthResult) {
        // "XX000" / "cleartext password not supported"
        let code: Vec<u8> = vec![88u8, 88u8, 48u8, 48u8, 48u8];
        let message: Vec<u8> = vec![
            99u8, 108u8, 101u8, 97u8, 114u8, 116u8, 101u8, 120u8, 116u8, 32u8, 112u8, 97u8, 115u8,
            115u8, 119u8, 111u8, 114u8, 100u8, 32u8, 110u8, 111u8, 116u8, 32u8, 115u8, 117u8,
            112u8, 112u8, 111u8, 114u8, 116u8, 101u8, 100u8,
        ];
        let e = ErrorResponse::new(Severity::Error, code, message);
        proof {
            assert(e@ =~= spec_not_supported_report());
            crate::proto::messages::backend::lemma_fields_len3(e@);
        }
        Err(e)
    }
}

/// The report a `PasswordAuth` validator returns for a wrong password:
/// SQLSTATE `28P01`, "password authentication failed".
pub open spec fn spec_rejected_report() -> Seq<(Field, Seq<u8>)> {
    seq![
        (Field::Severity, Severity::Error.spec_render()),
        (Field::Code, seq![50u8, 56u8, 80u8, 48u8, 49u8]),
        (
            Field::Message,
            seq![
                112u8, 97u8, 115u8, 115u8, 119u8, 111u8, 114u8, 100u8, 32u8, 97u8, 117u8, 116u8,
                104u8, 101u8, 110u8, 116u8, 105u8, 99u8, 97u8, 116u8, 105u8, 111u8, 110u8, 32u8,
                102u8, 97u8, 105u8, 108u8, 101u8, 100u8,
            ],
        ),
    ]
}

/// An authenticator that demands a cleartext password and accepts exactly
/// one: the credential it was built with.
pub struct PasswordAuth {
    pub password: Vec<u8>,
}

impl PasswordAuth {
    pub fn new(password: Vec<u8>) -> (r: PasswordAuth)
        ensures
            r.password == password,
    {
        PasswordAuth { password }
    }
}

impl Auth for PasswordAuth {
    open spec fn spec_method(&self, state: StateModel) -> AuthMethod {
        AuthMethod::CleartextPassword
    }

    open spec fn spec_password(&self, state: StateModel, password: Seq<u8>) -> Result<
        (),
        Seq<(Field, Seq<u8>)>,
    > {
        if password == self.password@ {
            Ok(())
        } else {
            Err(spec_rejected_report())
        }
    }

    fn method(&self, state: &State) -> (r: AuthMethod) {
        AuthMethod::CleartextPassword
    }

    fn clear_text_password(&self, state: &State, password: PasswordMessage) -> (r: AuthResult) {
        let handed = crate::secret::secstr_unsecure(&password.password);
        if crate::wire::bytes_eq(handed, self.password.as_slice()) {
            Ok(())
        } else {
            // "28P01" / "password authentication failed"
            let code: Vec<u8> = vec![50u8, 56u8, 80u8, 48u8, 49u8];
            let message: Vec<u8> = vec![
                112u8, 97u8, 115u8, 115u8, 119u8, 111u8, 114u8, 100u8, 32u8, 97u8, 117u8, 116u8,
                104u8, 101u8, 110u8, 116u8, 105u8, 99u8, 97u8, 116u8, 105u8, 111u8, 110u8, 32u8,
                102u8, 97u8, 105u8, 108u8, 101u8, 100u8,
            ];
            let e = ErrorResponse::new(Severity::Error, code, message);
            proof {
                assert(e@ =~= spec_rejected_report());
                crate::proto::messages::backend::lemma_fields_len3(e@);
            }
            Err(e)
        }
    }
}

} // verus!
