//! The connection manager: the ordered phase sequence every connection
//! passes through — startup (with the optional SSL probe, always declined),
//! authentication, the steady-state query loop, termination — driven one
//! client frame at a time.  `spec_step` is the transition function of the
//! state machine; `step` is its executable twin; `handle` folds `step` over
//! a whole byte stream.

use vstd::prelude::*;

use crate::backend::auth::{Auth, AuthMethod};
use crate::backend::query_exec::QueryExec;
use crate::proto::messages::backend::{
    fields_payload, frame, lemma_fields_len, lemma_fields_len3, spec_get_field,
    AuthenticationCleartextPassword, AuthenticationOk, ErrorResponse, Field, ReadyForQuery,
    SSLResponse, Severity, TransactionStatus,
};
use crate::proto::messages::frontend::{
    lemma_dec_handshake_bounds, lemma_dec_incoming_bounds, lemma_dec_password_bounds,
    lemma_dec_startup_bounds, Handshake, HandshakeModel, IncomingMessage, IncomingModel,
    PasswordMessage, StartupMessage,
};
use crate::proto::{Decode, DecodeError, Encode, Reader, Writer};
use crate::wire::bytes_eq;

verus! {

broadcast use vstd::seq::group_seq_axioms, vstd::seq_lib::lemma_seq_skip_of_skip;

/// The replication mode a client may request at startup.
#[derive(Clone, Copy, Debug, PartialEq, Eq, Structural)]
pub enum Replication {
    Enabled,
    Disabled,
    Database,
}

/// The view of the session state.
pub struct StateModel {
    pub user: Seq<u8>,
    pub database: Seq<u8>,
    pub replication: Replication,
    pub extra_params: Seq<(Seq<u8>, Seq<u8>)>,
}

/// The mutable session record assembled during startup: the user and
/// database names, the replication mode, and every startup parameter the
/// manager does not recognize.  Owned exclusively by one connection's
/// manager; never shared.
#[derive(Debug)]
pub struct State {
    pub user: Vec<u8>,
    pub database: Vec<u8>,
    pub replication: Replication,
    pub extra_params: Vec<(Vec<u8>, Vec<u8>)>,
}

impl View for State {
    type V = StateModel;

    open spec fn view(&self) -> StateModel {
        StateModel {
            user: self.user@,
            database: self.database@,
            replication: self.replication,
            extra_params: crate::proto::messages::frontend::params_model(self.extra_params@),
        }
    }
}

impl Default for State {
    /// The empty record a connection starts with.
    fn default() -> (r: State)
        ensures
            r@.user == Seq::<u8>::empty(),
            r@.database == Seq::<u8>::empty(),
            r@.replication == Replication::Disabled,
            r@.extra_params == Seq::<(Seq<u8>, Seq<u8>)>::empty(),
            r.wf(),
    {
        let r = State {
            user: Vec::new(),
            database: Vec::new(),
            replication: Replication::Disabled,
            extra_params: Vec::new(),
        };
        proof {
            assert(r@.extra_params =~= Seq::<(Seq<u8>, Seq<u8>)>::empty());
        }
        r
    }
}

/// Index of the first pair of `m` keyed by `k`, or `m.len()` if there is
/// none.
pub open spec fn find_key(m: Seq<(Seq<u8>, Seq<u8>)>, k: Seq<u8>) -> int
    decreases m.len(),
{
    if m.len() == 0 {
        0
    } else if m[0].0 == k {
        0
    } else {
        1 + find_key(m.skip(1), k)
    }
}

/// A scan that saw no match before `i`, and one at `i` unless the mapping
/// ends there, has found the first match.
pub proof fn lemma_find_key_is(m: Seq<(Seq<u8>, Seq<u8>)>, k: Seq<u8>, i: int)
    requires
        0 <= i <= m.len(),
        forall|j: int| 0 <= j < i ==> m[j].0 != k,
        i < m.len() ==> m[i].0 == k,
    ensures
        find_key(m, k) == i,
    decreases m.len(),
{
    if m.len() == 0 || i == 0 {
    } else {
        assert forall|j: int| 0 <= j < i - 1 implies m.skip(1)[j].0 != k by {
            assert(m.skip(1)[j] == m[j + 1]);
        }
        lemma_find_key_is(m.skip(1), k, i - 1);
    }
}

/// Mapping update with the overwrite semantics of a keyed map kept in
/// insertion order: an existing key gets the new value in place, a new key
/// goes to the end.
pub open spec fn extra_insert(m: Seq<(Seq<u8>, Seq<u8>)>, k: Seq<u8>, v: Seq<u8>) -> Seq<
    (Seq<u8>, Seq<u8>),
> {
    let i = find_key(m, k);
    if i == m.len() {
        m.push((k, v))
    } else {
        m.update(i, (k, v))
    }
}

impl State {
    /// Keys of the unrecognized parameters are unique: the record behaves
    /// as a mapping, in insertion order.
    pub open spec fn wf(&self) -> bool {
        forall|i: int, j: int|
            0 <= i < j < self@.extra_params.len() ==> self@.extra_params[i].0
                != self@.extra_params[j].0
    }

    /// Records an unrecognized startup parameter, overwriting the value of
    /// a key seen before.
    fn insert_extra(&mut self, key: Vec<u8>, value: Vec<u8>)
        requires
            old(self).wf(),
        ensures
            final(self).wf(),
            final(self)@ == (StateModel {
                extra_params: extra_insert(old(self)@.extra_params, key@, value@),
                ..old(self)@
            }),
    {
        let ghost m0 = self@.extra_params;
        let n: usize = self.extra_params.len();
        let mut i: usize = 0;
        loop
            invariant
                0 <= i <= n,
                n == self.extra_params@.len(),
                self == old(self),
                m0 == self@.extra_params,
                m0.len() == n,
                forall|a: int, b: int| 0 <= a < b < m0.len() ==> m0[a].0 != m0[b].0,
                forall|j: int| 0 <= j < i ==> self@.extra_params[j].0 != key@,
            decreases n - i,
        {
            if i == n {
                proof {
                    lemma_find_key_is(m0, key@, n as int);
                }
                self.extra_params.push((key, value));
                proof {
                    assert(self@.extra_params =~= m0.push((key@, value@)));
                    assert(self@ == (StateModel {
                        extra_params: extra_insert(old(self)@.extra_params, key@, value@),
                        ..old(self)@
                    }));
                    assert forall|a: int, b: int|
                        0 <= a < b < self@.extra_params.len() implies self@.extra_params[a].0
                        != self@.extra_params[b].0 by {
                        if b < n {
                            assert(m0[a].0 != m0[b].0);
                        } else {
                            assert(self@.extra_params[b].0 == key@);
                            assert(m0[a].0 != key@);
                        }
                    }
                }
                return ;
            }
            let hit = bytes_eq(self.extra_params[i].0.as_slice(), key.as_slice());
            if hit {
                proof {
                    lemma_find_key_is(m0, key@, i as int);
                    assert(m0[i as int].0 == key@);
                }
                self.extra_params.set(i, (key, value));
                proof {
                    assert(self@.extra_params =~= m0.update(i as int, (key@, value@)));
                    assert(self@ == (StateModel {
                        extra_params: extra_insert(old(self)@.extra_params, key@, value@),
                        ..old(self)@
                    }));
                    assert forall|a: int, b: int|
                        0 <= a < b < self@.extra_params.len() implies self@.extra_params[a].0
                        != self@.extra_params[b].0 by {
                        if a == i {
                            assert(self@.extra_params[a].0 == m0[a].0);
                            assert(m0[a].0 != m0[b].0);
                        } else if b == i {
                            assert(self@.extra_params[b].0 == m0[b].0);
                            assert(m0[a].0 != m0[b].0);
                        } else {
                            assert(m0[a].0 != m0[b].0);
                        }
                    }
                }
                return ;
            }
            i = i + 1;
        }
    }
}

// ---------------------------------------------------------------------------
// Startup parameter interpretation, at the specification level.
// ---------------------------------------------------------------------------

pub open spec fn key_user() -> Seq<u8> {
    seq![117u8, 115u8, 101u8, 114u8]
}

pub open spec fn key_database() -> Seq<u8> {
    seq![100u8, 97u8, 116u8, 97u8, 98u8, 97u8, 115u8, 101u8]
}

pub open spec fn key_replication() -> Seq<u8> {
    seq![114u8, 101u8, 112u8, 108u8, 105u8, 99u8, 97u8, 116u8, 105u8, 111u8, 110u8]
}

pub open spec fn val_database() -> Seq<u8> {
    seq![100u8, 97u8, 116u8, 97u8, 98u8, 97u8, 115u8, 101u8]
}

pub open spec fn val_disabled() -> Seq<u8> {
    seq![100u8, 105u8, 115u8, 97u8, 98u8, 108u8, 101u8, 100u8]
}

pub open spec fn val_enabled() -> Seq<u8> {
    seq![101u8, 110u8, 97u8, 98u8, 108u8, 101u8, 100u8]
}

fn key_user_vec() -> (v: Vec<u8>)
    ensures
        v@ == key_user(),
{
    let v: Vec<u8> = vec![117u8, 115u8, 101u8, 114u8];
    proof {
        assert(v@ =~= key_user());
    }
    v
}

fn key_database_vec() -> (v: Vec<u8>)
    ensures
        v@ == key_database(),
{
    let v: Vec<u8> = vec![100u8, 97u8, 116u8, 97u8, 98u8, 97u8, 115u8, 101u8];
    proof {
        assert(v@ =~= key_database());
    }
    v
}

fn key_replication_vec() -> (v: Vec<u8>)
    ensures
        v@ == key_replication(),
{
    let v: Vec<u8> = vec![114u8, 101u8, 112u8, 108u8, 105u8, 99u8, 97u8, 116u8, 105u8, 111u8, 110u8];
    proof {
        assert(v@ =~= key_replication());
    }
    v
}

fn val_database_vec() -> (v: Vec<u8>)
    ensures
        v@ == val_database(),
{
    let v: Vec<u8> = vec![100u8, 97u8, 116u8, 97u8, 98u8, 97u8, 115u8, 101u8];
    proof {
        assert(v@ =~= val_database());
    }
    v
}

fn val_disabled_vec() -> (v: Vec<u8>)
    ensures
        v@ == val_disabled(),
{
    let v: Vec<u8> = vec![100u8, 105u8, 115u8, 97u8, 98u8, 108u8, 101u8, 100u8];
    proof {
        assert(v@ =~= val_disabled());
    }
    v
}

fn val_enabled_vec() -> (v: Vec<u8>)
    ensures
        v@ == val_enabled(),
{
    let v: Vec<u8> = vec![101u8, 110u8, 97u8, 98u8, 108u8, 101u8, 100u8];
    proof {
        assert(v@ =~= val_enabled());
    }
    v
}

/// Folds a startup parameter list into the session state, in wire order,
/// later occurrences of a key overwriting earlier ones.  `user`,
/// `database` and `replication` go to their dedicated fields; an
/// unrecognized replication value is a protocol violation; every other key
/// is recorded verbatim.
pub open spec fn apply_params(st: StateModel, ps: Seq<(Seq<u8>, Seq<u8>)>) -> Result<
    StateModel,
    DecodeError,
>
    decreases ps.len(),
{
    if ps.len() == 0 {
        Ok(st)
    } else {
        let name = ps[0].0;
        let value = ps[0].1;
        if name == key_user() {
            apply_params(StateModel { user: value, ..st }, ps.skip(1))
        } else if name == key_database() {
            apply_params(StateModel { database: value, ..st }, ps.skip(1))
        } else if name == key_replication() {
            if value == val_database() {
                apply_params(StateModel { replication: Replication::Database, ..st }, ps.skip(1))
            } else if value == val_disabled() {
                apply_params(StateModel { replication: Replication::Disabled, ..st }, ps.skip(1))
            } else if value == val_enabled() {
                apply_params(StateModel { replication: Replication::Enabled, ..st }, ps.skip(1))
            } else {
                Err(DecodeError::InvalidReplication)
            }
        } else {
            apply_params(
                StateModel { extra_params: extra_insert(st.extra_params, name, value), ..st },
                ps.skip(1),
            )
        }
    }
}

/// After the parameters are in: a connection that named no database gets
/// the user's name as its database.
pub open spec fn default_database(st: StateModel) -> StateModel {
    if st.database.len() == 0 {
        StateModel { database: st.user, ..st }
    } else {
        st
    }
}

// ---------------------------------------------------------------------------
// The state machine.
// ---------------------------------------------------------------------------

/// Where a session stands.  The only backward transition is the startup
/// retry: a startup message that named no user is answered with an error
/// and the machine waits for a fresh handshake on the same stream.
#[derive(Clone, Copy, Debug, PartialEq, Eq, Structural)]
pub enum Phase {
    /// Expecting a handshake frame: an SSL probe or a startup message.
    Startup,
    /// The SSL probe was declined; expecting the real startup message.
    SslDeclined,
    /// Cleartext authentication was requested; expecting the password.
    AwaitPassword,
    /// Authentication is done; expecting queries or termination.
    Ready,
    /// The session ended; nothing more is read or written.
    Done,
}

/// The view of a manager: everything its transitions depend on besides the
/// two capabilities.
pub struct ManagerModel {
    pub phase: Phase,
    pub state: StateModel,
    pub postgres_version: i32,
}

/// Orchestrates the phase sequence over one connection's byte stream,
/// consulting the authenticator and the query executor.
pub struct Manager<A: Auth, Q: QueryExec> {
    pub state: State,
    pub auth: A,
    pub query_exec: Q,
    pub postgres_version: i32,
    pub phase: Phase,
}

/// The wire image of an error report with the given fields.
pub open spec fn out_error(fs: Seq<(Field, Seq<u8>)>) -> Seq<u8> {
    frame(69u8, fields_payload(fs) + seq![0u8])
}

/// The wire image of a completion report with the given tag text.
pub open spec fn out_complete(tag: Seq<u8>) -> Seq<u8> {
    frame(67u8, tag + seq![0u8])
}

/// The fields of the startup-retry report: code `P0001`, "the 'user'
/// option is mandatory".
pub open spec fn user_mandatory_report() -> Seq<(Field, Seq<u8>)> {
    seq![
        (Field::Severity, Severity::Error.spec_render()),
        (Field::Code, seq![80u8, 48u8, 48u8, 48u8, 49u8]),
        (
            Field::Message,
            seq![
                116u8, 104u8, 101u8, 32u8, 39u8, 117u8, 115u8, 101u8, 114u8, 39u8, 32u8, 111u8,
                112u8, 116u8, 105u8, 111u8, 110u8, 32u8, 105u8, 115u8, 32u8, 109u8, 97u8, 110u8,
                100u8, 97u8, 116u8, 111u8, 114u8, 121u8,
            ],
        ),
    ]
}

/// The fields of the authentication-failure report: SQLSTATE `28P01`, the
/// message taken from the validator's own report (or empty if it had
/// none).
pub open spec fn auth_failed_report(fs: Seq<(Field, Seq<u8>)>) -> Seq<(Field, Seq<u8>)> {
    seq![
        (Field::Severity, Severity::Error.spec_render()),
        (Field::Code, seq![50u8, 56u8, 80u8, 48u8, 49u8]),
        (
            Field::Message,
            match spec_get_field(fs, Field::Message) {
                Some(v) => v,
                None => Seq::<u8>::empty(),
            },
        ),
    ]
}

impl<A: Auth, Q: QueryExec> Manager<A, Q> {
    pub open spec fn model(&self) -> ManagerModel {
        ManagerModel { phase: self.phase, state: self.state@, postgres_version: self.postgres_version }
    }

    pub open spec fn wf(&self) -> bool {
        self.state.wf()
    }

    /// What a startup message does once decoded: the parameters are folded
    /// into the state and the version is recorded.
    pub open spec fn spec_apply_startup(
        m: ManagerModel,
        version: i32,
        ps: Seq<(Seq<u8>, Seq<u8>)>,
    ) -> Result<ManagerModel, DecodeError> {
        match apply_params(m.state, ps) {
            Err(e) => Err(e),
            Ok(st) => Ok(
                ManagerModel {
                    state: default_database(st),
                    postgres_version: version,
                    phase: m.phase,
                },
            ),
        }
    }

    /// What follows a completed startup: the retry error if no user was
    /// named, else the authenticator's chosen method — immediate success
    /// where no credential is required, a cleartext-password request
    /// otherwise.
    pub open spec fn spec_after_startup(a: A, m: ManagerModel) -> (Seq<u8>, ManagerModel) {
        if m.state.user.len() == 0 {
            (out_error(user_mandatory_report()), ManagerModel { phase: Phase::Startup, ..m })
        } else {
            match a.spec_method(m.state) {
                AuthMethod::NoAuth => (
                    (AuthenticationOk {}).enc() + (ReadyForQuery {
                        transaction_status: TransactionStatus::Idle,
                    }).enc(),
                    ManagerModel { phase: Phase::Ready, ..m },
                ),
                AuthMethod::CleartextPassword => (
                    (AuthenticationCleartextPassword {}).enc(),
                    ManagerModel { phase: Phase::AwaitPassword, ..m },
                ),
            }
        }
    }

    /// One transition of the state machine: what the next client frame at
    /// the head of `input` makes the manager write, the state it leaves,
    /// the bytes it consumes, and whether the session is over.
    pub open spec fn spec_step(a: A, q: Q, m: ManagerModel, input: Seq<u8>) -> Result<
        (Seq<u8>, ManagerModel, int, bool),
        DecodeError,
    > {
        match m.phase {
            Phase::Done => Ok((Seq::<u8>::empty(), m, 0, true)),
            Phase::Startup => match Handshake::dec(input) {
                Err(e) => Err(e),
                Ok((h, n)) => match h {
                    HandshakeModel::SslRequest(_code) => Ok(
                        (
                            SSLResponse::NoSsl.enc(),
                            ManagerModel { phase: Phase::SslDeclined, ..m },
                            n,
                            false,
                        ),
                    ),
                    HandshakeModel::Startup(version, ps) => match Self::spec_apply_startup(
                        m,
                        version,
                        ps,
                    ) {
                        Err(e) => Err(e),
                        Ok(m2) => {
                            let (out, m3) = Self::spec_after_startup(a, m2);
                            Ok((out, m3, n, false))
                        },
                    },
                },
            },
            Phase::SslDeclined => match StartupMessage::dec(input) {
                Err(e) => Err(e),
                Ok(((version, ps), n)) => match Self::spec_apply_startup(m, version, ps) {
                    Err(e) => Err(e),
                    Ok(m2) => {
                        let (out, m3) = Self::spec_after_startup(a, m2);
                        Ok((out, m3, n, false))
                    },
                },
            },
            Phase::AwaitPassword => match PasswordMessage::dec(input) {
                Err(e) => Err(e),
                Ok((pw, n)) => match a.spec_password(m.state, pw) {
                    Ok(u) => Ok(
                        (
                            (AuthenticationOk {}).enc() + (ReadyForQuery {
                                transaction_status: TransactionStatus::Idle,
                            }).enc(),
                            ManagerModel { phase: Phase::Ready, ..m },
                            n,
                            false,
                        ),
                    ),
                    Err(fs) => Ok(
                        (
                            out_error(auth_failed_report(fs)),
                            ManagerModel { phase: Phase::Done, ..m },
                            n,
                            true,
                        ),
                    ),
                },
            },
            Phase::Ready => match IncomingMessage::dec(input) {
                Err(e) => Err(e),
                Ok((msg, n)) => match msg {
                    IncomingModel::Query(text) => Ok(
                        (
                            (match q.spec_execute(text) {
                                Ok(tag) => out_complete(tag),
                                Err(fs) => out_error(fs),
                            }) + (ReadyForQuery {
                                transaction_status: TransactionStatus::Idle,
                            }).enc(),
                            m,
                            n,
                            false,
                        ),
                    ),
                    IncomingModel::Terminate => Ok(
                        (Seq::<u8>::empty(), ManagerModel { phase: Phase::Done, ..m }, n, true),
                    ),
                },
            },
        }
    }

    /// A successful transition consumes between one byte and the whole
    /// buffer, and consumes at least one whenever the session goes on.
    pub proof fn lemma_step_bounds(a: A, q: Q, m: ManagerModel, input: Seq<u8>)
        ensures
            Self::spec_step(a, q, m, input) matches Ok(t) ==> 0 <= t.2 <= input.len() && (!t.3
                ==> 1 <= t.2),
    {
        lemma_dec_handshake_bounds(input);
        lemma_dec_startup_bounds(input);
        lemma_dec_password_bounds(input);
        lemma_dec_incoming_bounds(input);
    }

    /// The whole session from a given point: everything the manager writes
    /// while consuming `input` frame by frame, and the error that ends the
    /// connection, if one does.
    pub open spec fn spec_session(a: A, q: Q, m: ManagerModel, input: Seq<u8>) -> (
        Seq<u8>,
        Option<DecodeError>,
    )
        decreases input.len(),
        via Self::spec_session_decreases
    {
        match Self::spec_step(a, q, m, input) {
            Err(e) => (Seq::<u8>::empty(), Some(e)),
            Ok((out, m2, used, done)) => if done {
                (out, None)
            } else {
                let rest = Self::spec_session(a, q, m2, input.skip(used));
                (out + rest.0, rest.1)
            },
        }
    }

    #[via_fn]
    proof fn spec_session_decreases(a: A, q: Q, m: ManagerModel, input: Seq<u8>) {
        Self::lemma_step_bounds(a, q, m, input);
    }

    /// A manager for one freshly accepted connection, with the two
    /// capabilities it will consult.
    pub fn new(auth: A, query_exec: Q) -> (r: Manager<A, Q>)
        ensures
            r.auth == auth,
            r.query_exec == query_exec,
            r.wf(),
            r.model() == (ManagerModel {
                phase: Phase::Startup,
                postgres_version: 0,
                state: StateModel {
                    user: Seq::<u8>::empty(),
                    database: Seq::<u8>::empty(),
                    replication: Replication::Disabled,
                    extra_params: Seq::<(Seq<u8>, Seq<u8>)>::empty(),
                },
            }),
    {
        Manager {
            state: State::default(),
            auth,
            query_exec,
            postgres_version: 0,
            phase: Phase::Startup,
        }
    }

    /// Applies a decoded startup message: records the protocol version and
    /// folds its parameter list into the session state, defaulting the
    /// database to the user if none was named.  An unrecognized replication
    /// value fails the connection.
    pub fn handle_startup(&mut self, msg: StartupMessage) -> (res: Result<(), DecodeError>)
        requires
            old(self).wf(),
        ensures
            final(self).wf(),
            final(self).auth == old(self).auth,
            final(self).query_exec == old(self).query_exec,
            final(self).phase == old(self).phase,
            (match res {
                Ok(u) => Self::spec_apply_startup(old(self).model(), msg.version, msg.params@)
                    == Ok::<ManagerModel, DecodeError>(final(self).model()),
                Err(e) => Self::spec_apply_startup(old(self).model(), msg.version, msg.params@)
                    == Err::<ManagerModel, DecodeError>(e),
            }),
    {
        let ghost ps0 = msg.params@;
        self.postgres_version = msg.version;
        let mut pairs = msg.params.into_iter();
        proof {
            assert(crate::proto::messages::frontend::params_model(pairs@) == ps0);
        }
        let mut remaining = pairs.len();
        while remaining > 0
            invariant
                self.wf(),
                self.auth == old(self).auth,
                self.query_exec == old(self).query_exec,
                self.phase == old(self).phase,
                self.postgres_version == msg.version,
                ps0 == msg.params@,
                remaining == pairs@.len(),
                apply_params(old(self).model().state, ps0) == apply_params(
                    self.state@,
                    crate::proto::messages::frontend::params_model(pairs@),
                ),
            decreases pairs@.len(),
        {
            let ghost pv = pairs@;
            let ghost before = crate::proto::messages::frontend::params_model(pairs@);
            let (key, value) = pairs.remove(0);
            proof {
                assert(pairs@ =~= pv.skip(1));
                assert(crate::proto::messages::frontend::params_model(pairs@) =~= before.skip(1));
                assert(before[0] == (key@, value@));
            }
            if bytes_eq(key.as_slice(), key_user_vec().as_slice()) {
                self.state.user = value;
            } else if bytes_eq(key.as_slice(), key_database_vec().as_slice()) {
                self.state.database = value;
            } else if bytes_eq(key.as_slice(), key_replication_vec().as_slice()) {
                if bytes_eq(value.as_slice(), val_database_vec().as_slice()) {
                    self.state.replication = Replication::Database;
                } else if bytes_eq(value.as_slice(), val_disabled_vec().as_slice()) {
                    self.state.replication = Replication::Disabled;
                } else if bytes_eq(value.as_slice(), val_enabled_vec().as_slice()) {
                    self.state.replication = Replication::Enabled;
                } else {
                    return Err(DecodeError::InvalidReplication);
                }
            } else {
                self.state.insert_extra(key, value);
            }
            remaining = remaining - 1;
        }
        proof {
            assert(crate::proto::messages::frontend::params_model(pairs@)
                =~= Seq::<(Seq<u8>, Seq<u8>)>::empty());
        }
        if self.state.database.len() == 0 {
            let db = crate::wire::copy_bytes(self.state.user.as_slice());
            self.state.database = db;
        }
        Ok(())
    }

    /// What follows a completed startup: sends the retry error if no user
    /// was named, else runs the authenticator's method decision.
    fn after_startup(&mut self, writer: &mut Writer) -> (done: bool)
        requires
            old(self).wf(),
        ensures
            final(self).wf(),
            final(self).auth == old(self).auth,
            final(self).query_exec == old(self).query_exec,
            done == false,
            ({
                let t = Self::spec_after_startup(old(self).auth, old(self).model());
                final(writer)@ == old(writer)@ + t.0 && final(self).model() == t.1
            }),
    {
        if self.state.user.len() == 0 {
            // "P0001" / "the 'user' option is mandatory"
            let code: Vec<u8> = vec![80u8, 48u8, 48u8, 48u8, 49u8];
            let message: Vec<u8> = vec![
                116u8, 104u8, 101u8, 32u8, 39u8, 117u8, 115u8, 101u8, 114u8, 39u8, 32u8, 111u8,
                112u8, 116u8, 105u8, 111u8, 110u8, 32u8, 105u8, 115u8, 32u8, 109u8, 97u8, 110u8,
                100u8, 97u8, 116u8, 111u8, 114u8, 121u8,
            ];
            let e = ErrorResponse::new(Severity::Error, code, message);
            proof {
                assert(e@ =~= user_mandatory_report());
                lemma_fields_len3(e@);
            }
            e.encode(writer);
            self.phase = Phase::Startup;
            false
        } else {
            match self.auth.method(&self.state) {
                AuthMethod::NoAuth => {
                    (AuthenticationOk {  }).encode(writer);
                    (ReadyForQuery { transaction_status: TransactionStatus::Idle }).encode(writer);
                    self.phase = Phase::Ready;
                    false
                },
                AuthMethod::CleartextPassword => {
                    (AuthenticationCleartextPassword {  }).encode(writer);
                    self.phase = Phase::AwaitPassword;
                    false
                },
            }
        }
    }

    /// Runs the chosen authentication method in one exchange: for a
    /// cleartext password, sends the request, reads the reply, and hands
    /// the credential to the authenticator; with no method, succeeds
    /// without touching the stream.  The outer error is the stream failing;
    /// the inner result is the authenticator's verdict.
    pub fn handle_auth(
        &mut self,
        method: AuthMethod,
        reader: &mut Reader,
        writer: &mut Writer,
    ) -> (res: Result<crate::backend::auth::AuthResult, DecodeError>)
        requires
            old(self).wf(),
            old(reader).wf(),
        ensures
            *final(self) == *old(self),
            final(reader).wf(),
            final(reader).bytes() == old(reader).bytes(),
            old(reader).pos() <= final(reader).pos(),
            (match method {
                AuthMethod::NoAuth => final(writer)@ == old(writer)@ && final(reader).pos() == old(
                    reader,
                ).pos() && (res matches Ok(ar) && ar is Ok),
                AuthMethod::CleartextPassword => ({
                    &&& final(writer)@ == old(writer)@ + (AuthenticationCleartextPassword {}).enc()
                    &&& (match res {
                        Ok(ar) => ({
                            &&& PasswordMessage::dec(old(reader).remaining()) matches Ok(t)
                            &&& (match ar {
                                Ok(u) => old(self).auth.spec_password(
                                    old(self).state@,
                                    PasswordMessage::dec(old(reader).remaining())->Ok_0.0,
                                ) is Ok,
                                Err(e) => old(self).auth.spec_password(
                                    old(self).state@,
                                    PasswordMessage::dec(old(reader).remaining())->Ok_0.0,
                                ) == Err::<(), Seq<(Field, Seq<u8>)>>(e@),
                            })
                        }),
                        Err(e) => PasswordMessage::dec(old(reader).remaining()) == Err::<
                            (Seq<u8>, int),
                            DecodeError,
                        >(e),
                    })
                }),
            }),
    {
        match method {
            AuthMethod::CleartextPassword => {
                (AuthenticationCleartextPassword {  }).encode(writer);
                let pw = match PasswordMessage::decode(reader) {
                    Ok(pw) => pw,
                    Err(e) => {
                        return Err(e);
                    },
                };
                Ok(self.auth.clear_text_password(&self.state, pw))
            },
            AuthMethod::NoAuth => Ok(Ok(())),
        }
    }

    /// One transition of the state machine: reads the next client frame
    /// from `reader`, writes the response into `writer`, and says whether
    /// the session is over.  Its behaviour is exactly `spec_step` on the
    /// unconsumed bytes.
    pub fn step(&mut self, reader: &mut Reader, writer: &mut Writer) -> (res: Result<
        bool,
        DecodeError,
    >)
        requires
            old(self).wf(),
            old(reader).wf(),
        ensures
            final(self).wf(),
            final(reader).wf(),
            final(reader).bytes() == old(reader).bytes(),
            old(reader).pos() <= final(reader).pos(),
            final(self).auth == old(self).auth,
            final(self).query_exec == old(self).query_exec,
            (match res {
                Ok(done) => ({
                    let t = Self::spec_step(
                        old(self).auth,
                        old(self).query_exec,
                        old(self).model(),
                        old(reader).remaining(),
                    );
                    &&& t is Ok
                    &&& final(writer)@ == old(writer)@ + t->Ok_0.0
                    &&& final(self).model() == t->Ok_0.1
                    &&& final(reader).pos() == old(reader).pos() + t->Ok_0.2
                    &&& done == t->Ok_0.3
                }),
                Err(e) => ({
                    &&& Self::spec_step(
                        old(self).auth,
                        old(self).query_exec,
                        old(self).model(),
                        old(reader).remaining(),
                    ) == Err::<(Seq<u8>, ManagerModel, int, bool), DecodeError>(e)
                    &&& final(writer)@ == old(writer)@
                }),
            }),
    {
        match self.phase {
            Phase::Done => Ok(true),
            Phase::Startup => {
                let h = Handshake::decode(reader)?;
                match h {
                    Handshake::SSLRequest(_probe) => {
                        SSLResponse::NoSsl.encode(writer);
                        self.phase = Phase::SslDeclined;
                        Ok(false)
                    },
                    Handshake::StartupMessage(msg) => {
                        self.handle_startup(msg)?;
                        let done = self.after_startup(writer);
                        Ok(done)
                    },
                }
            },
            Phase::SslDeclined => {
                let msg = StartupMessage::decode(reader)?;
                self.handle_startup(msg)?;
                let done = self.after_startup(writer);
                Ok(done)
            },
            Phase::AwaitPassword => {
                let pw = PasswordMessage::decode(reader)?;
                match self.auth.clear_text_password(&self.state, pw) {
                    Ok(_) => {
                        (AuthenticationOk {  }).encode(writer);
                        (ReadyForQuery { transaction_status: TransactionStatus::Idle }).encode(
                            writer,
                        );
                        self.phase = Phase::Ready;
                        Ok(false)
                    },
                    Err(e) => {
                        let message: Vec<u8> = match e.get_field(Field::Message) {
                            Some(v) => crate::wire::copy_bytes(v.as_slice()),
                            None => Vec::new(),
                        };
                        let code: Vec<u8> = vec![50u8, 56u8, 80u8, 48u8, 49u8];
                        let er = ErrorResponse::new(Severity::Error, code, message);
                        proof {
                            assert(er@ =~= auth_failed_report(e@));
                            lemma_fields_len3(er@);
                            crate::proto::messages::backend::lemma_get_field_len(
                                e@,
                                Field::Message,
                            );
                            lemma_fields_len(e@);
                        }
                        er.encode(writer);
                        self.phase = Phase::Done;
                        Ok(true)
                    },
                }
            },
            Phase::Ready => {
                let msg = IncomingMessage::decode(reader)?;
                match msg {
                    IncomingMessage::Query(query) => {
                        match self.query_exec.execute(query.query.as_slice()) {
                            Ok(complete) => {
                                complete.encode(writer);
                            },
                            Err(e) => {
                                proof {
                                    lemma_fields_len(e@);
                                }
                                e.encode(writer);
                            },
                        }
                        (ReadyForQuery { transaction_status: TransactionStatus::Idle }).encode(
                            writer,
                        );
                        Ok(false)
                    },
                    IncomingMessage::Terminate(_t) => {
                        self.phase = Phase::Done;
                        Ok(true)
                    },
                }
            },
        }
    }

    /// Drives the whole session over an in-memory byte stream: `step` is
    /// repeated until the client terminates, authentication fails fatally,
    /// or the stream turns out malformed.  Everything written is exactly
    /// `spec_session` of the unconsumed input.
    #[verifier::rlimit(100)]
    pub fn handle(&mut self, reader: &mut Reader, writer: &mut Writer) -> (res: Result<
        (),
        DecodeError,
    >)
        requires
            old(self).wf(),
            old(reader).wf(),
        ensures
            final(self).wf(),
            final(reader).wf(),
            final(reader).bytes() == old(reader).bytes(),
            final(self).auth == old(self).auth,
            final(self).query_exec == old(self).query_exec,
            ({
                let t = Self::spec_session(
                    old(self).auth,
                    old(self).query_exec,
                    old(self).model(),
                    old(reader).remaining(),
                );
                &&& final(writer)@ == old(writer)@ + t.0
                &&& (match res {
                    Ok(u) => t.1 is None,
                    Err(e) => t.1 == Some(e),
                })
            }),
    {
        loop
            invariant
                self.wf(),
                reader.wf(),
                reader.bytes() == old(reader).bytes(),
                old(reader).pos() <= reader.pos(),
                self.auth == old(self).auth,
                self.query_exec == old(self).query_exec,
                writer@.len() >= old(writer)@.len(),
                writer@.take(old(writer)@.len() as int) == old(writer)@,
                ({
                    let t0 = Self::spec_session(
                        old(self).auth,
                        old(self).query_exec,
                        old(self).model(),
                        old(reader).remaining(),
                    );
                    let t = Self::spec_session(
                        self.auth,
                        self.query_exec,
                        self.model(),
                        reader.remaining(),
                    );
                    t0.0 == writer@.skip(old(writer)@.len() as int) + t.0 && t0.1 == t.1
                }),
            decreases reader.bytes().len() - reader.pos(),
        {
            let ghost w_before = writer@;
            let ghost m_before = self.model();
            let ghost rem_before = reader.remaining();
            let r = self.step(reader, writer);
            proof {
                Self::lemma_step_bounds(
                    old(self).auth,
                    old(self).query_exec,
                    m_before,
                    rem_before,
                );
                assert(writer@.take(old(writer)@.len() as int) =~= old(writer)@);
                assert(writer@.skip(old(writer)@.len() as int) =~= w_before.skip(
                    old(writer)@.len() as int,
                ) + writer@.skip(w_before.len() as int));
                assert(writer@ =~= writer@.take(old(writer)@.len() as int) + writer@.skip(
                    old(writer)@.len() as int,
                ));
            }
            match r {
                Err(e) => {
                    return Err(e);
                },
                Ok(true) => {
                    return Ok(());
                },
                Ok(false) => {
                },
            }
        }
    }

    /// Startup retry: a startup message that parses but names no user is
    /// answered with exactly one error report, code `P0001`, and the
    /// machine is back in the startup phase — the stream stays open and the
    /// very same machine will take a fresh handshake.
    pub proof fn lemma_startup_retry(
        a: A,
        q: Q,
        m: ManagerModel,
        input: Seq<u8>,
        version: i32,
        ps: Seq<(Seq<u8>, Seq<u8>)>,
        n: int,
    )
        requires
            m.phase == Phase::Startup,
            Handshake::dec(input) == Ok::<(HandshakeModel, int), DecodeError>(
                (HandshakeModel::Startup(version, ps), n),
            ),
        ensures
            (match Self::spec_apply_startup(m, version, ps) {
                Ok(m2) => m2.state.user.len() == 0 ==> Self::spec_step(a, q, m, input) == Ok::<
                    (Seq<u8>, ManagerModel, int, bool),
                    DecodeError,
                >(
                    (
                        out_error(user_mandatory_report()),
                        ManagerModel { phase: Phase::Startup, ..m2 },
                        n,
                        false,
                    ),
                ),
                Err(e) => true,
            }),
    {
    }

    /// Startup acceptance: a startup message that parses and names a user
    /// moves the machine past startup — to the ready phase outright, or to
    /// the password wait — and never closes the stream.
    pub proof fn lemma_startup_accept(
        a: A,
        q: Q,
        m: ManagerModel,
        input: Seq<u8>,
        version: i32,
        ps: Seq<(Seq<u8>, Seq<u8>)>,
        n: int,
    )
        requires
            m.phase == Phase::Startup,
            Handshake::dec(input) == Ok::<(HandshakeModel, int), DecodeError>(
                (HandshakeModel::Startup(version, ps), n),
            ),
        ensures
            (match Self::spec_apply_startup(m, version, ps) {
                Ok(m2) => m2.state.user.len() > 0 ==> ({
                    let t = Self::spec_step(a, q, m, input);
                    &&& t is Ok
                    &&& t->Ok_0.3 == false
                    &&& (match a.spec_method(m2.state) {
                        AuthMethod::NoAuth => t->Ok_0.1.phase == Phase::Ready,
                        AuthMethod::CleartextPassword => t->Ok_0.1.phase == Phase::AwaitPassword,
                    })
                }),
                Err(e) => true,
            }),
    {
    }

    /// SSL decline: a stream that opens with the SSL-request magic gets
    /// exactly one `'N'` byte back, and the machine then expects the real
    /// startup message on the same stream.
    pub proof fn lemma_ssl_decline(a: A, q: Q, m: ManagerModel, input: Seq<u8>, code: i32, n: int)
        requires
            m.phase == Phase::Startup,
            Handshake::dec(input) == Ok::<(HandshakeModel, int), DecodeError>(
                (HandshakeModel::SslRequest(code), n),
            ),
        ensures
            Self::spec_step(a, q, m, input) == Ok::<(Seq<u8>, ManagerModel, int, bool), DecodeError>(
                (seq![78u8], ManagerModel { phase: Phase::SslDeclined, ..m }, n, false),
            ),
    {
        assert(SSLResponse::NoSsl.enc() =~= seq![78u8]);
    }

    /// After the decline, a startup message is processed exactly as it
    /// would have been without the probe.
    pub proof fn lemma_startup_after_ssl(
        a: A,
        q: Q,
        m: ManagerModel,
        input: Seq<u8>,
        version: i32,
        ps: Seq<(Seq<u8>, Seq<u8>)>,
        n: int,
    )
        requires
            m.phase == Phase::SslDeclined,
            StartupMessage::dec(input) == Ok::<((i32, Seq<(Seq<u8>, Seq<u8>)>), int), DecodeError>(
                ((version, ps), n),
            ),
        ensures
            (match Self::spec_apply_startup(m, version, ps) {
                Ok(m2) => Self::spec_step(a, q, m, input) == Ok::<
                    (Seq<u8>, ManagerModel, int, bool),
                    DecodeError,
                >(
                    (
                        Self::spec_after_startup(a, m2).0,
                        Self::spec_after_startup(a, m2).1,
                        n,
                        false,
                    ),
                ),
                Err(e) => Self::spec_step(a, q, m, input) == Err::<
                    (Seq<u8>, ManagerModel, int, bool),
                    DecodeError,
                >(e),
            }),
    {
    }

    /// Auth gate: while a password is awaited and the validator rejects it,
    /// the session writes exactly one error report — SQLSTATE `28P01`, the
    /// validator's own message — and ends; in particular no readiness
    /// report is ever sent.
    pub proof fn lemma_auth_gate(a: A, q: Q, m: ManagerModel, input: Seq<u8>, pw: Seq<u8>, n: int)
        requires
            m.phase == Phase::AwaitPassword,
            PasswordMessage::dec(input) == Ok::<(Seq<u8>, int), DecodeError>((pw, n)),
            a.spec_password(m.state, pw) is Err,
        ensures
            ({
                let fs = a.spec_password(m.state, pw)->Err_0;
                &&& Self::spec_step(a, q, m, input) == Ok::<
                    (Seq<u8>, ManagerModel, int, bool),
                    DecodeError,
                >(
                    (
                        out_error(auth_failed_report(fs)),
                        ManagerModel { phase: Phase::Done, ..m },
                        n,
                        true,
                    ),
                )
                &&& Self::spec_session(a, q, m, input) == (
                    out_error(auth_failed_report(fs)),
                    None::<DecodeError>,
                )
                &&& auth_failed_report(fs)[1] == (
                    Field::Code,
                    seq![50u8, 56u8, 80u8, 48u8, 49u8],
                )
            }),
    {
    }

    /// Query loop idempotence: in the ready phase a query leaves the whole
    /// state untouched, so the same query against the same executor always
    /// draws the same completion (or error) followed by a readiness report,
    /// and the stream stays open.
    pub proof fn lemma_query_idempotent(
        a: A,
        q: Q,
        m: ManagerModel,
        input: Seq<u8>,
        text: Seq<u8>,
        n: int,
    )
        requires
            m.phase == Phase::Ready,
            IncomingMessage::dec(input) == Ok::<(IncomingModel, int), DecodeError>(
                (IncomingModel::Query(text), n),
            ),
        ensures
            Self::spec_step(a, q, m, input) == Ok::<(Seq<u8>, ManagerModel, int, bool), DecodeError>(
                (
                    (match q.spec_execute(text) {
                        Ok(tag) => out_complete(tag),
                        Err(fs) => out_error(fs),
                    }) + (ReadyForQuery { transaction_status: TransactionStatus::Idle }).enc(),
                    m,
                    n,
                    false,
                ),
            ),
    {
    }

    /// Clean termination: a terminate frame in the ready phase ends the
    /// session at once, and nothing further is ever written.
    pub proof fn lemma_terminate_clean(a: A, q: Q, m: ManagerModel, input: Seq<u8>, n: int)
        requires
            m.phase == Phase::Ready,
            IncomingMessage::dec(input) == Ok::<(IncomingModel, int), DecodeError>(
                (IncomingModel::Terminate, n),
            ),
        ensures
            Self::spec_step(a, q, m, input) == Ok::<(Seq<u8>, ManagerModel, int, bool), DecodeError>(
                (Seq::<u8>::empty(), ManagerModel { phase: Phase::Done, ..m }, n, true),
            ),
            Self::spec_session(a, q, m, input) == (Seq::<u8>::empty(), None::<DecodeError>),
    {
    }
}

} // verus!
