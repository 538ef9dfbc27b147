//! A configured background synchronisation task bound to one database and
//! one remote endpoint, with an optional authenticator.  The wrapper holds
//! the configuration and the requested lifecycle state; the transfer
//! itself happens outside it and is not observable here.

use vstd::prelude::*;

use crate::database::Database;
use crate::errors::engine_error;
use crate::errors::spec_engine_error;
use crate::errors::CouchbaseLiteError;
use crate::errors::CODE_INVALID_URL;
use crate::errors::CODE_NOT_OPEN;

verus! {

/// An opaque credential descriptor, consumed by replicator construction.
pub struct Authenticator {
    user: String,
    password: String,
}

/// The model of an authenticator.
#[verifier::ext_equal]
pub struct AuthModel {
    pub user: Seq<char>,
    pub password: Seq<char>,
}

impl View for Authenticator {
    type V = AuthModel;

    closed spec fn view(&self) -> AuthModel {
        AuthModel { user: self.user@, password: self.password@ }
    }
}

impl Authenticator {
    /// A credential for the HTTP `basic` authentication method.
    pub fn new_basic(user: String, pwd: String) -> (a: Authenticator)
        ensures
            a@ == (AuthModel { user: user@, password: pwd@ }),
    {
        Authenticator { user, password: pwd }
    }
}

/// Where a replication task stands in its lifecycle.
#[derive(Clone, Copy, Debug, PartialEq, Eq, Structural)]
pub enum ReplicatorState {
    Configured,
    Started,
    Stopped,
}

/// The model of a replicator: its configuration and requested state.
/// `checkpoint_reset` records that a start wiped the prior checkpoint.
#[verifier::ext_equal]
pub struct RepModel {
    pub db_name: Seq<char>,
    pub target_url: Seq<char>,
    pub auth: Option<AuthModel>,
    pub continuous: bool,
    pub state: ReplicatorState,
    pub checkpoint_reset: bool,
}

/// An endpoint URL this wrapper accepts: a websocket one, `ws://...` or
/// `wss://...`.
pub open spec fn valid_ws_url(u: Seq<char>) -> bool {
    (u.len() >= 5 && u.take(5) == seq!['w', 's', ':', '/', '/']) || (u.len() >= 6 && u.take(6)
        == seq!['w', 's', 's', ':', '/', '/'])
}

fn is_valid_ws_url(u: &str) -> (r: bool)
    ensures
        r == valid_ws_url(u@),
{
    let n = u.unicode_len();
    if n < 5 {
        proof {
            assert(!valid_ws_url(u@));
        }
        return false;
    }
    let c0 = u.get_char(0);
    let c1 = u.get_char(1);
    let c2 = u.get_char(2);
    let c3 = u.get_char(3);
    let c4 = u.get_char(4);
    let plain = c0 == 'w' && c1 == 's' && c2 == ':' && c3 == '/' && c4 == '/';
    if plain {
        proof {
            assert(u@.take(5) =~= seq!['w', 's', ':', '/', '/']);
        }
        return true;
    }
    if n < 6 {
        proof {
            assert(u@.take(5)[2] == c2);
            assert(!valid_ws_url(u@));
        }
        return false;
    }
    let c5 = u.get_char(5);
    let secure = c0 == 'w' && c1 == 's' && c2 == 's' && c3 == ':' && c4 == '/' && c5 == '/';
    proof {
        assert(u@.take(5)[0] == c0);
        assert(u@.take(5)[1] == c1);
        assert(u@.take(5)[2] == c2);
        assert(u@.take(5)[3] == c3);
        assert(u@.take(5)[4] == c4);
        assert(u@.take(6)[0] == c0);
        assert(u@.take(6)[1] == c1);
        assert(u@.take(6)[2] == c2);
        assert(u@.take(6)[3] == c3);
        assert(u@.take(6)[4] == c4);
        assert(u@.take(6)[5] == c5);
        if secure {
            assert(u@.take(6) =~= seq!['w', 's', 's', ':', '/', '/']);
        } else {
            assert(u@.take(5) != seq!['w', 's', ':', '/', '/']);
            assert(u@.take(6) != seq!['w', 's', 's', ':', '/', '/']);
        }
    }
    secure
}

/// A configured synchronisation task.  One-shot and bidirectional, as the
/// store's default; the handle is move-only and released by its owner.
pub struct Replicator {
    db_name: String,
    target_url: String,
    auth: Option<Authenticator>,
    continuous: bool,
    state: ReplicatorState,
    checkpoint_reset: bool,
}

impl View for Replicator {
    type V = RepModel;

    closed spec fn view(&self) -> RepModel {
        RepModel {
            db_name: self.db_name@,
            target_url: self.target_url@,
            auth: match &self.auth {
                None => None,
                Some(a) => Some(a@),
            },
            continuous: self.continuous,
            state: self.state,
            checkpoint_reset: self.checkpoint_reset,
        }
    }
}

impl Replicator {
    /// Configures an unauthenticated task against the endpoint.  Succeeds
    /// exactly when the session is open and the URL is a websocket one.
    pub fn new(database: &Database, target_url: String) -> (r: Result<
        Replicator,
        CouchbaseLiteError,
    >)
        ensures
            (if !database@.open {
                r == Err::<Replicator, CouchbaseLiteError>(
                    CouchbaseLiteError::CannotCreateNewReplicator(spec_engine_error(CODE_NOT_OPEN)),
                )
            } else if !valid_ws_url(target_url@) {
                r == Err::<Replicator, CouchbaseLiteError>(
                    CouchbaseLiteError::CannotCreateNewReplicator(
                        spec_engine_error(CODE_INVALID_URL),
                    ),
                )
            } else {
                r matches Ok(rep) && rep@ == (RepModel {
                    db_name: database@.name,
                    target_url: target_url@,
                    auth: None,
                    continuous: false,
                    state: ReplicatorState::Configured,
                    checkpoint_reset: false,
                })
            }),
    {
        if !database.is_open_x() {
            return Err(
                CouchbaseLiteError::CannotCreateNewReplicator(engine_error(CODE_NOT_OPEN)),
            );
        }
        if !is_valid_ws_url(target_url.as_str()) {
            return Err(
                CouchbaseLiteError::CannotCreateNewReplicator(engine_error(CODE_INVALID_URL)),
            );
        }
        Ok(
            Replicator {
                db_name: database.get_name(),
                target_url,
                auth: None,
                continuous: false,
                state: ReplicatorState::Configured,
                checkpoint_reset: false,
            },
        )
    }

    /// Configures an authenticated task against the endpoint, consuming
    /// the credential.
    pub fn new_with_auth(database: &Database, target_url: String, auth: Authenticator) -> (r:
        Result<Replicator, CouchbaseLiteError>)
        ensures
            (if !database@.open {
                r == Err::<Replicator, CouchbaseLiteError>(
                    CouchbaseLiteError::CannotCreateNewReplicator(spec_engine_error(CODE_NOT_OPEN)),
                )
            } else if !valid_ws_url(target_url@) {
                r == Err::<Replicator, CouchbaseLiteError>(
                    CouchbaseLiteError::CannotCreateNewReplicator(
                        spec_engine_error(CODE_INVALID_URL),
                    ),
                )
            } else {
                r matches Ok(rep) && rep@ == (RepModel {
                    db_name: database@.name,
                    target_url: target_url@,
                    auth: Some(auth@),
                    continuous: false,
                    state: ReplicatorState::Configured,
                    checkpoint_reset: false,
                })
            }),
    {
        if !database.is_open_x() {
            return Err(
                CouchbaseLiteError::CannotCreateNewReplicator(engine_error(CODE_NOT_OPEN)),
            );
        }
        if !is_valid_ws_url(target_url.as_str()) {
            return Err(
                CouchbaseLiteError::CannotCreateNewReplicator(engine_error(CODE_INVALID_URL)),
            );
        }
        Ok(
            Replicator {
                db_name: database.get_name(),
                target_url,
                auth: Some(auth),
                continuous: false,
                state: ReplicatorState::Configured,
                checkpoint_reset: false,
            },
        )
    }

    /// Wipes any prior checkpoint, then asks the transfer to begin.
    /// Control returns at once; progress happens elsewhere.
    pub fn start(&mut self)
        ensures
            final(self)@ == (RepModel {
                state: ReplicatorState::Started,
                checkpoint_reset: true,
                ..old(self)@
            }),
    {
        self.checkpoint_reset = true;
        self.state = ReplicatorState::Started;
        proof {
            assert(self@ =~= (RepModel {
                state: ReplicatorState::Started,
                checkpoint_reset: true,
                ..old(self)@
            }));
        }
    }

    /// Requests graceful cessation; does not wait for it.
    pub fn stop(&mut self)
        ensures
            final(self)@ == (RepModel { state: ReplicatorState::Stopped, ..old(self)@ }),
    {
        self.state = ReplicatorState::Stopped;
        proof {
            assert(self@ =~= (RepModel { state: ReplicatorState::Stopped, ..old(self)@ }));
        }
    }
}

} // verus!
