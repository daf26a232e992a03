use vstd::prelude::*;
use crate::config::Config;

verus! {

/// The listening endpoint could not be set up on the requested port.
#[derive(Clone, Debug)]
pub struct BindError {
    /// The port that was requested.
    pub port: u16,
    /// The operating system's description of what failed.
    pub cause: String,
}

/// Decides on the outcome of creating the listening endpoint for `config`:
/// a listener that was created is handed on to be accepted from; a failure
/// becomes a `BindError` that names the requested port and the cause.
pub fn listen<L>(config: &Config, created: Result<L, String>) -> (r: Result<L, BindError>)
    ensures
        created is Ok <==> r is Ok,
        created is Ok ==> r == Ok::<L, BindError>(created->Ok_0),
        created is Err ==> r->Err_0.port == config.port && r->Err_0.cause@ == created->Err_0@,
{
    match created {
        Ok(listener) => Ok(listener),
        Err(cause) => Err(BindError { port: config.port, cause }),
    }
}

/// What one call of accept on the listening endpoint gave.
#[derive(Clone, Copy, Debug, PartialEq, Eq, Structural)]
pub enum AcceptOutcome {
    /// The accept failed.
    Failed,
    /// A connection was accepted; `nodelay_set` tells whether disabling the
    /// send delay on it succeeded.
    Accepted { nodelay_set: bool },
}

/// Something the acceptor reports.
#[derive(Clone, Copy, Debug, PartialEq, Eq, Structural)]
pub enum Notice {
    /// An accept failed; the acceptor goes on.
    AcceptFailed,
    /// The send delay of an accepted connection could not be disabled; the
    /// connection is served anyway.
    NoDelayFailed,
    /// A connection was accepted and gets its own handler.
    NewConnection,
}

/// The acceptor's answer to one accept: what to report, in order, and whether
/// to start a handler for the connection. The acceptor always goes on to the
/// next accept.
pub struct AcceptStep {
    pub notices: Vec<Notice>,
    pub dispatch: bool,
}

/// The reports that follow an accept outcome.
pub open spec fn accept_notices(outcome: AcceptOutcome) -> Seq<Notice> {
    match outcome {
        AcceptOutcome::Failed => seq![Notice::AcceptFailed],
        AcceptOutcome::Accepted { nodelay_set } => if nodelay_set {
            seq![Notice::NewConnection]
        } else {
            seq![Notice::NoDelayFailed, Notice::NewConnection]
        },
    }
}

/// Decides what follows one accept. Every accepted connection is handed to a
/// handler, whether or not its send delay could be disabled; a failed accept
/// is reported and nothing is dispatched.
pub fn on_accept(outcome: AcceptOutcome) -> (r: AcceptStep)
    ensures
        r.dispatch == (outcome is Accepted),
        r.notices@ == accept_notices(outcome),
{
    let mut notices: Vec<Notice> = Vec::new();
    match outcome {
        AcceptOutcome::Failed => {
            notices.push(Notice::AcceptFailed);
            proof {
                assert(notices@ =~= accept_notices(outcome));
            }
            AcceptStep { notices, dispatch: false }
        },
        AcceptOutcome::Accepted { nodelay_set } => {
            if !nodelay_set {
                notices.push(Notice::NoDelayFailed);
            }
            notices.push(Notice::NewConnection);
            proof {
                assert(notices@ =~= accept_notices(outcome));
            }
            AcceptStep { notices, dispatch: true }
        },
    }
}

} // verus!
