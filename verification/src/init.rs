//! The two-round initialization protocol.
//!
//! Construction of a fully populated environment takes two blocking
//! synchronization round-trips against the transport. The first delivers
//! every global the server currently knows; the second services the
//! follow-on requests handlers may have issued while binding during the
//! first. Either round failing abandons initialization: no partially
//! initialized environment is ever handed out.
//!
//! The transport performs the blocking rounds; this module decides, from
//! each round's outcome, where initialization stands and whether the
//! environment may be released.

use vstd::prelude::*;

use crate::environment::Environment;
use crate::handlers::{GlobalHandler, MultiGlobalHandler};

verus! {

/// Why initialization failed.
#[derive(Clone, Copy, PartialEq, Eq, Structural, Debug)]
pub enum InitError {
    /// The first synchronization round did not complete.
    FirstRoundtripFailed,
    /// The second synchronization round did not complete.
    SecondRoundtripFailed,
}

/// Where the two-round initialization currently stands.
#[derive(Clone, Copy, PartialEq, Eq, Structural, Debug)]
pub enum InitPhase {
    /// The first synchronization round is outstanding: the server is
    /// delivering every global it currently knows.
    AwaitingFirstSync,
    /// The second synchronization round is outstanding: follow-on requests
    /// issued while binding are being serviced.
    AwaitingSecondSync,
    /// Both rounds completed: the environment is fully populated.
    Complete,
    /// A round failed: initialization is abandoned for the given reason.
    Failed(InitError),
}

impl InitPhase {
    /// The phase after one synchronization round ends with the given
    /// outcome: the rounds succeed in order, the first failure is kept, and
    /// a finished initialization no longer moves.
    pub open spec fn advance(self, success: bool) -> InitPhase {
        match self {
            InitPhase::AwaitingFirstSync => if success {
                InitPhase::AwaitingSecondSync
            } else {
                InitPhase::Failed(InitError::FirstRoundtripFailed)
            },
            InitPhase::AwaitingSecondSync => if success {
                InitPhase::Complete
            } else {
                InitPhase::Failed(InitError::SecondRoundtripFailed)
            },
            InitPhase::Complete => InitPhase::Complete,
            InitPhase::Failed(e) => InitPhase::Failed(e),
        }
    }

    /// Initialization starts with the first synchronization outstanding.
    pub fn begin() -> (r: InitPhase)
        ensures
            r == InitPhase::AwaitingFirstSync,
    {
        InitPhase::AwaitingFirstSync
    }

    /// Record the outcome of one blocking synchronization round.
    pub fn on_sync_result(self, success: bool) -> (r: InitPhase)
        ensures
            r == self.advance(success),
    {
        match self {
            InitPhase::AwaitingFirstSync => if success {
                InitPhase::AwaitingSecondSync
            } else {
                InitPhase::Failed(InitError::FirstRoundtripFailed)
            },
            InitPhase::AwaitingSecondSync => if success {
                InitPhase::Complete
            } else {
                InitPhase::Failed(InitError::SecondRoundtripFailed)
            },
            InitPhase::Complete => InitPhase::Complete,
            InitPhase::Failed(e) => InitPhase::Failed(e),
        }
    }

    /// Release the environment exactly when both rounds completed; a failed
    /// initialization surfaces its reason instead, and the environment is
    /// dropped unseen.
    pub fn finish<E, S: GlobalHandler, M: MultiGlobalHandler>(
        self,
        env: Environment<E, S, M>,
    ) -> (r: Result<Environment<E, S, M>, InitError>)
        requires
            self is Complete || self is Failed,
        ensures
            match r {
                Ok(e) => self is Complete && e == env,
                Err(err) => self == InitPhase::Failed(err),
            },
    {
        match self {
            InitPhase::Complete => Ok(env),
            InitPhase::Failed(e) => Err(e),
            _ => Err(InitError::FirstRoundtripFailed),
        }
    }
}

} // verus!
