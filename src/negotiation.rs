//! The connection negotiation pipeline: turns a raw byte stream into an
//! authenticated, multiplexed connection through four strictly ordered
//! stages, any of which may fail and end the attempt.

use vstd::prelude::*;

verus! {

/// Protocol identifier of the security layer.
pub const SECURITY_PROTOCOL: &'static str = "/noise";

/// Protocol identifier of the stream multiplexer.
pub const MULTIPLEXER_PROTOCOL: &'static str = "/yamux/1.0.0";

/// Which side of the connection this node is.
#[derive(Debug, Clone, Copy, PartialEq, Eq, Structural)]
pub enum Role {
    /// This node opened the connection.
    Dialer,
    /// This node accepted the connection.
    Listener,
}

/// Role of this node in the multiplexer.
#[derive(Debug, Clone, Copy, PartialEq, Eq, Structural)]
pub enum MultiplexerMode {
    Client,
    Server,
}

/// Stages of the pipeline, in the order they run.
#[derive(Debug, Clone, Copy, PartialEq, Eq, Structural)]
pub enum Stage {
    /// Agree on the security protocol over the raw stream.
    SecurityNegotiation,
    /// Run the security handshake; every later byte is encrypted.
    SecurityHandshake,
    /// Agree on the multiplexer over the encrypted stream.
    MultiplexerNegotiation,
    /// Build the multiplexed connection on the encrypted stream.
    MultiplexerBootstrap,
}

/// Where an attempt stands.
#[derive(Debug, Clone, Copy, PartialEq, Eq, Structural)]
pub enum Progress {
    /// The stage is to be run next.
    Running(Stage),
    /// Every stage succeeded.
    Ready,
    /// The stage failed; nothing of the attempt is kept.
    Failed(Stage),
}

/// What the runner of the pipeline has to do next.
#[derive(Debug, Clone, Copy, PartialEq, Eq)]
pub enum NegotiationAction {
    /// Negotiate `protocol` with the remote.
    Negotiate { protocol: &'static str },
    /// Run the security handshake in this role.
    Handshake { role: Role },
    /// Build the multiplexed connection in this mode.
    Bootstrap { mode: MultiplexerMode },
    /// Hand the connection over: negotiation is done.
    Finished,
    /// Drop the attempt: this stage failed.
    Abort { stage: Stage },
}

/// The stage after `stage`, or `None` after the last one.
pub open spec fn next_stage(stage: Stage) -> Option<Stage> {
    match stage {
        Stage::SecurityNegotiation => Some(Stage::SecurityHandshake),
        Stage::SecurityHandshake => Some(Stage::MultiplexerNegotiation),
        Stage::MultiplexerNegotiation => Some(Stage::MultiplexerBootstrap),
        Stage::MultiplexerBootstrap => None,
    }
}

/// Where an attempt stands after the current stage reports `succeeded`:
/// success moves on to the next stage or to `Ready`, failure ends the
/// attempt at that stage, and a finished attempt does not move.
pub open spec fn progress_after(p: Progress, succeeded: bool) -> Progress {
    match p {
        Progress::Running(stage) => if !succeeded {
            Progress::Failed(stage)
        } else {
            match next_stage(stage) {
                Some(next) => Progress::Running(next),
                None => Progress::Ready,
            }
        },
        _ => p,
    }
}

/// The multiplexer mode that matches the connection's direction.
pub open spec fn mode_for(role: Role) -> MultiplexerMode {
    match role {
        Role::Dialer => MultiplexerMode::Client,
        Role::Listener => MultiplexerMode::Server,
    }
}

/// One negotiation of a raw connection.
#[derive(Debug)]
pub struct Negotiation {
    role: Role,
    progress: Progress,
}

impl Negotiation {
    /// A negotiation in `role`, about to negotiate the security protocol.
    pub fn new(role: Role) -> (r: Negotiation)
        ensures
            r.role() == role,
            r.progress() == Progress::Running(Stage::SecurityNegotiation),
    {
        Negotiation { role, progress: Progress::Running(Stage::SecurityNegotiation) }
    }

    /// The side of the connection this node negotiates as.
    pub closed spec fn role(&self) -> Role {
        self.role
    }

    /// Where the attempt stands.
    pub closed spec fn progress(&self) -> Progress {
        self.progress
    }

    /// Where the attempt stands.
    pub fn current(&self) -> (r: Progress)
        ensures
            r == self.progress(),
    {
        self.progress
    }

    /// What is to be done next: each running stage has its step, a failed
    /// attempt is aborted, a finished one handed over.
    pub fn next_action(&self) -> (r: NegotiationAction)
        ensures
            self.progress() == Progress::Running(Stage::SecurityNegotiation) ==> r
                == (NegotiationAction::Negotiate { protocol: SECURITY_PROTOCOL }),
            self.progress() == Progress::Running(Stage::SecurityHandshake) ==> r
                == (NegotiationAction::Handshake { role: self.role() }),
            self.progress() == Progress::Running(Stage::MultiplexerNegotiation) ==> r
                == (NegotiationAction::Negotiate { protocol: MULTIPLEXER_PROTOCOL }),
            self.progress() == Progress::Running(Stage::MultiplexerBootstrap) ==> r
                == (NegotiationAction::Bootstrap { mode: mode_for(self.role()) }),
            self.progress() == Progress::Ready ==> r == NegotiationAction::Finished,
            (self.progress() matches Progress::Failed(stage) ==> r == (NegotiationAction::Abort {
                stage,
            })),
    {
        match self.progress {
            Progress::Running(Stage::SecurityNegotiation) => NegotiationAction::Negotiate {
                protocol: SECURITY_PROTOCOL,
            },
            Progress::Running(Stage::SecurityHandshake) => NegotiationAction::Handshake {
                role: self.role,
            },
            Progress::Running(Stage::MultiplexerNegotiation) => NegotiationAction::Negotiate {
                protocol: MULTIPLEXER_PROTOCOL,
            },
            Progress::Running(Stage::MultiplexerBootstrap) => NegotiationAction::Bootstrap {
                mode: match self.role {
                    Role::Dialer => MultiplexerMode::Client,
                    Role::Listener => MultiplexerMode::Server,
                },
            },
            Progress::Ready => NegotiationAction::Finished,
            Progress::Failed(stage) => NegotiationAction::Abort { stage },
        }
    }

    /// Takes in the outcome of the current stage; see [`progress_after`].
    pub fn on_stage_result(&mut self, succeeded: bool)
        ensures
            final(self).role() == old(self).role(),
            final(self).progress() == progress_after(old(self).progress(), succeeded),
    {
        self.progress = match self.progress {
            Progress::Running(stage) => if !succeeded {
                Progress::Failed(stage)
            } else {
                match stage {
                    Stage::SecurityNegotiation => Progress::Running(Stage::SecurityHandshake),
                    Stage::SecurityHandshake => Progress::Running(Stage::MultiplexerNegotiation),
                    Stage::MultiplexerNegotiation => Progress::Running(Stage::MultiplexerBootstrap),
                    Stage::MultiplexerBootstrap => Progress::Ready,
                }
            },
            other => other,
        };
    }
}

/// A failed attempt stays failed at the stage that failed, whatever is
/// reported after.
pub proof fn lemma_failure_is_final(stage: Stage, succeeded: bool)
    ensures
        progress_after(Progress::Failed(stage), succeeded) == Progress::Failed(stage),
{
}

/// Only four successes in a row, one per stage, make a connection ready.
pub proof fn lemma_ready_after_four_successes()
    ensures
        progress_after(
            progress_after(
                progress_after(
                    progress_after(Progress::Running(Stage::SecurityNegotiation), true),
                    true,
                ),
                true,
            ),
            true,
        ) == Progress::Ready,
        progress_after(
            progress_after(
                progress_after(Progress::Running(Stage::SecurityNegotiation), true),
                true,
            ),
            true,
        ) != Progress::Ready,
{
}

} // verus!
