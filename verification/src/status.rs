//! What a wait on the tracee reports.

use crate::error::Error;
use vstd::prelude::*;

verus! {

/// The number of the signal that a trap instruction, a single step and the
/// loading of a traced program image raise.
pub const SIGTRAP: i32 = 5;

/// The number of the signal that kills a process unconditionally.
pub const SIGKILL: i32 = 9;

/// A signal, by its number on the target system.
#[derive(Clone, Copy, Debug, PartialEq, Eq, Structural)]
pub struct Signal {
    pub number: i32,
}

impl Signal {
    /// Whether this is the trap signal.
    pub open spec fn is_trap(&self) -> bool {
        self.number == SIGTRAP
    }

    /// Whether this is the trap signal.
    #[verifier::when_used_as_spec(is_trap)]
    pub fn trap(&self) -> (yes: bool)
        ensures
            yes == self.is_trap(),
    {
        self.number == SIGTRAP
    }
}

/// The state of the tracee as one wait observed it. It is an observation of
/// one moment, not something the tracee keeps.
#[derive(Clone, Copy, Debug, PartialEq, Eq, Structural)]
pub enum Status {
    /// The tracee stopped. Holds the signal that stopped it and the
    /// instruction pointer at which it stands.
    Stopped(Signal, u64),
    /// The tracee exited normally. Holds its exit code.
    Exited(i32),
    /// The tracee was killed by a signal. Holds that signal.
    Signaled(Signal),
}

/// What the wait primitive saw, before the registers were read.
#[derive(Clone, Copy, Debug, PartialEq, Eq, Structural)]
pub enum Observed {
    /// The process exited with this code.
    Exited(i32),
    /// The process was killed by the signal with this number.
    Signaled(i32),
    /// The process was stopped by the signal with this number.
    Stopped(i32),
    /// Anything else: still running, continued, or a tracing event that this
    /// debugger never asks for.
    Other,
}

/// The status that an observation amounts to. `ip` is the instruction
/// pointer read after a stop, or `None` if it could not be read.
pub open spec fn status_of(seen: Observed, ip: Option<u64>) -> Result<Status, Error> {
    match seen {
        Observed::Exited(code) => Ok(Status::Exited(code)),
        Observed::Signaled(number) => Ok(Status::Signaled(Signal { number })),
        Observed::Stopped(number) => match ip {
            Some(at) => Ok(Status::Stopped(Signal { number }, at)),
            None => Err(Error::TraceOperationFailed),
        },
        Observed::Other => Err(Error::TraceOperationFailed),
    }
}

impl Status {
    /// Whether this observation shows a tracee that still exists.
    pub open spec fn is_alive(&self) -> bool {
        self is Stopped
    }

    /// The instruction pointer of a stopped tracee.
    pub open spec fn stopped_at(&self) -> Option<u64> {
        match *self {
            Status::Stopped(_, ip) => Some(ip),
            _ => None,
        }
    }

    /// Whether the tracee stands stopped by the trap signal.
    pub open spec fn is_trap_stop(&self) -> bool {
        *self matches Status::Stopped(signal, _) && signal.is_trap()
    }

    /// Whether this is the stop that a freshly started tracee must show
    /// first: stopped by the trap that follows the loading of its image.
    pub open spec fn is_startup_stop(&self) -> bool {
        self.is_trap_stop()
    }

    /// What a single step leaves to tell, given the status it showed. A
    /// step ends in a trap stop when all is well, and then there is no
    /// news. Any other status is news: the tracee has ended, or has stopped
    /// on a signal of its own, and is not to be let run.
    pub open spec fn news_of_step(&self) -> Option<Status> {
        if self.is_trap_stop() {
            None
        } else {
            Some(*self)
        }
    }

    /// Turns what the wait primitive saw, and the instruction pointer read
    /// after a stop, into a status. A stop without an instruction pointer
    /// and an observation that is none of exit, kill and stop are failures
    /// of the tracing operation.
    pub fn from_observed(seen: Observed, ip: Option<u64>) -> (status: Result<Status, Error>)
        ensures
            status == status_of(seen, ip),
    {
        match seen {
            Observed::Exited(code) => Ok(Status::Exited(code)),
            Observed::Signaled(number) => Ok(Status::Signaled(Signal { number })),
            Observed::Stopped(number) => match ip {
                Some(at) => Ok(Status::Stopped(Signal { number }, at)),
                None => Err(Error::TraceOperationFailed),
            },
            Observed::Other => Err(Error::TraceOperationFailed),
        }
    }

    /// The instruction pointer, if the tracee is stopped.
    pub fn ip(&self) -> (at: Option<u64>)
        ensures
            at == self.stopped_at(),
    {
        match *self {
            Status::Stopped(_, ip) => Some(ip),
            _ => None,
        }
    }

    /// What a single step that showed this status leaves to tell.
    pub fn after_step(&self) -> (news: Option<Status>)
        ensures
            news == self.news_of_step(),
    {
        match *self {
            Status::Stopped(signal, _) => {
                if signal.trap() {
                    None
                } else {
                    Some(*self)
                }
            },
            _ => Some(*self),
        }
    }

    /// Whether the tracee still exists.
    pub fn alive(&self) -> (yes: bool)
        ensures
            yes == self.is_alive(),
    {
        match *self {
            Status::Stopped(_, _) => true,
            _ => false,
        }
    }

    /// Whether a freshly started tracee that shows this status first has
    /// started as it must.
    pub fn startup_confirmed(&self) -> (yes: bool)
        ensures
            yes == self.is_startup_stop(),
    {
        match *self {
            Status::Stopped(signal, _) => signal.trap(),
            _ => false,
        }
    }
}

} // verus!
