//! The tracee: one traced child process and what the debugger does to it.
//!
//! Every operation here ends in a tracing call whose outcome depends on
//! the traced process. The arguments of each call and the sense made of
//! each result are computed by functions with exact contracts, in the
//! modules for words, statuses and breakpoints; the operations here put
//! them in order.

use crate::breakpoints::{
    all_planted,
    due,
    hit_site,
    lemma_resume_requests,
    news_after,
    none_planted,
    planted_at,
    resume_requests,
    same_addresses,
    settled,
    BreakpointTable,
    Request,
    TRAP_BYTE,
};
use crate::error::Error;
use crate::status::{Observed, Status};
use crate::symbols::{Frame, SymbolIndex};
use crate::trace::{
    continue_tracee,
    instruction_pointer,
    kill_process,
    peek_word,
    poke_word,
    read_registers,
    step_tracee,
    wait_for,
    with_instruction_pointer,
    write_registers,
};
use crate::word::{align_addr_to_word, displaced_byte, patch, Patch};
use nix::sys::wait::WaitPidFlag;
use vstd::prelude::*;

verus! {

/// A traced child process.
pub struct Inferior {
    pid: i32,
    at: Option<u64>,
    gone: bool,
}

impl Inferior {
    #[verifier::type_invariant]
    spec fn valid(self) -> bool {
        self.pid > 0 && (self.gone ==> self.at.is_none())
    }

    /// The process id of the tracee.
    pub closed spec fn id(&self) -> i32 {
        self.pid
    }

    /// The instruction pointer at which the tracee is known to stand
    /// stopped. `None` while it runs, once it has ended, and after a
    /// tracing call on it has failed.
    pub closed spec fn position(&self) -> Option<u64> {
        self.at
    }

    /// Whether the tracee is known to have ended: it was seen to exit or to
    /// be killed, or this debugger killed it. Such a process is never
    /// signalled again.
    pub closed spec fn is_gone(&self) -> bool {
        self.gone
    }

    /// Takes charge of the freshly started child `pid`, which asked to be
    /// traced before it loaded the target. Waits for its first stop, which
    /// must be the trap that follows the loading of the image, and plants
    /// every breakpoint of the table while the child stands there.
    ///
    /// On success every breakpoint is planted and the tracee stands stopped,
    /// not yet resumed. On failure no breakpoint is planted, and a child
    /// that was seen alive has been killed.
    pub fn new(pid: i32, breakpoints: &mut BreakpointTable) -> (started: Result<Inferior, Error>)
        requires
            old(breakpoints).wf(),
        ensures
            final(breakpoints).wf(),
            same_addresses(old(breakpoints)@, final(breakpoints)@),
            pid <= 0 ==> started == Err::<Inferior, Error>(Error::StartupFailed),
            match started {
                Ok(inferior) => {
                    &&& inferior.id() == pid
                    &&& inferior.position().is_some()
                    &&& !inferior.is_gone()
                    &&& all_planted(final(breakpoints)@)
                },
                Err(e) => {
                    &&& e == Error::StartupFailed || e == Error::TraceOperationFailed
                    &&& none_planted(final(breakpoints)@)
                },
            },
    {
        breakpoints.forget_originals();
        if pid <= 0 {
            return Err(Error::StartupFailed);
        }
        let mut inferior = Inferior { pid, at: None, gone: false };
        match inferior.wait(None) {
            Ok(first) => {
                if first.startup_confirmed() {
                    inferior.at = first.ip();
                } else {
                    if first.ip().is_some() {
                        inferior.kill();
                    }
                    return Err(Error::StartupFailed);
                }
            },
            Err(_) => {
                return Err(Error::StartupFailed);
            },
        }
        match inferior.plant_all(breakpoints) {
            Ok(()) => Ok(inferior),
            Err(e) => {
                inferior.kill();
                Err(e)
            },
        }
    }

    /// Plants the trap at every breakpoint of the table, in the order of the
    /// table, and records each displaced byte. Stops at the first write that
    /// fails and then leaves no breakpoint recorded as planted. Without a
    /// breakpoint there is nothing to write and nothing to fail; in a tracee
    /// that is known to have ended nothing can be planted.
    pub fn plant_all(&mut self, breakpoints: &mut BreakpointTable) -> (done: Result<(), Error>)
        requires
            old(breakpoints).wf(),
        ensures
            final(breakpoints).wf(),
            same_addresses(old(breakpoints)@, final(breakpoints)@),
            final(self).id() == old(self).id(),
            final(self).is_gone() == old(self).is_gone(),
            old(breakpoints)@.len() == 0 ==> done == Ok::<(), Error>(()),
            old(self).is_gone() && old(breakpoints)@.len() > 0 ==> done.is_err(),
            match done {
                Ok(()) => all_planted(final(breakpoints)@) && final(self).position() == old(
                    self,
                ).position(),
                Err(e) => e == Error::TraceOperationFailed && none_planted(final(breakpoints)@)
                    && final(self).position().is_none(),
            },
    {
        let ghost before = breakpoints@;
        let n: usize = breakpoints.len();
        let mut i: usize = 0;
        while i < n
            invariant
                i <= n,
                n == breakpoints@.len(),
                breakpoints.wf(),
                before == old(breakpoints)@,
                same_addresses(before, breakpoints@),
                self.id() == old(self).id(),
                self.is_gone() == old(self).is_gone(),
                self.is_gone() ==> i == 0,
                self.position() == old(self).position(),
                forall|k: int| 0 <= k < i ==> (#[trigger] breakpoints@[k]).orig_byte.is_some(),
            decreases n - i,
        {
            let addr: u64 = breakpoints.addr_at(i);
            match self.write_byte(addr, TRAP_BYTE) {
                Ok(orig) => {
                    breakpoints.set_original(i, orig);
                },
                Err(e) => {
                    breakpoints.forget_originals();
                    return Err(e);
                },
            }
            i += 1;
        }
        Ok(())
    }

    /// The process id of the tracee.
    pub fn pid(&self) -> (pid: i32)
        ensures
            pid == self.id(),
            pid > 0,
    {
        proof {
            use_type_invariant(self);
        }
        self.pid
    }

    /// The instruction pointer at which the tracee stands stopped, as far as
    /// this debugger knows.
    pub fn stopped_at(&self) -> (at: Option<u64>)
        ensures
            at == self.position(),
    {
        self.at
    }

    /// Whether the tracee is known to have ended.
    pub fn has_ended(&self) -> (gone: bool)
        ensures
            gone == self.is_gone(),
            gone ==> self.position().is_none(),
    {
        proof {
            use_type_invariant(self);
        }
        self.gone
    }

    /// Reads the instruction pointer of the stopped tracee out of its
    /// registers. A tracee that is known to have ended has none, and is not
    /// asked.
    fn read_ip(&self) -> (ip: Option<u64>)
        ensures
            self.is_gone() ==> ip.is_none(),
    {
        proof {
            use_type_invariant(self);
        }
        if self.gone {
            return None;
        }
        match read_registers(self.pid) {
            Ok(registers) => Some(instruction_pointer(&registers)),
            Err(_) => None,
        }
    }

    /// Waits for the tracee to change state and says what was observed.
    /// After a stop the registers are read for the instruction pointer.
    ///
    /// Fails if the wait itself fails, if the registers of a stopped tracee
    /// cannot be read, and if what was observed is none of exit, kill and
    /// stop. On a tracee that is known to have ended it fails at once: there
    /// is nothing left to wait for, and its process id may be in use again.
    pub fn wait(&self, options: Option<WaitPidFlag>) -> (status: Result<Status, Error>)
        ensures
            status matches Err(e) ==> e == Error::TraceOperationFailed,
            self.is_gone() ==> status.is_err(),
    {
        proof {
            use_type_invariant(self);
        }
        if self.gone {
            return Err(Error::TraceOperationFailed);
        }
        match wait_for(self.pid, options) {
            Ok(seen) => {
                let ip: Option<u64> = match seen {
                    Observed::Stopped(_) => self.read_ip(),
                    _ => None,
                };
                Status::from_observed(seen, ip)
            },
            Err(_) => Err(Error::TraceOperationFailed),
        }
    }

    /// Lets the stopped tracee run on, whatever stands at its instruction
    /// pointer. On a tracee that is known to have ended it fails at once.
    pub fn cont(&self) -> (done: Result<(), Error>)
        ensures
            done matches Err(e) ==> e == Error::TraceOperationFailed,
            self.is_gone() ==> done.is_err(),
    {
        proof {
            use_type_invariant(self);
        }
        if self.gone {
            return Err(Error::TraceOperationFailed);
        }
        match continue_tracee(self.pid) {
            Ok(()) => Ok(()),
            Err(_) => Err(Error::TraceOperationFailed),
        }
    }

    /// Lets the stopped tracee execute one instruction. On a tracee that is
    /// known to have ended it fails at once.
    pub fn step(&self) -> (done: Result<(), Error>)
        ensures
            done matches Err(e) ==> e == Error::TraceOperationFailed,
            self.is_gone() ==> done.is_err(),
    {
        proof {
            use_type_invariant(self);
        }
        if self.gone {
            return Err(Error::TraceOperationFailed);
        }
        match step_tracee(self.pid) {
            Ok(()) => Ok(()),
            Err(_) => Err(Error::TraceOperationFailed),
        }
    }

    /// Kills the tracee and reaps it. Returns the last status it showed, if
    /// there was one to see. A tracee that is known to be gone is left
    /// alone: this never fails and may be called again.
    pub fn kill(&mut self) -> (last: Option<Status>)
        ensures
            final(self).id() == old(self).id(),
            final(self).position().is_none(),
            final(self).is_gone(),
            old(self).is_gone() ==> last.is_none(),
    {
        proof {
            use_type_invariant(&*self);
        }
        if self.gone {
            return None;
        }
        self.at = None;
        let _ = kill_process(self.pid);
        let reaped = self.wait(None);
        self.gone = true;
        match reaped {
            Ok(status) => Some(status),
            Err(_) => None,
        }
    }

    /// Says where the stopped tracee stands: its instruction pointer, the
    /// function that holds it and its source line.
    pub fn print_backtrace(&self, symbols: &SymbolIndex) -> (frame: Result<Frame, Error>)
        ensures
            self.is_gone() ==> frame.is_err(),
            match frame {
                Ok(f) => f.describes(*symbols, f.ip),
                Err(e) => e == Error::TraceOperationFailed,
            },
    {
        match self.read_ip() {
            Some(ip) => Ok(symbols.frame_at(ip)),
            None => Err(Error::TraceOperationFailed),
        }
    }

    /// Reads the word of the tracee's memory that holds the byte at `addr`:
    /// the eight bytes from `addr` rounded down to a multiple of eight. On a
    /// tracee that is known to have ended it fails at once.
    pub fn read_word(&self, addr: u64) -> (word: Result<u64, Error>)
        ensures
            word matches Err(e) ==> e == Error::TraceOperationFailed,
            self.is_gone() ==> word.is_err(),
    {
        proof {
            use_type_invariant(self);
        }
        if self.gone {
            return Err(Error::TraceOperationFailed);
        }
        match peek_word(self.pid, align_addr_to_word(addr)) {
            Ok(word) => Ok(word),
            Err(_) => Err(Error::TraceOperationFailed),
        }
    }

    /// Writes `word` into the tracee's memory at `start`. On a tracee that
    /// is known to have ended it fails at once.
    ///
    /// A failure leaves the tracee without a known position: it is not to be
    /// used any more.
    pub fn write_word(&mut self, start: u64, word: u64) -> (done: Result<(), Error>)
        ensures
            final(self).id() == old(self).id(),
            final(self).is_gone() == old(self).is_gone(),
            old(self).is_gone() ==> done.is_err(),
            match done {
                Ok(()) => final(self).position() == old(self).position(),
                Err(e) => e == Error::TraceOperationFailed && final(self).position().is_none(),
            },
    {
        proof {
            use_type_invariant(&*self);
        }
        if self.gone {
            return Err(Error::TraceOperationFailed);
        }
        match poke_word(self.pid, start, word) {
            Ok(()) => Ok(()),
            Err(_) => {
                self.at = None;
                Err(Error::TraceOperationFailed)
            },
        }
    }

    /// Writes `val` at `addr` in the tracee and returns the byte that was
    /// there. Memory is read and written one aligned word at a time: the
    /// word that holds `addr` is read, `patch` works out from it the word to
    /// write back and the byte that is displaced, and that word is written
    /// where it was read. On a tracee that is known to have ended it fails
    /// at once.
    ///
    /// A failure leaves the tracee without a known position: it is not to be
    /// used any more.
    pub fn write_byte(&mut self, addr: u64, val: u8) -> (displaced: Result<u8, Error>)
        ensures
            final(self).id() == old(self).id(),
            final(self).is_gone() == old(self).is_gone(),
            old(self).is_gone() ==> displaced.is_err(),
            match displaced {
                Ok(_) => final(self).position() == old(self).position(),
                Err(e) => e == Error::TraceOperationFailed && final(self).position().is_none(),
            },
    {
        proof {
            use_type_invariant(&*self);
        }
        match self.read_word(addr) {
            Ok(word) => {
                let edit: Patch = patch(word, addr, val);
                match self.write_word(edit.start, edit.word) {
                    Ok(()) => Ok(edit.displaced),
                    Err(e) => Err(e),
                }
            },
            Err(e) => {
                self.at = None;
                Err(e)
            },
        }
    }

    /// Puts `val` at `addr` in the tracee, given that the word that holds
    /// `addr` was read as `word`: writes back what `patch` works out, and
    /// returns the byte of `word` that `val` replaces. On a tracee that is
    /// known to have ended it fails at once.
    pub fn write_patched(&mut self, word: u64, addr: u64, val: u8) -> (displaced: Result<
        u8,
        Error,
    >)
        ensures
            final(self).id() == old(self).id(),
            final(self).is_gone() == old(self).is_gone(),
            old(self).is_gone() ==> displaced.is_err(),
            match displaced {
                Ok(byte) => byte == displaced_byte(word, addr) && final(self).position() == old(
                    self,
                ).position(),
                Err(e) => e == Error::TraceOperationFailed && final(self).position().is_none(),
            },
    {
        let edit: Patch = patch(word, addr, val);
        match self.write_word(edit.start, edit.word) {
            Ok(()) => Ok(edit.displaced),
            Err(e) => Err(e),
        }
    }

    /// Moves the instruction pointer of the stopped tracee to `ip`. On a
    /// tracee that is known to have ended it fails at once.
    pub fn set_ip(&mut self, ip: u64) -> (done: Result<(), Error>)
        ensures
            final(self).id() == old(self).id(),
            old(self).is_gone() ==> done.is_err() && final(self).is_gone(),
            match done {
                Ok(()) => final(self).position() == Some(ip) && !final(self).is_gone(),
                Err(e) => e == Error::TraceOperationFailed && final(self).position().is_none(),
            },
    {
        proof {
            use_type_invariant(&*self);
        }
        if self.gone {
            return Err(Error::TraceOperationFailed);
        }
        self.at = None;
        let registers = match read_registers(self.pid) {
            Ok(registers) => registers,
            Err(_) => {
                return Err(Error::TraceOperationFailed);
            },
        };
        match write_registers(self.pid, with_instruction_pointer(registers, ip)) {
            Ok(()) => {
                self.at = Some(ip);
                Ok(())
            },
            Err(_) => Err(Error::TraceOperationFailed),
        }
    }

    /// Takes note of a status that a wait returned. A breakpoint hit leaves
    /// the tracee one byte past the breakpoint: it is moved back onto the
    /// breakpoint, and the status handed back says so. Every other status
    /// is handed back as it is.
    pub fn settle(&mut self, status: Status, breakpoints: &BreakpointTable) -> (seen: Result<
        Status,
        Error,
    >)
        ensures
            final(self).id() == old(self).id(),
            match seen {
                Ok(s) => s == settled(breakpoints@, status) && final(self).position()
                    == s.stopped_at() && final(self).is_gone() == !s.is_alive(),
                Err(e) => e == Error::TraceOperationFailed && hit_site(breakpoints@, status).is_some()
                    && final(self).position().is_none(),
            },
    {
        match breakpoints.hit(status) {
            Some(site) => match self.set_ip(site) {
                Ok(()) => match status {
                    Status::Stopped(signal, _) => Ok(Status::Stopped(signal, site)),
                    _ => Ok(status),
                },
                Err(e) => Err(e),
            },
            None => {
                proof {
                    use_type_invariant(&*self);
                }
                self.at = None;
                self.gone = status.ip().is_none();
                self.at = status.ip();
                Ok(status)
            },
        }
    }

    /// Waits for the running tracee to stop or end, and settles what was
    /// observed: the status handed back is never a breakpoint hit as the
    /// wait shows it, one byte past the breakpoint, but the stop at the
    /// breakpoint that it amounts to. On a tracee that is known to have
    /// ended it fails at once.
    pub fn observe(&mut self, breakpoints: &BreakpointTable) -> (seen: Result<Status, Error>)
        ensures
            final(self).id() == old(self).id(),
            old(self).is_gone() ==> seen.is_err(),
            seen matches Ok(s) ==> exists|raw: Status| s == #[trigger] settled(breakpoints@, raw),
            match seen {
                Ok(s) => final(self).position() == s.stopped_at() && final(self).is_gone()
                    == !s.is_alive(),
                Err(e) => e == Error::TraceOperationFailed && final(self).position().is_none(),
            },
    {
        match self.wait(None) {
            Ok(status) => self.settle(status, breakpoints),
            Err(e) => {
                proof {
                    use_type_invariant(&*self);
                }
                self.at = None;
                Err(e)
            },
        }
    }

    /// Takes note of the status that a single step showed: where the
    /// tracee stands, or that it has ended.
    fn note(&mut self, status: Status)
        ensures
            final(self).id() == old(self).id(),
            final(self).position() == status.stopped_at(),
            final(self).is_gone() == !status.is_alive(),
    {
        proof {
            use_type_invariant(&*self);
        }
        self.at = None;
        self.gone = !status.alive();
        self.at = status.ip();
    }

    /// Carries out one request on the tracee. A step is waited for, and
    /// what it leaves to tell is handed back as said by
    /// `Status::after_step`; the other requests leave nothing to tell.
    pub fn carry_out(&mut self, request: Request) -> (news: Result<Option<Status>, Error>)
        ensures
            final(self).id() == old(self).id(),
            old(self).is_gone() ==> news.is_err(),
            match news {
                Ok(None) => !final(self).is_gone() && match request {
                    Request::WriteByte { addr, byte } => final(self).position() == old(
                        self,
                    ).position(),
                    Request::Step => final(self).position().is_some(),
                    Request::Continue => final(self).position().is_none(),
                },
                Ok(Some(status)) => {
                    &&& request is Step
                    &&& status.news_of_step() == Some(status)
                    &&& final(self).position() == status.stopped_at()
                    &&& final(self).is_gone() == !status.is_alive()
                },
                Err(e) => e == Error::TraceOperationFailed && final(self).position().is_none(),
            },
    {
        proof {
            use_type_invariant(&*self);
        }
        match request {
            Request::WriteByte { addr, byte } => match self.write_byte(addr, byte) {
                Ok(_) => Ok(None),
                Err(e) => Err(e),
            },
            Request::Step => {
                self.at = None;
                match self.step() {
                    Ok(()) => {},
                    Err(e) => {
                        return Err(e);
                    },
                }
                match self.wait(None) {
                    Ok(stepped) => {
                        self.note(stepped);
                        Ok(stepped.after_step())
                    },
                    Err(e) => Err(e),
                }
            },
            Request::Continue => {
                self.at = None;
                match self.cont() {
                    Ok(()) => Ok(None),
                    Err(e) => Err(e),
                }
            },
        }
    }

    /// Lets the stopped tracee run on without losing a breakpoint.
    ///
    /// What is asked of the tracee, and in what order, is what
    /// `BreakpointTable::resume_plan` says for the position at which it
    /// stands: on a planted breakpoint the displaced byte is put back, the
    /// one instruction is executed, the trap is planted again, and only then
    /// is the tracee let run; anywhere else it is let run at once. The
    /// requests are carried out one after the other, each as long as it is
    /// due after what the step left to tell.
    ///
    /// Returns `None` when the tracee runs, and the caller is to wait for
    /// it. Returns a status when the single step itself ended the tracee or
    /// stopped it on a signal of its own: the tracee is then not let run,
    /// and that status is the news. A tracee that is not known to stand
    /// stopped cannot be resumed.
    pub fn resume(&mut self, breakpoints: &BreakpointTable) -> (early: Result<
        Option<Status>,
        Error,
    >)
        ensures
            final(self).id() == old(self).id(),
            old(self).position().is_none() ==> early == Err::<Option<Status>, Error>(
                Error::TraceOperationFailed,
            ),
            match early {
                Ok(None) => final(self).position().is_none() && !final(self).is_gone(),
                Ok(Some(status)) => {
                    &&& old(self).position() matches Some(at) && planted_at(
                        breakpoints@,
                        at,
                    ).is_some()
                    &&& status.news_of_step() == Some(status)
                    &&& final(self).position() == status.stopped_at()
                    &&& final(self).is_gone() == !status.is_alive()
                    &&& !status.is_startup_stop()
                },
                Err(e) => e == Error::TraceOperationFailed && final(self).position().is_none(),
            },
    {
        proof {
            use_type_invariant(&*self);
        }
        let at: u64 = match self.at {
            Some(at) => at,
            None => {
                return Err(Error::TraceOperationFailed);
            },
        };
        let requests: Vec<Request> = breakpoints.resume_plan(at);
        let ghost planted = planted_at(breakpoints@, at);
        proof {
            lemma_resume_requests(at, planted);
        }
        let mut news: Option<Status> = None;
        let mut i: usize = 0;
        while i < requests.len()
            invariant
                i <= requests@.len(),
                requests@ == resume_requests(at, planted),
                planted == planted_at(breakpoints@, at),
                old(self).position() == Some(at),
                self.id() == old(self).id(),
                match news {
                    None => !self.is_gone() && (i == requests@.len()
                        ==> self.position().is_none()),
                    Some(status) => {
                        &&& planted.is_some()
                        &&& status.news_of_step() == Some(status)
                        &&& self.position() == status.stopped_at()
                        &&& self.is_gone() == !status.is_alive()
                    },
                },
            decreases requests@.len() - i,
        {
            let request: Request = requests[i];
            proof {
                lemma_resume_requests(at, planted);
                assert(i + 1 == requests@.len() ==> request == Request::Continue);
                assert(request is Continue ==> i + 1 == requests@.len());
            }
            if due(request, news) {
                let outcome = self.carry_out(request);
                news = match news_after(news, outcome) {
                    Ok(told) => told,
                    Err(e) => {
                        return Err(e);
                    },
                };
            }
            i += 1;
        }
        Ok(news)
    }
}

} // verus!
