//! The debugging session: one target, at most one tracee, and the breakpoint
//! table that outlives every tracee.
//!
//! The session does not read commands, start processes or print. It is
//! handed one event at a time, does what the event calls for, and says what
//! is to be shown to the user and what it needs next.

use crate::breakpoints::{
    all_planted,
    distinct_addresses,
    hit_site,
    index_for,
    lemma_same_addresses_same_slots,
    lemma_slot_of,
    lemma_with_breakpoint,
    none_planted,
    planted_at,
    same_addresses,
    settled,
    slot_of,
    with_breakpoint,
    Breakpoint,
    BreakpointTable,
    TRAP_BYTE,
};
use crate::command::DebuggerCommand;
use crate::error::Error;
use crate::inferior::Inferior;
use crate::location::resolve;
use crate::status::{status_of, Observed, Signal, Status, SIGTRAP};
use crate::symbols::{Frame, Line, SymbolIndex};
use vstd::prelude::*;

verus! {

/// What the session has to tell the user.
#[derive(Debug, PartialEq, Eq)]
pub enum Report {
    /// The target exited with this code.
    Exited(i32),
    /// The target was killed by this signal.
    Signaled(Signal),
    /// The target stopped on this signal at this instruction, which belongs
    /// to this source line if the symbol index knows one.
    Stopped { signal: Signal, ip: u64, line: Option<Line> },
    /// There is no stopped target to continue: run the process first.
    RunProcessFirst,
    /// A breakpoint with this index is set at this address.
    BreakpointSet { index: usize, addr: u64 },
    /// Something failed.
    Failed(Error),
    /// Where the target stands.
    Frame(Frame),
}

/// What happened outside the session since its last turn.
#[derive(Debug, PartialEq, Eq)]
pub enum Event {
    /// The user gave this command.
    Command(DebuggerCommand),
    /// The target was started as a child with this process id, set up to be
    /// traced.
    Spawned(i32),
    /// The target could not be started.
    SpawnFailed,
}

/// What the session needs next.
#[derive(Debug, PartialEq, Eq)]
pub enum Action {
    /// The next command of the user.
    Prompt,
    /// The target started with these arguments, set up to ask for tracing
    /// before it loads its image.
    Spawn(Vec<String>),
    /// Nothing: the session is over.
    Exit,
}

/// One turn of the session: what to show, then what to do.
#[derive(Debug, PartialEq, Eq)]
pub struct Turn {
    pub reports: Vec<Report>,
    pub action: Action,
}

/// The report of an observed status, or of the failure to observe one. A
/// stop comes with its source line where the symbol index resolves the
/// instruction pointer.
pub open spec fn report_of(symbols: SymbolIndex, result: Result<Status, Error>) -> Report {
    match result {
        Ok(Status::Exited(code)) => Report::Exited(code),
        Ok(Status::Signaled(signal)) => Report::Signaled(signal),
        Ok(Status::Stopped(signal, ip)) => Report::Stopped {
            signal,
            ip,
            line: symbols.nearest_line(ip),
        },
        Err(e) => Report::Failed(e),
    }
}

/// Whether `report` is that of a status, or of a failed tracing call.
pub open spec fn is_status_report(symbols: SymbolIndex, report: Report) -> bool {
    match report {
        Report::Exited(_) => true,
        Report::Signaled(_) => true,
        Report::Stopped { signal, ip, line } => line == symbols.nearest_line(ip),
        Report::Failed(e) => e == Error::TraceOperationFailed,
        _ => false,
    }
}

/// The instruction pointer that a report shows the target stopped at.
pub open spec fn stop_in(report: Report) -> Option<u64> {
    match report {
        Report::Stopped { signal, ip, line } => Some(ip),
        _ => None,
    }
}

/// An exit that a wait observes is reported as that exit with its code,
/// whatever breakpoints are set and whatever the symbols are.
pub proof fn lemma_exit_is_reported(
    symbols: SymbolIndex,
    entries: Seq<Breakpoint>,
    code: i32,
    ip: Option<u64>,
)
    ensures
        status_of(Observed::Exited(code), ip) == Ok::<Status, Error>(Status::Exited(code)),
        settled(entries, Status::Exited(code)) == Status::Exited(code),
        report_of(symbols, Ok(settled(entries, Status::Exited(code)))) == Report::Exited(code),
{
}

/// A trap that a wait observes one byte past a planted breakpoint is
/// reported as a stop at the breakpoint itself, with the source line of the
/// breakpoint where the symbols resolve it.
pub proof fn lemma_hit_is_reported_at_the_breakpoint(
    symbols: SymbolIndex,
    entries: Seq<Breakpoint>,
    site: u64,
)
    requires
        planted_at(entries, site).is_some(),
        site < u64::MAX,
    ensures
        ({
            let trap = Signal { number: SIGTRAP };
            let raw = Status::Stopped(trap, (site + 1) as u64);
            &&& status_of(Observed::Stopped(SIGTRAP), Some((site + 1) as u64)) == Ok::<
                Status,
                Error,
            >(raw)
            &&& hit_site(entries, raw) == Some(site)
            &&& settled(entries, raw) == Status::Stopped(trap, site)
            &&& report_of(symbols, Ok(settled(entries, raw))) == (Report::Stopped {
                signal: trap,
                ip: site,
                line: symbols.nearest_line(site),
            })
        }),
{
}

/// A breakpoint set by the name of a function, once it is planted, makes the
/// trap observed one byte past the entry of the function a stop at the
/// entry, reported with the source line of the entry.
pub proof fn lemma_break_at_function_stops_at_its_entry(
    symbols: SymbolIndex,
    entries: Seq<Breakpoint>,
    name: Seq<char>,
    entry: u64,
)
    requires
        resolve(symbols, name) == Some(entry),
        planted_at(entries, entry).is_some(),
        entry < u64::MAX,
    ensures
        slot_of(entries, entry).is_some(),
        report_of(
            symbols,
            Ok(
                settled(
                    entries,
                    Status::Stopped(Signal { number: SIGTRAP }, (entry + 1) as u64),
                ),
            ),
        ) == (Report::Stopped {
            signal: Signal { number: SIGTRAP },
            ip: entry,
            line: symbols.nearest_line(entry),
        }),
{
    lemma_hit_is_reported_at_the_breakpoint(symbols, entries, entry);
}

/// Whether the breakpoints `before` are all still there in `after`, each
/// with its index and address.
pub open spec fn keeps_breakpoints(before: Seq<Breakpoint>, after: Seq<Breakpoint>) -> bool {
    &&& before.len() <= after.len()
    &&& forall|i: int| 0 <= i < before.len() ==> (#[trigger] before[i]).addr == after[i].addr
}

/// A debugging session on one target.
pub struct Debugger {
    target: String,
    symbols: SymbolIndex,
    inferior: Option<Inferior>,
    breakpoints: BreakpointTable,
}

/// Lets a stopped tracee run on and waits for what becomes of it.
fn advance(inferior: &mut Inferior, breakpoints: &BreakpointTable) -> (seen: Result<Status, Error>)
    ensures
        final(inferior).id() == old(inferior).id(),
        match seen {
            Ok(s) => final(inferior).position() == s.stopped_at() && final(inferior).is_gone()
                == !s.is_alive(),
            Err(e) => e == Error::TraceOperationFailed && final(inferior).position().is_none(),
        },
{
    match inferior.resume(breakpoints) {
        Ok(None) => inferior.observe(breakpoints),
        Ok(Some(status)) => Ok(status),
        Err(e) => Err(e),
    }
}

impl Debugger {
    /// The path of the target executable.
    pub closed spec fn target(&self) -> Seq<char> {
        self.target@
    }

    /// The symbol index of the target.
    pub closed spec fn symbols(&self) -> SymbolIndex {
        self.symbols
    }

    /// The breakpoints, in the order they were set.
    pub closed spec fn table(&self) -> Seq<Breakpoint> {
        self.breakpoints@
    }

    /// The tracee, if the session has one. A tracee that has ended stays
    /// until the next `run` replaces it.
    pub closed spec fn tracee(&self) -> Option<Inferior> {
        self.inferior
    }

    /// Where the tracee stands stopped. `None` without a tracee, and with
    /// one that runs, has ended or has failed.
    pub open spec fn position(&self) -> Option<u64> {
        match self.tracee() {
            Some(tracee) => tracee.position(),
            None => None,
        }
    }

    /// The invariant of the session: no two breakpoints share an address, a
    /// tracee that stands stopped has every breakpoint planted in it, and a
    /// tracee that does not stand stopped has ended.
    pub open spec fn wf(&self) -> bool {
        &&& distinct_addresses(self.table())
        &&& self.position().is_some() ==> all_planted(self.table())
        &&& self.tracee() matches Some(tracee) ==> tracee.position().is_some() || tracee.is_gone()
    }

    /// Whether two sessions are in the same state: the same target and
    /// symbols, the same breakpoints with the same displaced bytes, and the
    /// same tracee in the same place.
    pub open spec fn same_state(before: Debugger, after: Debugger) -> bool {
        &&& after.target() == before.target()
        &&& after.symbols() == before.symbols()
        &&& after.table() == before.table()
        &&& after.tracee() == before.tracee()
    }

    /// What holds of the session after `event`, told by the kind of event.
    pub open spec fn turned(before: Debugger, event: Event, turn: Turn, after: Debugger) -> bool {
        match event {
            Event::Command(DebuggerCommand::Continue) => Self::continued(before, turn, after),
            Event::Command(DebuggerCommand::BreakPoint(location)) => Self::broke(
                before,
                location@,
                turn,
                after,
            ),
            Event::Command(DebuggerCommand::Backtrace) => Self::traced(before, turn, after),
            Event::Command(DebuggerCommand::Quit) => Self::quitted(before, turn, after),
            Event::Command(DebuggerCommand::Run(args)) => Self::restarted(
                before,
                args,
                turn,
                after,
            ),
            Event::Spawned(pid) => Self::adopted(before, pid, turn, after),
            Event::SpawnFailed => {
                &&& Self::same_state(before, after)
                &&& turn.action == Action::Prompt
                &&& turn.reports@ == seq![Report::Failed(Error::StartupFailed)]
            },
        }
    }

    /// `continue`: without a stopped tracee nothing happens but the advice to
    /// run the process first. With one, it is resumed and waited for, and
    /// the one report says what became of it. A tracee on which a tracing
    /// call failed is given up: it is killed, and the session has none.
    pub open spec fn continued(before: Debugger, turn: Turn, after: Debugger) -> bool {
        &&& turn.action == Action::Prompt
        &&& same_addresses(before.table(), after.table())
        &&& match before.position() {
            None => Self::same_state(before, after) && turn.reports@ == seq![
                Report::RunProcessFirst,
            ],
            Some(_) => {
                &&& turn.reports@.len() == 1
                &&& is_status_report(after.symbols(), turn.reports@[0])
                &&& after.position() == stop_in(turn.reports@[0])
                &&& after.tracee().is_none() == (turn.reports@[0] is Failed)
            },
        }
    }

    /// `break`: a location that does not resolve changes nothing. One that
    /// does is reported with its index and address; it adds an entry unless
    /// its address is in the table already, and a new entry is planted at
    /// once in a tracee that stands stopped. If planting fails, that is
    /// reported too and the tracee is given up.
    pub open spec fn broke(
        before: Debugger,
        location: Seq<char>,
        turn: Turn,
        after: Debugger,
    ) -> bool {
        &&& turn.action == Action::Prompt
        &&& match resolve(before.symbols(), location) {
            None => Self::same_state(before, after) && turn.reports@ == seq![
                Report::Failed(Error::UnresolvedLocation),
            ],
            Some(addr) => {
                let wanted = with_breakpoint(before.table(), addr);
                &&& turn.reports@.len() >= 1
                &&& turn.reports@[0] == (Report::BreakpointSet {
                    index: index_for(before.table(), addr) as usize,
                    addr,
                })
                &&& same_addresses(wanted, after.table())
                &&& if before.position().is_none() || slot_of(before.table(), addr).is_some() {
                    &&& after.table() == wanted
                    &&& after.tracee() == before.tracee()
                    &&& turn.reports@.len() == 1
                } else if turn.reports@.len() == 1 {
                    &&& planted_at(after.table(), addr).is_some()
                    &&& after.position() == before.position()
                } else {
                    &&& turn.reports@.len() == 2
                    &&& turn.reports@[1] == Report::Failed(Error::TraceOperationFailed)
                    &&& after.tracee().is_none()
                }
            },
        }
    }

    /// `backtrace`: without a stopped tracee there is nothing to show. With
    /// one, its registers are read and the one report is the frame of its
    /// instruction pointer; the session stays as it is. If the registers
    /// cannot be read, that is reported and the tracee is given up.
    pub open spec fn traced(before: Debugger, turn: Turn, after: Debugger) -> bool {
        &&& turn.action == Action::Prompt
        &&& same_addresses(before.table(), after.table())
        &&& match before.position() {
            None => turn.reports@.len() == 0 && Self::same_state(before, after),
            Some(_) => {
                &&& turn.reports@.len() == 1
                &&& match turn.reports@[0] {
                    Report::Frame(frame) => frame.describes(before.symbols(), frame.ip)
                        && Self::same_state(before, after),
                    Report::Failed(e) => e == Error::TraceOperationFailed
                        && after.tracee().is_none(),
                    _ => false,
                }
            },
        }
    }

    /// `quit`: the tracee, if there is one, is killed and reaped, and its
    /// last status reported if it showed one. The session ends.
    pub open spec fn quitted(before: Debugger, turn: Turn, after: Debugger) -> bool {
        &&& turn.action == Action::Exit
        &&& after.table() == before.table()
        &&& after.position().is_none()
        &&& after.tracee() matches Some(tracee) ==> tracee.is_gone()
        &&& after.tracee().is_some() == before.tracee().is_some()
        &&& turn.reports@.len() <= 1
        &&& before.tracee().is_none() ==> turn.reports@.len() == 0
        &&& turn.reports@.len() == 1 ==> is_status_report(after.symbols(), turn.reports@[0])
            && !(turn.reports@[0] is Failed)
    }

    /// `run`: the tracee, if there is one, is killed and reaped, no
    /// breakpoint is planted any more, and the session asks for the target
    /// to be started with the arguments of the command.
    pub open spec fn restarted(
        before: Debugger,
        args: Vec<String>,
        turn: Turn,
        after: Debugger,
    ) -> bool {
        &&& turn.action == Action::Spawn(args)
        &&& turn.reports@.len() == 0
        &&& after.tracee().is_none()
        &&& same_addresses(before.table(), after.table())
        &&& none_planted(after.table())
    }

    /// A started target: any earlier tracee is killed and reaped first. The
    /// new one is waited for, gets every breakpoint planted, and is resumed
    /// and waited for again; the one report says what became of it. A
    /// target that does not start as it must, or on which a tracing call
    /// fails, leaves the session without a tracee and with no breakpoint
    /// planted. A process id that names no single process is a failed start.
    pub open spec fn adopted(before: Debugger, pid: i32, turn: Turn, after: Debugger) -> bool {
        &&& turn.action == Action::Prompt
        &&& same_addresses(before.table(), after.table())
        &&& turn.reports@.len() == 1
        &&& pid <= 0 ==> turn.reports@ == seq![Report::Failed(Error::StartupFailed)]
        &&& match after.tracee() {
            Some(tracee) => {
                &&& tracee.id() == pid
                &&& pid > 0
                &&& is_status_report(after.symbols(), turn.reports@[0])
                &&& !(turn.reports@[0] is Failed)
                &&& after.position() == stop_in(turn.reports@[0])
            },
            None => {
                &&& turn.reports@[0] == Report::Failed(Error::StartupFailed) || turn.reports@[0]
                    == Report::Failed(Error::TraceOperationFailed)
                &&& none_planted(after.table())
            },
        }
    }

    /// A session on the executable `target`, whose symbols are `symbols`.
    /// There is no tracee and no breakpoint yet.
    pub fn new(target: &str, symbols: SymbolIndex) -> (debugger: Debugger)
        ensures
            debugger.target() == target@,
            debugger.symbols() == symbols,
            debugger.table() == Seq::<Breakpoint>::empty(),
            debugger.tracee().is_none(),
            debugger.wf(),
    {
        Debugger {
            target: target.to_owned(),
            symbols,
            inferior: None,
            breakpoints: BreakpointTable::new(),
        }
    }

    /// The path of the target executable.
    pub fn target_path(&self) -> (path: &String)
        ensures
            path@ == self.target(),
    {
        &self.target
    }

    /// How many breakpoints are set.
    pub fn breakpoint_count(&self) -> (n: usize)
        ensures
            n == self.table().len(),
    {
        self.breakpoints.len()
    }

    /// The breakpoint with index `index`.
    pub fn breakpoint(&self, index: usize) -> (entry: Option<Breakpoint>)
        ensures
            entry == if index < self.table().len() {
                Some(self.table()[index as int])
            } else {
                None
            },
    {
        self.breakpoints.get(index)
    }

    /// Whether the session has a tracee.
    pub fn has_tracee(&self) -> (yes: bool)
        ensures
            yes == self.tracee().is_some(),
    {
        self.inferior.is_some()
    }

    /// Where the tracee stands stopped, if it does.
    pub fn stopped_at(&self) -> (at: Option<u64>)
        ensures
            at == self.position(),
    {
        match &self.inferior {
            Some(tracee) => tracee.stopped_at(),
            None => None,
        }
    }

    /// The report of an observed status, or of the failure to observe one: an
    /// exit with its code, a kill with its signal, a stop with its signal,
    /// its instruction pointer and, where the symbol index resolves it, the
    /// source line.
    pub fn print_status(&self, result: Result<Status, Error>) -> (report: Report)
        ensures
            report == report_of(self.symbols(), result),
    {
        match result {
            Ok(Status::Exited(code)) => Report::Exited(code),
            Ok(Status::Signaled(signal)) => Report::Signaled(signal),
            Ok(Status::Stopped(signal, ip)) => Report::Stopped {
                signal,
                ip,
                line: self.symbols.get_line_from_addr(ip),
            },
            Err(e) => Report::Failed(e),
        }
    }

    /// Takes one turn: does what `event` calls for and says what is to be
    /// shown and what the session needs next.
    ///
    /// Whatever the event and whatever the tracee does, the symbols and the
    /// target stay the same, no breakpoint is lost or moved to another
    /// index, the addresses of the table stay distinct, and a tracee that
    /// stands stopped has every breakpoint planted in it.
    pub fn run(&mut self, event: Event) -> (turn: Turn)
        requires
            old(self).wf(),
        ensures
            final(self).wf(),
            final(self).target() == old(self).target(),
            final(self).symbols() == old(self).symbols(),
            keeps_breakpoints(old(self).table(), final(self).table()),
            Self::turned(*old(self), event, turn, *final(self)),
    {
        match event {
            Event::Command(DebuggerCommand::Continue) => self.continue_tracee(),
            Event::Command(DebuggerCommand::BreakPoint(location)) => self.set_breakpoint(
                &location,
            ),
            Event::Command(DebuggerCommand::Backtrace) => self.backtrace(),
            Event::Command(DebuggerCommand::Quit) => self.quit(),
            Event::Command(DebuggerCommand::Run(args)) => self.restart(args),
            Event::Spawned(pid) => self.adopt(pid),
            Event::SpawnFailed => {
                let mut reports: Vec<Report> = Vec::new();
                reports.push(Report::Failed(Error::StartupFailed));
                proof {
                    assert(reports@ =~= seq![Report::Failed(Error::StartupFailed)]);
                }
                Turn { reports, action: Action::Prompt }
            },
        }
    }

    fn continue_tracee(&mut self) -> (turn: Turn)
        requires
            old(self).wf(),
        ensures
            final(self).wf(),
            final(self).target() == old(self).target(),
            final(self).symbols() == old(self).symbols(),
            Self::continued(*old(self), turn, *final(self)),
    {
        let mut reports: Vec<Report> = Vec::new();
        if self.stopped_at().is_none() {
            reports.push(Report::RunProcessFirst);
            proof {
                assert(reports@ =~= seq![Report::RunProcessFirst]);
            }
            return Turn { reports, action: Action::Prompt };
        }
        let mut tracee: Inferior = match self.inferior.take() {
            Some(tracee) => tracee,
            None => {
                return Turn { reports, action: Action::Prompt };
            },
        };
        let seen = advance(&mut tracee, &self.breakpoints);
        self.keep_or_discard(tracee, seen.is_ok());
        reports.push(self.print_status(seen));
        Turn { reports, action: Action::Prompt }
    }

    /// Keeps `tracee` as the tracee of the session if `usable`, and gives it
    /// up if not: it is killed and reaped, no breakpoint is planted any
    /// more, and the session has no tracee.
    fn keep_or_discard(&mut self, tracee: Inferior, usable: bool)
        requires
            distinct_addresses(old(self).table()),
            usable ==> tracee.position().is_some() || tracee.is_gone(),
            usable && tracee.position().is_some() ==> all_planted(old(self).table()),
        ensures
            final(self).wf(),
            final(self).target() == old(self).target(),
            final(self).symbols() == old(self).symbols(),
            same_addresses(old(self).table(), final(self).table()),
            usable ==> final(self).tracee() == Some(tracee) && final(self).table() == old(
                self,
            ).table(),
            !usable ==> final(self).tracee().is_none() && none_planted(final(self).table()),
    {
        if usable {
            self.inferior = Some(tracee);
        } else {
            let mut tracee: Inferior = tracee;
            tracee.kill();
            self.breakpoints.forget_originals();
            self.inferior = None;
        }
    }

    fn set_breakpoint(&mut self, location: &String) -> (turn: Turn)
        requires
            old(self).wf(),
        ensures
            final(self).wf(),
            final(self).target() == old(self).target(),
            final(self).symbols() == old(self).symbols(),
            keeps_breakpoints(old(self).table(), final(self).table()),
            Self::broke(*old(self), location@, turn, *final(self)),
    {
        let ghost before = self.breakpoints@;
        let mut reports: Vec<Report> = Vec::new();
        let count: usize = self.breakpoints.len();
        let standing: bool = self.stopped_at().is_some();
        let index: usize = match self.breakpoints.add(location.as_str(), &self.symbols) {
            Ok(index) => index,
            Err(e) => {
                reports.push(Report::Failed(e));
                proof {
                    assert(reports@ =~= seq![Report::Failed(Error::UnresolvedLocation)]);
                }
                return Turn { reports, action: Action::Prompt };
            },
        };
        let ghost wanted = self.breakpoints@;
        let ghost target = resolve(self.symbols, location@).unwrap();
        proof {
            lemma_with_breakpoint(before, target);
            lemma_slot_of(before, target);
            lemma_slot_of(wanted, target);
        }
        let addr: u64 = self.breakpoints.addr_at(index);
        reports.push(Report::BreakpointSet { index, addr });
        if index == count && standing {
            let mut tracee: Inferior = match self.inferior.take() {
                Some(tracee) => tracee,
                None => {
                    return Turn { reports, action: Action::Prompt };
                },
            };
            match tracee.write_byte(addr, TRAP_BYTE) {
                Ok(orig) => {
                    self.breakpoints.set_original(index, orig);
                    proof {
                        lemma_same_addresses_same_slots(wanted, self.breakpoints@, addr);
                        assert forall|i: int| 0 <= i < self.breakpoints@.len() implies (
                        #[trigger] self.breakpoints@[i]).orig_byte.is_some() by {
                            if i != index {
                                assert(self.breakpoints@[i] == wanted[i]);
                                assert(wanted[i] == before[i]);
                            }
                        }
                    }
                    self.inferior = Some(tracee);
                },
                Err(e) => {
                    reports.push(Report::Failed(e));
                    self.keep_or_discard(tracee, false);
                },
            }
        }
        Turn { reports, action: Action::Prompt }
    }

    fn backtrace(&mut self) -> (turn: Turn)
        requires
            old(self).wf(),
        ensures
            final(self).wf(),
            final(self).target() == old(self).target(),
            final(self).symbols() == old(self).symbols(),
            Self::traced(*old(self), turn, *final(self)),
    {
        let mut reports: Vec<Report> = Vec::new();
        if self.stopped_at().is_none() {
            return Turn { reports, action: Action::Prompt };
        }
        let tracee: Inferior = match self.inferior.take() {
            Some(tracee) => tracee,
            None => {
                return Turn { reports, action: Action::Prompt };
            },
        };
        match tracee.print_backtrace(&self.symbols) {
            Ok(frame) => {
                reports.push(Report::Frame(frame));
                self.inferior = Some(tracee);
            },
            Err(e) => {
                reports.push(Report::Failed(e));
                self.keep_or_discard(tracee, false);
            },
        }
        Turn { reports, action: Action::Prompt }
    }

    fn quit(&mut self) -> (turn: Turn)
        requires
            old(self).wf(),
        ensures
            final(self).wf(),
            final(self).target() == old(self).target(),
            final(self).symbols() == old(self).symbols(),
            Self::quitted(*old(self), turn, *final(self)),
    {
        let mut reports: Vec<Report> = Vec::new();
        match self.inferior.take() {
            Some(tracee) => {
                let mut tracee: Inferior = tracee;
                match tracee.kill() {
                    Some(status) => {
                        reports.push(self.print_status(Ok(status)));
                    },
                    None => {},
                }
                self.inferior = Some(tracee);
            },
            None => {},
        }
        Turn { reports, action: Action::Exit }
    }

    fn restart(&mut self, args: Vec<String>) -> (turn: Turn)
        requires
            old(self).wf(),
        ensures
            final(self).wf(),
            final(self).target() == old(self).target(),
            final(self).symbols() == old(self).symbols(),
            Self::restarted(*old(self), args, turn, *final(self)),
    {
        match self.inferior.take() {
            Some(tracee) => {
                let mut tracee: Inferior = tracee;
                tracee.kill();
            },
            None => {},
        }
        self.breakpoints.forget_originals();
        Turn { reports: Vec::new(), action: Action::Spawn(args) }
    }

    fn adopt(&mut self, pid: i32) -> (turn: Turn)
        requires
            old(self).wf(),
        ensures
            final(self).wf(),
            final(self).target() == old(self).target(),
            final(self).symbols() == old(self).symbols(),
            Self::adopted(*old(self), pid, turn, *final(self)),
    {
        let mut reports: Vec<Report> = Vec::new();
        match self.inferior.take() {
            Some(tracee) => {
                let mut tracee: Inferior = tracee;
                tracee.kill();
            },
            None => {},
        }
        match Inferior::new(pid, &mut self.breakpoints) {
            Ok(tracee) => {
                let mut tracee: Inferior = tracee;
                let seen = advance(&mut tracee, &self.breakpoints);
                self.keep_or_discard(tracee, seen.is_ok());
                reports.push(self.print_status(seen));
            },
            Err(e) => {
                reports.push(Report::Failed(e));
                proof {
                    assert(reports@ =~= seq![Report::Failed(e)]);
                }
            },
        }
        Turn { reports, action: Action::Prompt }
    }
}

} // verus!
