use deet::breakpoints::Breakpoint;
use deet::command::DebuggerCommand;
use deet::debugger::{Action, Debugger, Event, Report, Turn};
use deet::error::Error;
use deet::inferior::Inferior;
use deet::breakpoints::BreakpointTable;
use deet::status::{Signal, Status, SIGTRAP};
use deet::symbols::{Function, Line, SymbolIndex};

const NO_SUCH_PROCESS: i32 = i32::MAX;

fn main_line() -> Line {
    Line { file: "demo.c".to_string(), number: 10, address: 0x1000 }
}

fn symbols() -> SymbolIndex {
    SymbolIndex::new(
        vec![
            Function { name: "main".to_string(), address: 0x1000, text_length: 0x40 },
            Function { name: "helper".to_string(), address: 0x1040, text_length: 0x20 },
        ],
        vec![
            main_line(),
            Line { file: "demo.c".to_string(), number: 11, address: 0x1008 },
            Line { file: "demo.c".to_string(), number: 20, address: 0x1040 },
        ],
    )
}

fn debugger() -> Debugger {
    Debugger::new("./demo", symbols())
}

fn command(debugger: &mut Debugger, command: DebuggerCommand) -> Turn {
    debugger.run(Event::Command(command))
}

#[test]
fn new_session_has_no_tracee_and_no_breakpoint() {
    let debugger = debugger();
    assert_eq!(debugger.target_path(), "./demo");
    assert_eq!(debugger.breakpoint_count(), 0);
    assert_eq!(debugger.breakpoint(0), None);
    assert!(!debugger.has_tracee());
    assert_eq!(debugger.stopped_at(), None);
}

#[test]
fn continue_without_a_target_asks_to_run_first() {
    let mut debugger = debugger();
    for _ in 0..3 {
        let turn = command(&mut debugger, DebuggerCommand::Continue);
        assert_eq!(turn, Turn { reports: vec![Report::RunProcessFirst], action: Action::Prompt });
        assert!(!debugger.has_tracee());
        assert_eq!(debugger.breakpoint_count(), 0);
    }
    command(&mut debugger, DebuggerCommand::BreakPoint("main".to_string()));
    let turn = command(&mut debugger, DebuggerCommand::Continue);
    assert_eq!(turn, Turn { reports: vec![Report::RunProcessFirst], action: Action::Prompt });
    assert!(!debugger.has_tracee());
    assert_eq!(debugger.breakpoint(0), Some(Breakpoint { addr: 0x1000, orig_byte: None }));
}

#[test]
fn run_asks_for_the_target_to_be_started() {
    let mut debugger = debugger();
    let turn = command(&mut debugger, DebuggerCommand::Run(vec!["a".to_string(), "b".to_string()]));
    assert_eq!(
        turn,
        Turn { reports: vec![], action: Action::Spawn(vec!["a".to_string(), "b".to_string()]) }
    );
    assert!(!debugger.has_tracee());
    let turn = command(&mut debugger, DebuggerCommand::Run(vec![]));
    assert_eq!(turn, Turn { reports: vec![], action: Action::Spawn(vec![]) });
}

#[test]
fn exit_with_code_zero_is_reported_as_such() {
    let mut debugger = debugger();
    assert_eq!(debugger.print_status(Ok(Status::Exited(0))), Report::Exited(0));
    assert_eq!(debugger.print_status(Ok(Status::Exited(3))), Report::Exited(3));
    let turn = command(&mut debugger, DebuggerCommand::Run(vec![]));
    assert_eq!(turn.action, Action::Spawn(vec![]));
    assert!(!debugger.has_tracee());
    assert_eq!(debugger.stopped_at(), None);
}

#[test]
fn statuses_are_reported_with_their_source_line() {
    let debugger = debugger();
    let trap = Signal { number: SIGTRAP };
    assert_eq!(
        debugger.print_status(Ok(Status::Stopped(trap, 0x1000))),
        Report::Stopped { signal: trap, ip: 0x1000, line: Some(main_line()) }
    );
    assert_eq!(
        debugger.print_status(Ok(Status::Stopped(trap, 0x1004))),
        Report::Stopped { signal: trap, ip: 0x1004, line: Some(main_line()) }
    );
    assert_eq!(
        debugger.print_status(Ok(Status::Stopped(trap, 0x7fff_0000))),
        Report::Stopped { signal: trap, ip: 0x7fff_0000, line: None }
    );
    assert_eq!(
        debugger.print_status(Ok(Status::Signaled(Signal { number: 11 }))),
        Report::Signaled(Signal { number: 11 })
    );
    assert_eq!(
        debugger.print_status(Err(Error::TraceOperationFailed)),
        Report::Failed(Error::TraceOperationFailed)
    );
}

#[test]
fn break_main_stops_at_the_entry_of_main() {
    let mut debugger = debugger();
    let turn = command(&mut debugger, DebuggerCommand::BreakPoint("main".to_string()));
    assert_eq!(
        turn,
        Turn {
            reports: vec![Report::BreakpointSet { index: 0, addr: 0x1000 }],
            action: Action::Prompt
        }
    );
    assert_eq!(debugger.breakpoint(0), Some(Breakpoint { addr: 0x1000, orig_byte: None }));
    let mut planted = BreakpointTable::new();
    planted.insert(0x1000);
    planted.set_original(0, 0x55);
    let trap = Signal { number: SIGTRAP };
    let raw = Status::Stopped(trap, 0x1001);
    assert_eq!(planted.hit(raw), Some(0x1000));
    assert_eq!(
        debugger.print_status(Ok(Status::Stopped(trap, 0x1000))),
        Report::Stopped { signal: trap, ip: 0x1000, line: Some(main_line()) }
    );
}

#[test]
fn continue_from_a_breakpoint_steps_over_it_first() {
    let mut planted = BreakpointTable::new();
    planted.insert(0x1000);
    planted.insert(0x1008);
    planted.set_original(0, 0x55);
    planted.set_original(1, 0x48);
    assert_eq!(planted.planted_byte(0x1000), Some(0x55));
    assert_eq!(planted.planted_byte(0x1008), Some(0x48));
    assert_eq!(planted.planted_byte(0x1001), None);
    assert_eq!(planted.planted_byte(0x1004), None);
    let trap = Signal { number: SIGTRAP };
    assert_eq!(planted.hit(Status::Stopped(trap, 0x1001)), Some(0x1000));
    assert_eq!(planted.hit(Status::Stopped(trap, 0x1002)), None);
    assert_eq!(planted.hit(Status::Stopped(trap, 0x1009)), Some(0x1008));
    assert_eq!(planted.hit(Status::Exited(0)), None);
}

#[test]
fn unresolved_location_is_reported_and_changes_nothing() {
    let mut debugger = debugger();
    let turn = command(&mut debugger, DebuggerCommand::BreakPoint("nosuchfunc".to_string()));
    assert_eq!(
        turn,
        Turn { reports: vec![Report::Failed(Error::UnresolvedLocation)], action: Action::Prompt }
    );
    assert_eq!(debugger.breakpoint_count(), 0);
    command(&mut debugger, DebuggerCommand::BreakPoint("helper".to_string()));
    let turn = command(&mut debugger, DebuggerCommand::BreakPoint("*nothex".to_string()));
    assert_eq!(turn.reports, vec![Report::Failed(Error::UnresolvedLocation)]);
    assert_eq!(debugger.breakpoint_count(), 1);
    assert_eq!(debugger.breakpoint(0), Some(Breakpoint { addr: 0x1040, orig_byte: None }));
    assert!(!debugger.has_tracee());
}

#[test]
fn breakpoints_at_one_address_share_an_index() {
    let mut debugger = debugger();
    let first = command(&mut debugger, DebuggerCommand::BreakPoint("main".to_string()));
    let other = command(&mut debugger, DebuggerCommand::BreakPoint("11".to_string()));
    let again = command(&mut debugger, DebuggerCommand::BreakPoint("*0x1000".to_string()));
    let line = command(&mut debugger, DebuggerCommand::BreakPoint("10".to_string()));
    assert_eq!(first.reports, vec![Report::BreakpointSet { index: 0, addr: 0x1000 }]);
    assert_eq!(other.reports, vec![Report::BreakpointSet { index: 1, addr: 0x1008 }]);
    assert_eq!(again.reports, first.reports);
    assert_eq!(line.reports, first.reports);
    assert_eq!(debugger.breakpoint_count(), 2);
}

#[test]
fn backtrace_without_a_target_shows_nothing() {
    let mut debugger = debugger();
    let turn = command(&mut debugger, DebuggerCommand::Backtrace);
    assert_eq!(turn, Turn { reports: vec![], action: Action::Prompt });
    assert!(!debugger.has_tracee());
}

#[test]
fn quit_without_a_target_ends_at_once() {
    let mut debugger = debugger();
    let turn = command(&mut debugger, DebuggerCommand::Quit);
    assert_eq!(turn, Turn { reports: vec![], action: Action::Exit });
    assert!(!debugger.has_tracee());
}

#[test]
fn failed_start_is_reported_and_leaves_no_target() {
    let mut debugger = debugger();
    command(&mut debugger, DebuggerCommand::BreakPoint("main".to_string()));
    let turn = debugger.run(Event::SpawnFailed);
    assert_eq!(
        turn,
        Turn { reports: vec![Report::Failed(Error::StartupFailed)], action: Action::Prompt }
    );
    assert!(!debugger.has_tracee());
    for pid in [0, -1, i32::MIN, NO_SUCH_PROCESS] {
        let turn = debugger.run(Event::Spawned(pid));
        assert_eq!(
            turn,
            Turn { reports: vec![Report::Failed(Error::StartupFailed)], action: Action::Prompt }
        );
        assert!(!debugger.has_tracee());
        assert_eq!(debugger.breakpoint(0), Some(Breakpoint { addr: 0x1000, orig_byte: None }));
    }
    let turn = command(&mut debugger, DebuggerCommand::Continue);
    assert_eq!(turn.reports, vec![Report::RunProcessFirst]);
}

#[test]
fn a_process_that_is_no_child_cannot_be_taken_over() {
    let mut table = BreakpointTable::new();
    table.insert(0x1000);
    table.set_original(0, 0x55);
    assert!(matches!(Inferior::new(NO_SUCH_PROCESS, &mut table), Err(Error::StartupFailed)));
    assert_eq!(table.get(0), Some(Breakpoint { addr: 0x1000, orig_byte: None }));
    assert!(matches!(Inferior::new(0, &mut table), Err(Error::StartupFailed)));
    assert!(matches!(Inferior::new(-7, &mut table), Err(Error::StartupFailed)));
}

#[test]
fn process_id_that_names_no_process_is_a_failed_start() {
    for pid in [0, -1, -4242, i32::MIN] {
        let mut debugger = debugger();
        command(&mut debugger, DebuggerCommand::BreakPoint("helper".to_string()));
        let turn = debugger.run(Event::Spawned(pid));
        assert_eq!(turn.reports, vec![Report::Failed(Error::StartupFailed)]);
        assert_eq!(turn.action, Action::Prompt);
        assert!(!debugger.has_tracee());
        assert_eq!(debugger.breakpoint_count(), 1);
    }
}
