use deet::breakpoints::{BreakpointTable, Request};
use deet::command::DebuggerCommand;
use deet::debugger::{Action, Debugger, Event, Report};
use deet::error::Error;
use deet::inferior::Inferior;
use deet::status::{Signal, Status, SIGKILL, SIGTRAP};
use deet::symbols::{Frame, Function, Line, SymbolIndex};
use nix::spawn::{posix_spawn, PosixSpawnAttr, PosixSpawnFileActions};
use nix::sys::ptrace;
use nix::sys::signal::{kill, Signal as SystemSignal};
use nix::sys::wait::{waitpid, WaitStatus};
use nix::unistd::Pid;
use std::time::{Duration, Instant};

const NANOSLEEP: u64 = 35;
const RESTART_SYSCALL: u64 = 219;
const CLOCK_NANOSLEEP: u64 = 230;

fn pause(milliseconds: u64) {
    let started = Instant::now();
    while started.elapsed() < Duration::from_millis(milliseconds) {
        std::hint::spin_loop();
    }
}

/// Starts `sleep` for the given time, attaches to it, and stops it once it
/// sleeps: it has loaded its image and stands in the system call that
/// waits. Returns the process, stopped, and the instruction pointer at
/// which it stands.
fn asleep(seconds: &core::ffi::CStr) -> (Pid, u64) {
    let actions = PosixSpawnFileActions::init().unwrap();
    let attr = PosixSpawnAttr::init().unwrap();
    let args = [c"sleep", seconds];
    let pid = posix_spawn(c"/bin/sleep", &actions, &attr, &args, &args[0..0]).unwrap();
    pause(100);
    ptrace::attach(pid).unwrap();
    let started = Instant::now();
    loop {
        match waitpid(pid, None).unwrap() {
            WaitStatus::Stopped(_, SystemSignal::SIGSTOP) => {
                let registers = ptrace::getregs(pid).unwrap();
                let call = registers.orig_rax;
                if call == NANOSLEEP || call == CLOCK_NANOSLEEP || call == RESTART_SYSCALL {
                    return (pid, registers.rip);
                }
                assert!(started.elapsed() < Duration::from_secs(10), "the child never slept");
                ptrace::cont(pid, None).unwrap();
                pause(20);
                kill(pid, SystemSignal::SIGSTOP).unwrap();
            }
            WaitStatus::Stopped(_, _) => ptrace::cont(pid, None).unwrap(),
            other => panic!("the child did not stop: {:?}", other),
        }
    }
}

/// Starts `sleep` for the given time and leaves it, asleep, with a trap
/// signal on its way: the stop that a debugger expects first of a tracee.
/// Returns the process and the instruction pointer at which it stands. The
/// process runs when this returns, and stops on the trap a moment later:
/// nothing can be asked of it before it was waited for.
fn sleeper(seconds: &core::ffi::CStr) -> (Pid, u64) {
    let (pid, ip) = asleep(seconds);
    kill(pid, SystemSignal::SIGTRAP).unwrap();
    ptrace::cont(pid, None).unwrap();
    (pid, ip)
}

fn command(debugger: &mut Debugger, command: DebuggerCommand) -> Vec<Report> {
    let turn = debugger.run(Event::Command(command));
    assert_eq!(turn.action, Action::Prompt);
    turn.reports
}

#[test]
fn target_without_breakpoints_runs_to_its_exit() {
    let (pid, _) = sleeper(c"2");
    let mut debugger = Debugger::new("/bin/sleep", SymbolIndex::new(vec![], vec![]));
    let turn = debugger.run(Event::Spawned(pid.as_raw()));
    assert_eq!(turn.action, Action::Prompt);
    assert_eq!(turn.reports, vec![Report::Exited(0)]);
    assert!(debugger.has_tracee());
    assert_eq!(debugger.stopped_at(), None);
    assert_eq!(command(&mut debugger, DebuggerCommand::Continue), vec![Report::RunProcessFirst]);
    let turn = debugger.run(Event::Command(DebuggerCommand::Run(vec![])));
    assert_eq!(turn.action, Action::Spawn(vec![]));
    assert!(!debugger.has_tracee());
}

#[test]
fn target_stops_at_a_breakpoint_and_goes_on_past_it() {
    let (pid, ip) = sleeper(c"2");
    let trap = Signal { number: SIGTRAP };
    let mut debugger = Debugger::new("/bin/sleep", SymbolIndex::new(vec![], vec![]));
    let location = format!("*{:#x}", ip);
    assert_eq!(
        command(&mut debugger, DebuggerCommand::BreakPoint(location)),
        vec![Report::BreakpointSet { index: 0, addr: ip }]
    );
    let turn = debugger.run(Event::Spawned(pid.as_raw()));
    assert_eq!(turn.action, Action::Prompt);
    assert_eq!(turn.reports, vec![Report::Stopped { signal: trap, ip, line: None }]);
    assert_eq!(debugger.stopped_at(), Some(ip));
    assert!(debugger.breakpoint(0).unwrap().orig_byte.is_some());
    assert_ne!(debugger.breakpoint(0).unwrap().orig_byte, Some(0xcc));
    let word = ptrace::read(pid, (ip & !7) as ptrace::AddressType).unwrap() as u64;
    assert_eq!((word >> (8 * (ip % 8))) & 0xff, 0xcc);
    let mut last = command(&mut debugger, DebuggerCommand::Continue);
    let mut stops = 0;
    while last != vec![Report::Exited(0)] {
        assert_eq!(last, vec![Report::Stopped { signal: trap, ip, line: None }]);
        stops += 1;
        assert!(stops < 100);
        last = command(&mut debugger, DebuggerCommand::Continue);
    }
    assert_eq!(debugger.stopped_at(), None);
    assert_eq!(command(&mut debugger, DebuggerCommand::Continue), vec![Report::RunProcessFirst]);
}

#[test]
fn break_main_then_run_stops_at_main_with_its_source_line() {
    let (pid, ip) = sleeper(c"2");
    let trap = Signal { number: SIGTRAP };
    let here = Line { file: "sleep.c".to_string(), number: 42, address: ip };
    let symbols = SymbolIndex::new(
        vec![Function { name: "main".to_string(), address: ip, text_length: 16 }],
        vec![here.clone()],
    );
    let mut debugger = Debugger::new("/bin/sleep", symbols);
    assert_eq!(
        command(&mut debugger, DebuggerCommand::BreakPoint("main".to_string())),
        vec![Report::BreakpointSet { index: 0, addr: ip }]
    );
    let turn = debugger.run(Event::Command(DebuggerCommand::Run(vec!["1".to_string()])));
    assert_eq!(turn.action, Action::Spawn(vec!["1".to_string()]));
    let turn = debugger.run(Event::Spawned(pid.as_raw()));
    assert_eq!(turn.reports, vec![Report::Stopped { signal: trap, ip, line: Some(here.clone()) }]);
    assert_eq!(ptrace::getregs(pid).unwrap().rip, ip);
    let bt = command(&mut debugger, DebuggerCommand::Backtrace);
    assert_eq!(
        bt,
        vec![Report::Frame(Frame { ip, function: Some("main".to_string()), line: Some(here) })]
    );
    let mut last = command(&mut debugger, DebuggerCommand::Continue);
    let mut stops = 0;
    while last != vec![Report::Exited(0)] {
        assert!(matches!(last[0], Report::Stopped { .. }));
        assert_eq!(last.len(), 1);
        stops += 1;
        assert!(stops < 100);
        last = command(&mut debugger, DebuggerCommand::Continue);
    }
    assert!(debugger.has_tracee());
    assert_eq!(debugger.stopped_at(), None);
}

#[test]
fn breakpoint_set_in_a_stopped_target_is_planted_at_once() {
    let (pid, ip) = sleeper(c"2");
    let trap = Signal { number: SIGTRAP };
    let mut debugger = Debugger::new("/bin/sleep", SymbolIndex::new(vec![], vec![]));
    command(&mut debugger, DebuggerCommand::BreakPoint(format!("*{:#x}", ip)));
    let turn = debugger.run(Event::Spawned(pid.as_raw()));
    assert_eq!(turn.reports, vec![Report::Stopped { signal: trap, ip, line: None }]);
    let before = ptrace::read(pid, ((ip + 16) & !7) as ptrace::AddressType).unwrap() as u64;
    let reports = command(&mut debugger, DebuggerCommand::BreakPoint(format!("*{}", ip + 17)));
    assert_eq!(reports, vec![Report::BreakpointSet { index: 1, addr: ip + 17 }]);
    let after = ptrace::read(pid, ((ip + 16) & !7) as ptrace::AddressType).unwrap() as u64;
    let shift = 8 * ((ip + 17) % 8);
    assert_eq!((after >> shift) & 0xff, 0xcc);
    assert_eq!(after & !(0xff << shift), before & !(0xff << shift));
    let planted = debugger.breakpoint(1).unwrap();
    assert_eq!(planted.orig_byte, Some(((before >> shift) & 0xff) as u8));
    let again = command(&mut debugger, DebuggerCommand::BreakPoint(format!("*{}", ip + 17)));
    assert_eq!(again, reports);
    assert_eq!(debugger.breakpoint(1), Some(planted));
    let bt = command(&mut debugger, DebuggerCommand::Backtrace);
    assert_eq!(
        bt,
        vec![Report::Frame(Frame { ip, function: None, line: None })]
    );
    let turn = debugger.run(Event::Command(DebuggerCommand::Quit));
    assert_eq!(turn.action, Action::Exit);
    assert_eq!(turn.reports, vec![Report::Signaled(Signal { number: SIGKILL })]);
    assert_eq!(debugger.stopped_at(), None);
    let turn = debugger.run(Event::Command(DebuggerCommand::Quit));
    assert_eq!(turn.reports, vec![]);
}

#[test]
fn run_replaces_a_stopped_target() {
    let (pid, ip) = sleeper(c"5");
    let mut debugger = Debugger::new("/bin/sleep", SymbolIndex::new(vec![], vec![]));
    command(&mut debugger, DebuggerCommand::BreakPoint(format!("*{:#x}", ip)));
    debugger.run(Event::Spawned(pid.as_raw()));
    assert_eq!(debugger.stopped_at(), Some(ip));
    let turn = debugger.run(Event::Command(DebuggerCommand::Run(vec!["x".to_string()])));
    assert_eq!(turn.action, Action::Spawn(vec!["x".to_string()]));
    assert_eq!(turn.reports, vec![]);
    assert!(!debugger.has_tracee());
    assert_eq!(debugger.breakpoint(0).unwrap().orig_byte, None);
    assert!(waitpid(pid, None).is_err());
}

#[test]
fn child_that_does_not_stop_on_a_trap_first_is_refused() {
    let (pid, _) = asleep(c"5");
    kill(pid, SystemSignal::SIGSTOP).unwrap();
    ptrace::cont(pid, None).unwrap();
    let mut debugger = Debugger::new("/bin/sleep", SymbolIndex::new(vec![], vec![]));
    let turn = debugger.run(Event::Spawned(pid.as_raw()));
    assert_eq!(turn.reports, vec![Report::Failed(deet::error::Error::StartupFailed)]);
    assert!(!debugger.has_tracee());
    assert!(waitpid(pid, None).is_err());
}

#[test]
fn failed_tracing_call_is_reported_and_the_target_given_up() {
    let (pid, ip) = sleeper(c"5");
    let trap = Signal { number: SIGTRAP };
    let mut debugger = Debugger::new("/bin/sleep", SymbolIndex::new(vec![], vec![]));
    command(&mut debugger, DebuggerCommand::BreakPoint(format!("*{:#x}", ip)));
    let turn = debugger.run(Event::Spawned(pid.as_raw()));
    assert_eq!(turn.reports, vec![Report::Stopped { signal: trap, ip, line: None }]);
    assert!(debugger.breakpoint(0).unwrap().orig_byte.is_some());
    let reports = command(&mut debugger, DebuggerCommand::BreakPoint("*8".to_string()));
    assert_eq!(
        reports,
        vec![
            Report::BreakpointSet { index: 1, addr: 8 },
            Report::Failed(deet::error::Error::TraceOperationFailed)
        ]
    );
    assert!(!debugger.has_tracee());
    assert_eq!(debugger.breakpoint_count(), 2);
    assert_eq!(debugger.breakpoint(0).unwrap().orig_byte, None);
    assert_eq!(debugger.breakpoint(1).unwrap().orig_byte, None);
    assert!(waitpid(pid, None).is_err());
    assert_eq!(command(&mut debugger, DebuggerCommand::Continue), vec![Report::RunProcessFirst]);
    assert_eq!(command(&mut debugger, DebuggerCommand::Backtrace), vec![]);
}

#[test]
fn one_byte_is_written_and_put_back_in_a_live_target() {
    let (pid, ip) = sleeper(c"2");
    let mut table = BreakpointTable::new();
    let mut inferior = Inferior::new(pid.as_raw(), &mut table).unwrap();
    assert_eq!(inferior.pid(), pid.as_raw());
    assert!(inferior.stopped_at().is_some());
    assert!(!inferior.has_ended());
    for addr in [ip, ip + 3, ip + 9] {
        let shift = 8 * (addr % 8);
        let before = inferior.read_word(addr).unwrap();
        assert_eq!(before, ptrace::read(pid, (addr & !7) as ptrace::AddressType).unwrap() as u64);
        let held = ((before >> shift) & 0xff) as u8;
        let with = |val: u64| (before & !(0xff << shift)) | (val << shift);
        assert_eq!(inferior.write_byte(addr, 0xcc), Ok(held));
        assert_eq!(inferior.read_word(addr), Ok(with(0xcc)));
        assert_eq!(inferior.write_byte(addr, held), Ok(0xcc));
        assert_eq!(inferior.read_word(addr), Ok(before));
        assert_eq!(inferior.write_patched(before, addr, 0x90), Ok(held));
        assert_eq!(inferior.read_word(addr), Ok(with(0x90)));
        assert_eq!(inferior.write_patched(with(0x90), addr, held), Ok(0x90));
        assert_eq!(inferior.read_word(addr), Ok(before));
    }
    assert_eq!(inferior.write_byte(8, 0xcc), Err(Error::TraceOperationFailed));
    assert_eq!(inferior.stopped_at(), None);
    assert_eq!(inferior.read_word(8), Err(Error::TraceOperationFailed));
    assert_eq!(inferior.step(), Ok(()));
    assert!(matches!(inferior.wait(None), Ok(Status::Stopped(Signal { number: SIGTRAP }, _))));
    assert_eq!(inferior.cont(), Ok(()));
    assert_eq!(inferior.wait(None), Ok(Status::Exited(0)));
    assert_eq!(inferior.wait(None), Err(Error::TraceOperationFailed));
}

#[test]
fn nothing_is_asked_of_a_target_that_has_ended() {
    let (pid, ip) = sleeper(c"5");
    let symbols = SymbolIndex::new(vec![], vec![]);
    let mut table = BreakpointTable::new();
    table.insert(ip);
    let mut inferior = Inferior::new(pid.as_raw(), &mut table).unwrap();
    assert!(table.get(0).unwrap().orig_byte.is_some());
    assert_eq!(inferior.print_backtrace(&symbols).map(|frame| frame.ip), Ok(ip));
    assert_eq!(inferior.kill(), Some(Status::Signaled(Signal { number: SIGKILL })));
    assert!(inferior.has_ended());
    assert_eq!(inferior.stopped_at(), None);
    assert_eq!(inferior.kill(), None);
    assert_eq!(inferior.cont(), Err(Error::TraceOperationFailed));
    assert_eq!(inferior.step(), Err(Error::TraceOperationFailed));
    assert_eq!(inferior.wait(None), Err(Error::TraceOperationFailed));
    assert_eq!(inferior.read_word(ip), Err(Error::TraceOperationFailed));
    assert_eq!(inferior.write_byte(ip, 0xcc), Err(Error::TraceOperationFailed));
    assert_eq!(inferior.write_patched(0, ip, 0xcc), Err(Error::TraceOperationFailed));
    assert_eq!(inferior.set_ip(ip), Err(Error::TraceOperationFailed));
    assert!(inferior.print_backtrace(&symbols).is_err());
    assert_eq!(inferior.resume(&table), Err(Error::TraceOperationFailed));
    assert!(inferior.has_ended());
    assert_eq!(inferior.pid(), pid.as_raw());
}

#[test]
fn requests_of_a_step_over_are_carried_out_one_by_one() {
    let (pid, ip) = sleeper(c"2");
    let peek = |addr: u64| {
        let word = ptrace::read(pid, (addr & !7) as ptrace::AddressType).unwrap() as u64;
        ((word >> (8 * (addr % 8))) & 0xff) as u8
    };
    let mut table = BreakpointTable::new();
    let mut inferior = Inferior::new(pid.as_raw(), &mut table).unwrap();
    assert_eq!(inferior.stopped_at(), Some(ip));
    let held = peek(ip);
    table.insert(ip);
    assert_eq!(inferior.plant_all(&mut table), Ok(()));
    assert_eq!(inferior.stopped_at(), Some(ip));
    assert_eq!(table.get(0).unwrap().orig_byte, Some(held));
    assert_eq!(peek(ip), 0xcc);
    let plan = table.resume_plan(ip);
    assert_eq!(
        plan,
        vec![
            Request::WriteByte { addr: ip, byte: held },
            Request::Step,
            Request::WriteByte { addr: ip, byte: 0xcc },
            Request::Continue,
        ]
    );
    assert_eq!(inferior.carry_out(plan[0]), Ok(None));
    assert_eq!(peek(ip), held);
    assert_eq!(inferior.stopped_at(), Some(ip));
    assert_eq!(inferior.carry_out(plan[1]), Ok(None));
    assert_eq!(peek(ip), held);
    assert!(inferior.stopped_at().is_some());
    assert_eq!(inferior.carry_out(plan[2]), Ok(None));
    assert_eq!(peek(ip), 0xcc);
    assert_eq!(inferior.carry_out(plan[3]), Ok(None));
    assert_eq!(inferior.stopped_at(), None);
    assert!(!inferior.has_ended());
    let seen = inferior.observe(&table).unwrap();
    assert!(matches!(seen, Status::Stopped(_, _) | Status::Exited(0)));
    if let Status::Stopped(signal, at) = seen {
        assert_eq!(signal, Signal { number: SIGTRAP });
        assert_eq!(at, ip);
        assert_eq!(ptrace::getregs(pid).unwrap().rip, ip);
    }
    inferior.kill();
    assert_eq!(inferior.carry_out(plan[3]), Err(Error::TraceOperationFailed));
    assert_eq!(inferior.carry_out(plan[1]), Err(Error::TraceOperationFailed));
    assert_eq!(inferior.carry_out(plan[0]), Err(Error::TraceOperationFailed));
    assert_eq!(inferior.observe(&table), Err(Error::TraceOperationFailed));
}

#[test]
fn words_are_written_where_they_were_read() {
    let (pid, ip) = sleeper(c"5");
    let mut table = BreakpointTable::new();
    let mut inferior = Inferior::new(pid.as_raw(), &mut table).unwrap();
    let before = inferior.read_word(ip + 5).unwrap();
    let start = (ip + 5) & !7;
    let next = inferior.read_word(start + 8).unwrap();
    assert_eq!(inferior.write_word(start, !before), Ok(()));
    assert_eq!(inferior.read_word(start), Ok(!before));
    assert_eq!(inferior.read_word(start + 7), Ok(!before));
    assert_eq!(inferior.read_word(start + 8), Ok(next));
    assert_eq!(inferior.write_word(start, before), Ok(()));
    assert_eq!(inferior.read_word(ip + 5), Ok(before));
    assert_eq!(inferior.plant_all(&mut table), Ok(()));
    assert_eq!(inferior.write_word(8, 0), Err(Error::TraceOperationFailed));
    assert_eq!(inferior.stopped_at(), None);
    inferior.kill();
    assert_eq!(inferior.write_word(start, before), Err(Error::TraceOperationFailed));
    table.insert(ip);
    assert_eq!(inferior.plant_all(&mut table), Err(Error::TraceOperationFailed));
    assert_eq!(table.get(0).unwrap().orig_byte, None);
}
