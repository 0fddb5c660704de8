use deet::breakpoints::{due, news_after, Breakpoint, BreakpointTable, Request, TRAP_BYTE};
use deet::error::Error;
use deet::status::{Signal, Status, SIGTRAP};
use deet::symbols::{Function, Line, SymbolIndex};

fn symbols() -> SymbolIndex {
    SymbolIndex::new(
        vec![
            Function { name: "main".to_string(), address: 0x1000, text_length: 0x40 },
            Function { name: "helper".to_string(), address: 0x1040, text_length: 0x20 },
        ],
        vec![
            Line { file: "demo.c".to_string(), number: 10, address: 0x1000 },
            Line { file: "demo.c".to_string(), number: 11, address: 0x1008 },
            Line { file: "demo.c".to_string(), number: 20, address: 0x1040 },
        ],
    )
}

#[test]
fn trap_byte_is_the_one_byte_interrupt() {
    assert_eq!(TRAP_BYTE, 0xcc);
}

#[test]
fn indices_follow_the_order_of_setting() {
    let symbols = symbols();
    let mut table = BreakpointTable::new();
    assert_eq!(table.len(), 0);
    assert_eq!(table.add("helper", &symbols), Ok(0));
    assert_eq!(table.add("11", &symbols), Ok(1));
    assert_eq!(table.add("*0x2000", &symbols), Ok(2));
    assert_eq!(table.len(), 3);
    assert_eq!(table.get(0), Some(Breakpoint { addr: 0x1040, orig_byte: None }));
    assert_eq!(table.get(1), Some(Breakpoint { addr: 0x1008, orig_byte: None }));
    assert_eq!(table.get(2), Some(Breakpoint { addr: 0x2000, orig_byte: None }));
    assert_eq!(table.get(3), None);
    assert_eq!(table.index_of(0x1008), Some(1));
    assert_eq!(table.index_of(0x1009), None);
}

#[test]
fn same_address_twice_is_one_entry() {
    let symbols = symbols();
    let mut table = BreakpointTable::new();
    assert_eq!(table.add("*0x2000", &symbols), Ok(0));
    assert_eq!(table.add("main", &symbols), Ok(1));
    assert_eq!(table.add("*0x1000", &symbols), Ok(1));
    assert_eq!(table.add("10", &symbols), Ok(1));
    assert_eq!(table.add("*4096", &symbols), Ok(1));
    assert_eq!(table.add("main", &symbols), Ok(1));
    assert_eq!(table.add("*0x2000", &symbols), Ok(0));
    assert_eq!(table.len(), 2);
    assert_eq!(table.insert(0x1000), 1);
    assert_eq!(table.insert(0x3000), 2);
    assert_eq!(table.insert(0x3000), 2);
    assert_eq!(table.len(), 3);
}

#[test]
fn name_and_literal_store_the_same_address() {
    let symbols = symbols();
    let mut by_name = BreakpointTable::new();
    let mut by_literal = BreakpointTable::new();
    assert_eq!(by_name.add("main", &symbols), Ok(0));
    assert_eq!(by_literal.add("*0x1000", &symbols), Ok(0));
    assert_eq!(by_name.get(0), by_literal.get(0));
    assert_eq!(by_name.get(0).map(|b| b.addr), Some(0x1000));
}

#[test]
fn unresolved_location_adds_nothing() {
    let symbols = symbols();
    let mut table = BreakpointTable::new();
    assert_eq!(table.add("main", &symbols), Ok(0));
    assert_eq!(table.add("nosuchfunc", &symbols), Err(Error::UnresolvedLocation));
    assert_eq!(table.add("*zzz", &symbols), Err(Error::UnresolvedLocation));
    assert_eq!(table.add("12", &symbols), Err(Error::UnresolvedLocation));
    assert_eq!(table.add("", &symbols), Err(Error::UnresolvedLocation));
    assert_eq!(table.len(), 1);
    assert_eq!(table.get(0), Some(Breakpoint { addr: 0x1000, orig_byte: None }));
}

#[test]
fn displaced_bytes_are_recorded_and_forgotten() {
    let mut table = BreakpointTable::new();
    table.insert(0x1000);
    table.insert(0x1008);
    assert_eq!(table.planted_byte(0x1000), None);
    table.set_original(0, 0x55);
    assert_eq!(table.get(0), Some(Breakpoint { addr: 0x1000, orig_byte: Some(0x55) }));
    assert_eq!(table.get(1), Some(Breakpoint { addr: 0x1008, orig_byte: None }));
    assert_eq!(table.planted_byte(0x1000), Some(0x55));
    assert_eq!(table.planted_byte(0x1008), None);
    assert_eq!(table.planted_byte(0x1001), None);
    table.set_original(1, 0x48);
    table.forget_originals();
    assert_eq!(table.get(0), Some(Breakpoint { addr: 0x1000, orig_byte: None }));
    assert_eq!(table.get(1), Some(Breakpoint { addr: 0x1008, orig_byte: None }));
    assert_eq!(table.len(), 2);
}

#[test]
fn a_hit_is_a_trap_one_byte_past_a_planted_breakpoint() {
    let trap = Signal { number: SIGTRAP };
    let segv = Signal { number: 11 };
    let mut table = BreakpointTable::new();
    table.insert(0x1000);
    table.insert(0x2000);
    table.insert(0);
    table.set_original(0, 0x55);
    table.set_original(2, 0x90);
    assert_eq!(table.hit(Status::Stopped(trap, 0x1001)), Some(0x1000));
    assert_eq!(table.hit(Status::Stopped(trap, 1)), Some(0));
    assert_eq!(table.hit(Status::Stopped(trap, 0x1000)), None);
    assert_eq!(table.hit(Status::Stopped(trap, 0x1002)), None);
    assert_eq!(table.hit(Status::Stopped(trap, 0x2001)), None);
    assert_eq!(table.hit(Status::Stopped(trap, 0)), None);
    assert_eq!(table.hit(Status::Stopped(segv, 0x1001)), None);
    assert_eq!(table.hit(Status::Exited(0)), None);
    assert_eq!(table.hit(Status::Signaled(trap)), None);
}

#[test]
fn resuming_on_a_planted_breakpoint_steps_over_it_in_order() {
    let mut table = BreakpointTable::new();
    table.insert(0x1000);
    table.insert(0x2000);
    table.set_original(0, 0x55);
    assert_eq!(
        table.resume_plan(0x1000),
        vec![
            Request::WriteByte { addr: 0x1000, byte: 0x55 },
            Request::Step,
            Request::WriteByte { addr: 0x1000, byte: 0xcc },
            Request::Continue,
        ]
    );
    assert_eq!(table.resume_plan(0x1001), vec![Request::Continue]);
    assert_eq!(table.resume_plan(0x2000), vec![Request::Continue]);
    assert_eq!(table.resume_plan(0), vec![Request::Continue]);
    table.forget_originals();
    assert_eq!(table.resume_plan(0x1000), vec![Request::Continue]);
    assert_eq!(BreakpointTable::new().resume_plan(0x1000), vec![Request::Continue]);
}

#[test]
fn after_news_of_the_step_the_tracee_is_not_let_run() {
    let write = Request::WriteByte { addr: 0x1000, byte: 0xcc };
    let stopped = Status::Stopped(Signal { number: 11 }, 0x1000);
    for request in [write, Request::Step, Request::Continue] {
        assert!(due(request, None));
        assert!(!due(request, Some(Status::Exited(0))));
        assert!(!due(request, Some(Status::Signaled(Signal { number: 9 }))));
    }
    assert!(due(write, Some(stopped)));
    assert!(!due(Request::Step, Some(stopped)));
    assert!(!due(Request::Continue, Some(stopped)));
}

#[test]
fn a_failed_request_fails_the_whole_and_news_stays() {
    let news = Some(Status::Stopped(Signal { number: 11 }, 0x1000));
    let exit = Some(Status::Exited(0));
    assert_eq!(news_after(None, Ok(None)), Ok(None));
    assert_eq!(news_after(news, Ok(None)), Ok(news));
    assert_eq!(news_after(None, Ok(exit)), Ok(exit));
    assert_eq!(news_after(news, Ok(exit)), Ok(exit));
    assert_eq!(news_after(None, Err(Error::TraceOperationFailed)), Err(Error::TraceOperationFailed));
    assert_eq!(news_after(news, Err(Error::TraceOperationFailed)), Err(Error::TraceOperationFailed));
}
