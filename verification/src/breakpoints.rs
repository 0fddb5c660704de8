//! The breakpoint table of a session.
//!
//! Breakpoints are kept in the order in which they were set, and the
//! position of a breakpoint in that order is the index shown to the user.
//! The table outlives every tracee: each freshly started one gets all
//! recorded addresses patched again. No address is held twice.

use crate::error::Error;
use crate::location::{
    address_in,
    is_literal,
    lemma_name_and_literal_agree,
    parse_number,
    resolve,
    resolve_location,
};
use crate::status::Status;
use crate::symbols::SymbolIndex;
use crate::word::{
    aligned,
    lemma_patch_and_restore,
    lemma_patch_changes_one_byte,
    patched_memory,
    word_mapped,
    Memory,
};
use vstd::prelude::*;

verus! {

/// The single-byte trap instruction that a breakpoint plants.
pub const TRAP_BYTE: u8 = 0xcc;

/// One breakpoint: where it is, and the byte that the trap instruction
/// displaced there. The byte is known only while the trap is planted in a
/// live tracee.
#[derive(Clone, Copy, Debug, PartialEq, Eq)]
pub struct Breakpoint {
    pub addr: u64,
    pub orig_byte: Option<u8>,
}

/// The position of the breakpoint at `addr` among `entries`.
pub open spec fn slot_of(entries: Seq<Breakpoint>, addr: u64) -> Option<int> {
    entries.map_values(|b: Breakpoint| b.addr).index_of_first(addr)
}

/// `entries` after a breakpoint at `addr` was asked for: unchanged if one is
/// already there, longer by one unplanted breakpoint if not.
pub open spec fn with_breakpoint(entries: Seq<Breakpoint>, addr: u64) -> Seq<Breakpoint> {
    if slot_of(entries, addr).is_some() {
        entries
    } else {
        entries.push(Breakpoint { addr, orig_byte: None })
    }
}

/// The index reported for a breakpoint at `addr`: that of the entry already
/// there, or the one that a new entry gets.
pub open spec fn index_for(entries: Seq<Breakpoint>, addr: u64) -> int {
    match slot_of(entries, addr) {
        Some(i) => i,
        None => entries.len() as int,
    }
}

/// Whether no two of `entries` share an address.
pub open spec fn distinct_addresses(entries: Seq<Breakpoint>) -> bool {
    forall|i: int, j: int|
        0 <= i < entries.len() && 0 <= j < entries.len() && i != j ==> (#[trigger] entries[i]).addr
            != (#[trigger] entries[j]).addr
}

/// What `slot_of` finds: the one position that holds `addr`, or nothing if
/// no position does.
pub proof fn lemma_slot_of(entries: Seq<Breakpoint>, addr: u64)
    ensures
        match slot_of(entries, addr) {
            Some(i) => 0 <= i < entries.len() && entries[i].addr == addr && forall|j: int|
                0 <= j < i ==> (#[trigger] entries[j]).addr != addr,
            None => forall|j: int| 0 <= j < entries.len() ==> (#[trigger] entries[j]).addr != addr,
        },
{
    let addrs = entries.map_values(|b: Breakpoint| b.addr);
    addrs.index_of_first_ensures(addr);
    match slot_of(entries, addr) {
        Some(i) => {
            assert forall|j: int| 0 <= j < i implies (#[trigger] entries[j]).addr != addr by {
                assert(addrs[j] == entries[j].addr);
            }
        },
        None => {
            assert forall|j: int| 0 <= j < entries.len() implies (#[trigger] entries[j]).addr
                != addr by {
                assert(addrs[j] == entries[j].addr);
                assert(addrs.contains(addrs[j]));
            }
        },
    }
}

/// A position that holds `addr` and has no earlier one doing so is what
/// `slot_of` finds.
pub proof fn lemma_slot_found(entries: Seq<Breakpoint>, addr: u64, i: int)
    requires
        0 <= i < entries.len(),
        entries[i].addr == addr,
        forall|j: int| 0 <= j < i ==> (#[trigger] entries[j]).addr != addr,
    ensures
        slot_of(entries, addr) == Some(i),
{
    let addrs = entries.map_values(|b: Breakpoint| b.addr);
    assert(addrs[i] == addr);
    assert(addrs.contains(addr));
    lemma_slot_of(entries, addr);
    let found = slot_of(entries, addr).unwrap();
    if found < i {
        assert(entries[found].addr != addr);
    }
}

/// Asking for a breakpoint keeps the addresses distinct, leaves every
/// earlier entry in place, and afterwards finds `addr` at the index that
/// was reported.
pub proof fn lemma_with_breakpoint(entries: Seq<Breakpoint>, addr: u64)
    requires
        distinct_addresses(entries),
    ensures
        distinct_addresses(with_breakpoint(entries, addr)),
        entries.is_prefix_of(with_breakpoint(entries, addr)),
        slot_of(with_breakpoint(entries, addr), addr) == Some(index_for(entries, addr)),
{
    lemma_slot_of(entries, addr);
    let after = with_breakpoint(entries, addr);
    if slot_of(entries, addr).is_none() {
        let at = entries.len() as int;
        assert(after[at].addr == addr);
        assert forall|j: int| 0 <= j < at implies (#[trigger] after[j]).addr != addr by {
            assert(after[j] == entries[j]);
        }
        lemma_slot_found(after, addr, at);
        assert forall|i: int, j: int|
            0 <= i < after.len() && 0 <= j < after.len() && i != j implies (#[trigger] after[i]).addr
            != (#[trigger] after[j]).addr by {
            if i < at {
                assert(after[i] == entries[i]);
            }
            if j < at {
                assert(after[j] == entries[j]);
            }
        }
    }
}

/// Two requests for the same address make one entry: the second changes
/// nothing and reports the index that the first reported.
pub proof fn lemma_same_address_twice(entries: Seq<Breakpoint>, addr: u64)
    requires
        distinct_addresses(entries),
    ensures
        with_breakpoint(with_breakpoint(entries, addr), addr) == with_breakpoint(entries, addr),
        index_for(with_breakpoint(entries, addr), addr) == index_for(entries, addr),
{
    lemma_with_breakpoint(entries, addr);
}

/// Two locations that resolve to the same address make one entry, however
/// each of them is written.
pub proof fn lemma_same_target_twice(
    entries: Seq<Breakpoint>,
    symbols: SymbolIndex,
    first: Seq<char>,
    second: Seq<char>,
)
    requires
        distinct_addresses(entries),
        resolve(symbols, first).is_some(),
        resolve(symbols, second) == resolve(symbols, first),
    ensures
        after_add(after_add(entries, symbols, first), symbols, second) == after_add(
            entries,
            symbols,
            first,
        ),
        outcome_of_add(after_add(entries, symbols, first), symbols, second) == outcome_of_add(
            entries,
            symbols,
            first,
        ),
{
    lemma_same_address_twice(entries, resolve(symbols, first).unwrap());
}

/// Setting a breakpoint by the name of a function and by the literal
/// address of its entry point stores the same address under the same index,
/// as long as the name is not also the number of a source line with code.
pub proof fn lemma_name_and_literal_store_the_same(
    entries: Seq<Breakpoint>,
    symbols: SymbolIndex,
    name: Seq<char>,
    literal: Seq<char>,
    entry: u64,
)
    requires
        symbols.function_entry(name) == Some(entry),
        !is_literal(name),
        parse_number(name, 10) matches Some(line) ==> symbols.line_address(line).is_none(),
        is_literal(literal),
        address_in(literal.skip(1)) == Some(entry),
    ensures
        after_add(entries, symbols, name) == after_add(entries, symbols, literal),
        after_add(entries, symbols, name) == with_breakpoint(entries, entry),
        outcome_of_add(entries, symbols, name) == outcome_of_add(entries, symbols, literal),
{
    lemma_name_and_literal_agree(symbols, name, literal, entry);
}

/// The table after `add` was called with `location`.
pub open spec fn after_add(entries: Seq<Breakpoint>, symbols: SymbolIndex, location: Seq<char>) -> Seq<
    Breakpoint,
> {
    match resolve(symbols, location) {
        Some(addr) => with_breakpoint(entries, addr),
        None => entries,
    }
}

/// What `add` returns for `location`.
pub open spec fn outcome_of_add(
    entries: Seq<Breakpoint>,
    symbols: SymbolIndex,
    location: Seq<char>,
) -> Result<int, Error> {
    match resolve(symbols, location) {
        Some(addr) => Ok(index_for(entries, addr)),
        None => Err(Error::UnresolvedLocation),
    }
}

/// The byte that the trap displaced at `addr`, if a breakpoint is planted
/// there.
pub open spec fn planted_at(entries: Seq<Breakpoint>, addr: u64) -> Option<u8> {
    match slot_of(entries, addr) {
        Some(i) => entries[i].orig_byte,
        None => None,
    }
}

/// Whether every breakpoint is planted in the tracee.
pub open spec fn all_planted(entries: Seq<Breakpoint>) -> bool {
    forall|i: int| 0 <= i < entries.len() ==> (#[trigger] entries[i]).orig_byte.is_some()
}

/// Whether no breakpoint is planted.
pub open spec fn none_planted(entries: Seq<Breakpoint>) -> bool {
    forall|i: int| 0 <= i < entries.len() ==> (#[trigger] entries[i]).orig_byte.is_none()
}

/// Whether two tables hold the same addresses in the same order.
pub open spec fn same_addresses(a: Seq<Breakpoint>, b: Seq<Breakpoint>) -> bool {
    &&& a.len() == b.len()
    &&& forall|i: int| 0 <= i < a.len() ==> (#[trigger] a[i]).addr == b[i].addr
}

/// The breakpoint that a stop is a hit of. The trap instruction is one byte
/// long, so a tracee that has just executed the one planted at `a` stands
/// stopped by the trap signal at `a + 1`.
pub open spec fn hit_site(entries: Seq<Breakpoint>, status: Status) -> Option<u64> {
    match status {
        Status::Stopped(signal, ip) => if signal.is_trap() && ip >= 1 && planted_at(
            entries,
            (ip - 1) as u64,
        ).is_some() {
            Some((ip - 1) as u64)
        } else {
            None
        },
        _ => None,
    }
}

/// The status that the session goes by: a breakpoint hit is a stop at the
/// breakpoint, everything else is as it was observed.
pub open spec fn settled(entries: Seq<Breakpoint>, status: Status) -> Status {
    match status {
        Status::Stopped(signal, ip) => match hit_site(entries, status) {
            Some(site) => Status::Stopped(signal, site),
            None => status,
        },
        _ => status,
    }
}

/// Tables with the same addresses find an address at the same index.
pub proof fn lemma_same_addresses_same_slots(a: Seq<Breakpoint>, b: Seq<Breakpoint>, addr: u64)
    requires
        same_addresses(a, b),
    ensures
        slot_of(a, addr) == slot_of(b, addr),
{
    lemma_slot_of(a, addr);
    lemma_slot_of(b, addr);
    match slot_of(a, addr) {
        Some(i) => {
            assert(b[i].addr == a[i].addr);
            assert forall|j: int| 0 <= j < i implies (#[trigger] b[j]).addr != addr by {
                assert(a[j].addr == b[j].addr);
            }
            lemma_slot_found(b, addr, i);
        },
        None => {
            if slot_of(b, addr).is_some() {
                let k = slot_of(b, addr).unwrap();
                assert(a[k].addr == b[k].addr);
            }
        },
    }
}

/// One thing asked of a stopped tracee on the way to letting it run.
#[derive(Clone, Copy, Debug, PartialEq, Eq, Structural)]
pub enum Request {
    /// Write this byte at this address.
    WriteByte { addr: u64, byte: u8 },
    /// Execute one instruction and wait for the stop that ends it.
    Step,
    /// Run on.
    Continue,
}

/// What is asked of a tracee that stands stopped at `position`, and in what
/// order, to let it run. `planted` is the byte that a trap displaced at
/// `position`, if a breakpoint is planted there.
///
/// On a planted breakpoint the displaced byte is put back, the one
/// instruction is executed, the trap is planted again, and only then is the
/// tracee let run. Anywhere else it is let run at once.
pub open spec fn resume_requests(position: u64, planted: Option<u8>) -> Seq<Request> {
    match planted {
        Some(orig) => seq![
            Request::WriteByte { addr: position, byte: orig },
            Request::Step,
            Request::WriteByte { addr: position, byte: TRAP_BYTE },
            Request::Continue,
        ],
        None => seq![Request::Continue],
    }
}

/// Whether `request` is still to be carried out, given the news of the
/// single step before it, if there was a step and it left news. Without
/// news every request is due. After news nothing lets the tracee run or
/// step again; a tracee that still exists gets the writes that are left,
/// so that no trap is missing from it, and one that has ended gets nothing.
pub open spec fn is_due(request: Request, news: Option<Status>) -> bool {
    match news {
        None => true,
        Some(status) => status.is_alive() && request is WriteByte,
    }
}

/// What there is to tell after one more request was carried out with the
/// outcome `outcome`, when `news` was there to tell before it. A request
/// that failed is the failure of the whole; a step that left news makes it
/// the news; anything else leaves what there was.
pub open spec fn told_after(news: Option<Status>, outcome: Result<Option<Status>, Error>) -> Result<
    Option<Status>,
    Error,
> {
    match outcome {
        Err(e) => Err(e),
        Ok(Some(status)) => Ok(Some(status)),
        Ok(None) => Ok(news),
    }
}

/// The shape of what `resume_requests` asks: the last request is the one to
/// run on and no other is; a step is asked only on a planted breakpoint,
/// where it has the write of the displaced byte before it and the write of
/// the trap after it, both at the position.
pub proof fn lemma_resume_requests(position: u64, planted: Option<u8>)
    ensures
        resume_requests(position, planted).len() >= 1,
        resume_requests(position, planted).last() == Request::Continue,
        forall|i: int|
            0 <= i < resume_requests(position, planted).len() - 1 ==> !(
            #[trigger] resume_requests(position, planted)[i] is Continue),
        forall|i: int|
            0 <= i < resume_requests(position, planted).len() && #[trigger] resume_requests(
                position,
                planted,
            )[i] is Step ==> planted.is_some() && i == 1,
        planted matches Some(orig) ==> resume_requests(position, planted) == seq![
            Request::WriteByte { addr: position, byte: orig },
            Request::Step,
            Request::WriteByte { addr: position, byte: TRAP_BYTE },
            Request::Continue,
        ],
        planted.is_none() ==> resume_requests(position, planted) == seq![Request::Continue],
{
}

/// Where a trap is planted, putting the displaced byte back lets the
/// instruction run as it was written, and planting the trap again leaves
/// memory exactly as it was with the trap in it.
pub proof fn lemma_step_over_keeps_the_trap(memory: Memory, addr: u64, orig: u8)
    requires
        word_mapped(memory, aligned(addr)),
        memory[addr] == TRAP_BYTE,
    ensures
        patched_memory(memory, addr, orig) == memory.insert(addr, orig),
        patched_memory(patched_memory(memory, addr, orig), addr, TRAP_BYTE) == memory,
{
    lemma_patch_changes_one_byte(memory, addr, orig);
    lemma_patch_and_restore(memory, addr, orig);
}

/// The breakpoints of a session, in the order they were set.
pub struct BreakpointTable {
    entries: Vec<Breakpoint>,
}

impl View for BreakpointTable {
    type V = Seq<Breakpoint>;

    closed spec fn view(&self) -> Seq<Breakpoint> {
        self.entries@
    }
}

impl BreakpointTable {
    /// The invariant of the table: no address occurs twice.
    pub open spec fn wf(&self) -> bool {
        distinct_addresses(self@)
    }

    /// An empty table.
    pub fn new() -> (table: BreakpointTable)
        ensures
            table@ == Seq::<Breakpoint>::empty(),
            table.wf(),
    {
        BreakpointTable { entries: Vec::new() }
    }

    /// How many breakpoints are set.
    pub fn len(&self) -> (n: usize)
        ensures
            n == self@.len(),
    {
        self.entries.len()
    }

    /// The breakpoint with index `index`.
    pub fn get(&self, index: usize) -> (entry: Option<Breakpoint>)
        ensures
            entry == if index < self@.len() {
                Some(self@[index as int])
            } else {
                None
            },
    {
        if index < self.entries.len() {
            Some(self.entries[index])
        } else {
            None
        }
    }

    /// The address of the breakpoint with index `index`.
    pub fn addr_at(&self, index: usize) -> (addr: u64)
        requires
            index < self@.len(),
        ensures
            addr == self@[index as int].addr,
    {
        self.entries[index].addr
    }

    /// The index of the breakpoint at `addr`, if one is set there.
    pub fn index_of(&self, addr: u64) -> (index: Option<usize>)
        ensures
            match index {
                Some(i) => slot_of(self@, addr) == Some(i as int) && i < self@.len()
                    && self@[i as int].addr == addr,
                None => slot_of(self@, addr).is_none(),
            },
    {
        let mut i: usize = 0;
        while i < self.entries.len()
            invariant
                i <= self.entries.len(),
                forall|j: int| 0 <= j < i ==> (#[trigger] self.entries@[j]).addr != addr,
            decreases self.entries.len() - i,
        {
            if self.entries[i].addr == addr {
                proof {
                    lemma_slot_found(self@, addr, i as int);
                }
                return Some(i);
            }
            i += 1;
        }
        proof {
            lemma_slot_of(self@, addr);
        }
        None
    }

    /// Sets a breakpoint at `addr` unless one is set there already, and
    /// returns its index either way.
    pub fn insert(&mut self, addr: u64) -> (index: usize)
        requires
            old(self).wf(),
        ensures
            final(self).wf(),
            final(self)@ == with_breakpoint(old(self)@, addr),
            index == index_for(old(self)@, addr),
    {
        proof {
            lemma_with_breakpoint(self@, addr);
        }
        match self.index_of(addr) {
            Some(i) => i,
            None => {
                let index: usize = self.entries.len();
                self.entries.push(Breakpoint { addr, orig_byte: None });
                index
            },
        }
    }

    /// Sets a breakpoint at the place that `location` names and returns its
    /// index. A location that resolves to the address of an existing
    /// breakpoint adds nothing and returns the index of that one. A location
    /// that does not resolve adds nothing and is an error.
    pub fn add(&mut self, location: &str, symbols: &SymbolIndex) -> (outcome: Result<usize, Error>)
        requires
            old(self).wf(),
        ensures
            final(self).wf(),
            final(self)@ == after_add(old(self)@, *symbols, location@),
            match outcome {
                Ok(index) => outcome_of_add(old(self)@, *symbols, location@) == Ok::<int, Error>(
                    index as int,
                ),
                Err(e) => outcome_of_add(old(self)@, *symbols, location@) == Err::<int, Error>(e),
            },
    {
        match resolve_location(symbols, location) {
            Some(addr) => Ok(self.insert(addr)),
            None => Err(Error::UnresolvedLocation),
        }
    }

    /// The byte that the trap displaced at `addr`, if a breakpoint is planted
    /// there: the byte to put back before the instruction at `addr` can run.
    pub fn planted_byte(&self, addr: u64) -> (byte: Option<u8>)
        ensures
            byte == planted_at(self@, addr),
    {
        match self.index_of(addr) {
            Some(i) => self.entries[i].orig_byte,
            None => None,
        }
    }

    /// What is to be asked of a tracee that stands stopped at `position`,
    /// and in what order, to let it run.
    pub fn resume_plan(&self, position: u64) -> (requests: Vec<Request>)
        ensures
            requests@ == resume_requests(position, planted_at(self@, position)),
    {
        let mut requests: Vec<Request> = Vec::new();
        match self.planted_byte(position) {
            Some(orig) => {
                requests.push(Request::WriteByte { addr: position, byte: orig });
                requests.push(Request::Step);
                requests.push(Request::WriteByte { addr: position, byte: TRAP_BYTE });
                requests.push(Request::Continue);
            },
            None => {
                requests.push(Request::Continue);
            },
        }
        proof {
            assert(requests@ =~= resume_requests(position, planted_at(self@, position)));
        }
        requests
    }

    /// The address of the breakpoint that the stop `status` is a hit of, if
    /// it is one.
    pub fn hit(&self, status: Status) -> (site: Option<u64>)
        ensures
            site == hit_site(self@, status),
    {
        match status {
            Status::Stopped(signal, ip) => {
                if signal.trap() && ip >= 1 && self.planted_byte(ip - 1).is_some() {
                    Some(ip - 1)
                } else {
                    None
                }
            },
            _ => None,
        }
    }

    /// Records the byte that the trap displaced at breakpoint `index`.
    pub fn set_original(&mut self, index: usize, byte: u8)
        requires
            old(self).wf(),
            index < old(self)@.len(),
        ensures
            final(self).wf(),
            final(self)@ == old(self)@.update(
                index as int,
                (Breakpoint { addr: old(self)@[index as int].addr, orig_byte: Some(byte) }),
            ),
            same_addresses(old(self)@, final(self)@),
    {
        let addr: u64 = self.entries[index].addr;
        let ghost before = self@;
        self.entries.set(index, Breakpoint { addr, orig_byte: Some(byte) });
        proof {
            assert forall|i: int, j: int|
                0 <= i < self@.len() && 0 <= j < self@.len() && i != j implies (#[trigger] self@[i]).addr
                != (#[trigger] self@[j]).addr by {
                assert(self@[i].addr == before[i].addr);
                assert(self@[j].addr == before[j].addr);
            }
        }
    }

    /// Forgets every displaced byte: no trap is planted any more, as when the
    /// tracee that held them is gone.
    pub fn forget_originals(&mut self)
        requires
            old(self).wf(),
        ensures
            final(self).wf(),
            same_addresses(old(self)@, final(self)@),
            none_planted(final(self)@),
    {
        let ghost before = self@;
        let mut i: usize = 0;
        while i < self.entries.len()
            invariant
                i <= self.entries.len(),
                self@.len() == before.len(),
                forall|k: int| 0 <= k < self@.len() ==> (#[trigger] self@[k]).addr == before[k].addr,
                forall|k: int| 0 <= k < i ==> (#[trigger] self@[k]).orig_byte.is_none(),
            decreases self.entries.len() - i,
        {
            let addr: u64 = self.entries[i].addr;
            self.entries.set(i, Breakpoint { addr, orig_byte: None });
            i += 1;
        }
        proof {
            assert forall|i: int, j: int|
                0 <= i < self@.len() && 0 <= j < self@.len() && i != j implies (#[trigger] self@[i]).addr
                != (#[trigger] self@[j]).addr by {
                assert(self@[i].addr == before[i].addr);
                assert(self@[j].addr == before[j].addr);
            }
        }
    }
}

/// Whether `request` is still to be carried out after the single step
/// before it left `news`, or left none.
pub fn due(request: Request, news: Option<Status>) -> (yes: bool)
    ensures
        yes == is_due(request, news),
{
    match news {
        None => true,
        Some(status) => match request {
            Request::WriteByte { addr, byte } => status.alive(),
            _ => false,
        },
    }
}

/// What there is to tell after one more request was carried out with the
/// outcome `outcome`, when `news` was there to tell before it.
pub fn news_after(news: Option<Status>, outcome: Result<Option<Status>, Error>) -> (told: Result<
    Option<Status>,
    Error,
>)
    ensures
        told == told_after(news, outcome),
{
    match outcome {
        Err(e) => Err(e),
        Ok(Some(status)) => Ok(Some(status)),
        Ok(None) => Ok(news),
    }
}

} // verus!
