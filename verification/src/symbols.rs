//! The symbol index of a target: what the session knows about where the
//! functions and source lines of the program lie in its address space.
//!
//! The index is built once from tables that a loader extracted from the
//! debugging information, and is only read afterwards.

use crate::error::Error;
use vstd::prelude::*;

verus! {

/// A source line and the address of its first instruction.
#[derive(Debug, PartialEq, Eq)]
pub struct Line {
    pub file: String,
    pub number: u64,
    pub address: u64,
}

impl Clone for Line {
    fn clone(&self) -> (copy: Line)
        ensures
            copy == *self,
    {
        Line { file: self.file.clone(), number: self.number, address: self.address }
    }
}

/// A function: its name, its entry point and the length of its code.
#[derive(Debug, PartialEq, Eq)]
pub struct Function {
    pub name: String,
    pub address: u64,
    pub text_length: u64,
}

impl Clone for Function {
    fn clone(&self) -> (copy: Function)
        ensures
            copy == *self,
    {
        Function {
            name: self.name.clone(),
            address: self.address,
            text_length: self.text_length,
        }
    }
}

/// Whether the tables of a binary make sense: each function has code, which
/// ends inside the address space, and each line has a number from 1 up.
pub open spec fn well_formed(functions: Seq<Function>, lines: Seq<Line>) -> bool {
    &&& forall|i: int|
        0 <= i < functions.len() ==> (#[trigger] functions[i]).text_length > 0
            && functions[i].address + functions[i].text_length - 1 <= u64::MAX
    &&& forall|i: int| 0 <= i < lines.len() ==> (#[trigger] lines[i]).number >= 1
}

/// Whether `addr` lies in the code of `function`.
pub open spec fn covers(function: Function, addr: u64) -> bool {
    function.address <= addr < function.address + function.text_length
}

/// Whether some function's code holds `addr`: the known ranges of the image.
pub open spec fn in_known_range(functions: Seq<Function>, addr: u64) -> bool {
    exists|i: int| 0 <= i < functions.len() && covers(#[trigger] functions[i], addr)
}

/// Whether `lines[i]` is the nearest line at or below `addr`: no entry lies
/// closer to `addr` from below, and of several entries at the same address
/// it is the first.
pub open spec fn is_nearest_line(lines: Seq<Line>, addr: u64, i: int) -> bool {
    &&& 0 <= i < lines.len()
    &&& lines[i].address <= addr
    &&& forall|j: int|
        0 <= j < lines.len() && (#[trigger] lines[j]).address <= addr ==> lines[j].address
            < lines[i].address || (lines[j].address == lines[i].address && i <= j)
}

/// The entry point of the first function called `name`.
pub open spec fn entry_named(functions: Seq<Function>, name: Seq<char>) -> Option<u64> {
    match functions.map_values(|f: Function| f.name@).index_of_first(name) {
        Some(i) => Some(functions[i].address),
        None => None,
    }
}

/// The address of the first entry for source line `number`.
pub open spec fn address_of_line(lines: Seq<Line>, number: u64) -> Option<u64> {
    match lines.map_values(|l: Line| l.number).index_of_first(number) {
        Some(i) => Some(lines[i].address),
        None => None,
    }
}

/// The name of the first function whose code holds `addr`.
pub open spec fn function_holding(functions: Seq<Function>, addr: u64) -> Option<Seq<char>> {
    match functions.map_values(|f: Function| covers(f, addr)).index_of_first(true) {
        Some(i) => Some(functions[i].name@),
        None => None,
    }
}

/// The line nearest to `addr` from below, if `addr` is in a known range.
pub open spec fn line_holding(functions: Seq<Function>, lines: Seq<Line>, addr: u64) -> Option<
    Line,
> {
    if in_known_range(functions, addr) && exists|i: int| is_nearest_line(lines, addr, i) {
        Some(lines[choose|i: int| is_nearest_line(lines, addr, i)])
    } else {
        None
    }
}

/// At most one entry is the nearest line for an address.
pub proof fn lemma_nearest_line_unique(lines: Seq<Line>, addr: u64, i: int, j: int)
    requires
        is_nearest_line(lines, addr, i),
        is_nearest_line(lines, addr, j),
    ensures
        i == j,
{
    assert(lines[j].address <= addr);
    assert(lines[i].address <= addr);
}

/// If any entry lies at or below `addr`, one of them is the nearest.
proof fn lemma_nearest_line_exists(lines: Seq<Line>, addr: u64, k: int)
    requires
        0 <= k < lines.len(),
        lines[k].address <= addr,
    ensures
        exists|i: int| is_nearest_line(lines, addr, i),
    decreases lines.len(),
{
    let init = lines.drop_last();
    let last = lines.len() - 1;
    if exists|m: int| 0 <= m < init.len() && init[m].address <= addr {
        let m = choose|m: int| 0 <= m < init.len() && init[m].address <= addr;
        lemma_nearest_line_exists(init, addr, m);
        let b = choose|b: int| is_nearest_line(init, addr, b);
        assert(lines[b] == init[b]);
        if lines[last].address <= addr && lines[last].address > lines[b].address {
            assert forall|j: int|
                0 <= j < lines.len() && (#[trigger] lines[j]).address <= addr implies lines[j].address
                < lines[last].address || (lines[j].address == lines[last].address && last <= j) by {
                if j < last {
                    assert(init[j] == lines[j]);
                }
            }
            assert(is_nearest_line(lines, addr, last));
        } else {
            assert forall|j: int|
                0 <= j < lines.len() && (#[trigger] lines[j]).address <= addr implies lines[j].address
                < lines[b].address || (lines[j].address == lines[b].address && b <= j) by {
                if j < last {
                    assert(init[j] == lines[j]);
                }
            }
            assert(is_nearest_line(lines, addr, b));
        }
    } else {
        assert(k == last) by {
            if k < last {
                assert(init[k] == lines[k]);
            }
        }
        assert forall|j: int|
            0 <= j < lines.len() && (#[trigger] lines[j]).address <= addr implies lines[j].address
            < lines[last].address || (lines[j].address == lines[last].address && last <= j) by {
            if j < last {
                assert(init[j] == lines[j]);
            }
        }
        assert(is_nearest_line(lines, addr, last));
    }
}

/// One frame of a backtrace: an instruction pointer and what the symbol
/// index knows of it.
#[derive(Debug, PartialEq, Eq)]
pub struct Frame {
    pub ip: u64,
    pub function: Option<String>,
    pub line: Option<Line>,
}

impl Frame {
    /// Whether this frame is what `symbols` says of the instruction at `ip`.
    pub open spec fn describes(&self, symbols: SymbolIndex, ip: u64) -> bool {
        &&& self.ip == ip
        &&& match self.function {
            Some(name) => symbols.enclosing_function(ip) == Some(name@),
            None => symbols.enclosing_function(ip).is_none(),
        }
        &&& self.line == symbols.nearest_line(ip)
    }
}

/// An address has a source line exactly when it lies in a known range and
/// some entry of the line table lies at or below it.
pub proof fn lemma_line_found(functions: Seq<Function>, lines: Seq<Line>, addr: u64)
    ensures
        line_holding(functions, lines, addr).is_some() <==> in_known_range(functions, addr) && exists|
            k: int,
        |
            0 <= k < lines.len() && (#[trigger] lines[k]).address <= addr,
        line_holding(functions, lines, addr) matches Some(line) ==> line.address <= addr
            && lines.contains(line),
{
    if exists|k: int| 0 <= k < lines.len() && (#[trigger] lines[k]).address <= addr {
        let k = choose|k: int| 0 <= k < lines.len() && (#[trigger] lines[k]).address <= addr;
        lemma_nearest_line_exists(lines, addr, k);
    }
    if exists|i: int| is_nearest_line(lines, addr, i) {
        let i = choose|i: int| is_nearest_line(lines, addr, i);
        assert(0 <= i < lines.len() && lines[i].address <= addr);
    }
}

/// The symbol index of one target binary.
pub struct SymbolIndex {
    functions: Vec<Function>,
    lines: Vec<Line>,
}

impl SymbolIndex {
    /// The functions of the target, in the order the loader found them.
    pub closed spec fn functions(&self) -> Seq<Function> {
        self.functions@
    }

    /// The line table of the target, in the order the loader found it.
    pub closed spec fn lines(&self) -> Seq<Line> {
        self.lines@
    }

    /// What `get_addr_for_function` finds for `name`.
    pub open spec fn function_entry(&self, name: Seq<char>) -> Option<u64> {
        entry_named(self.functions(), name)
    }

    /// What `get_addr_for_line` finds for `number`.
    pub open spec fn line_address(&self, number: u64) -> Option<u64> {
        address_of_line(self.lines(), number)
    }

    /// What `get_function_from_addr` finds for `addr`.
    pub open spec fn enclosing_function(&self, addr: u64) -> Option<Seq<char>> {
        function_holding(self.functions(), addr)
    }

    /// What `get_line_from_addr` finds for `addr`.
    pub open spec fn nearest_line(&self, addr: u64) -> Option<Line> {
        line_holding(self.functions(), self.lines(), addr)
    }

    /// Builds the index from the tables of a loaded binary.
    pub fn new(functions: Vec<Function>, lines: Vec<Line>) -> (index: SymbolIndex)
        ensures
            index.functions() == functions@,
            index.lines() == lines@,
    {
        SymbolIndex { functions, lines }
    }

    /// Builds the index from the tables of a loaded binary if they make
    /// sense, and fails with `SymbolLoadFailed` if they do not.
    pub fn load(functions: Vec<Function>, lines: Vec<Line>) -> (loaded: Result<SymbolIndex, Error>)
        ensures
            match loaded {
                Ok(index) => {
                    &&& well_formed(functions@, lines@)
                    &&& index.functions() == functions@
                    &&& index.lines() == lines@
                },
                Err(e) => e == Error::SymbolLoadFailed && !well_formed(functions@, lines@),
            },
    {
        let mut i: usize = 0;
        while i < functions.len()
            invariant
                i <= functions@.len(),
                forall|k: int|
                    0 <= k < i ==> (#[trigger] functions@[k]).text_length > 0 && functions@[k].address
                        + functions@[k].text_length - 1 <= u64::MAX,
            decreases functions@.len() - i,
        {
            let f = &functions[i];
            if f.text_length == 0 || f.address > u64::MAX - (f.text_length - 1) {
                return Err(Error::SymbolLoadFailed);
            }
            i += 1;
        }
        let mut j: usize = 0;
        while j < lines.len()
            invariant
                j <= lines@.len(),
                forall|k: int| 0 <= k < j ==> (#[trigger] lines@[k]).number >= 1,
            decreases lines@.len() - j,
        {
            if lines[j].number == 0 {
                return Err(Error::SymbolLoadFailed);
            }
            j += 1;
        }
        Ok(SymbolIndex { functions, lines })
    }

    /// The entry point of the function called `name`; of several functions
    /// with that name, the first. `None` if there is none.
    pub fn get_addr_for_function(&self, name: &str) -> (found: Option<u64>)
        ensures
            found == self.function_entry(name@),
    {
        let wanted: String = name.to_owned();
        let ghost names = self.functions@.map_values(|f: Function| f.name@);
        let mut i: usize = 0;
        while i < self.functions.len()
            invariant
                i <= self.functions.len(),
                wanted@ == name@,
                names == self.functions@.map_values(|f: Function| f.name@),
                forall|j: int| 0 <= j < i ==> names[j] != name@,
            decreases self.functions.len() - i,
        {
            if self.functions[i].name == wanted {
                proof {
                    assert(names[i as int] == name@);
                    names.index_of_first_ensures(name@);
                }
                return Some(self.functions[i].address);
            }
            i += 1;
        }
        proof {
            names.index_of_first_ensures(name@);
        }
        None
    }

    /// The address of the first instruction of source line `number`, or
    /// `None` if the line has no code.
    pub fn get_addr_for_line(&self, number: u64) -> (found: Option<u64>)
        ensures
            found == self.line_address(number),
    {
        let ghost numbers = self.lines@.map_values(|l: Line| l.number);
        let mut i: usize = 0;
        while i < self.lines.len()
            invariant
                i <= self.lines.len(),
                numbers == self.lines@.map_values(|l: Line| l.number),
                forall|j: int| 0 <= j < i ==> numbers[j] != number,
            decreases self.lines.len() - i,
        {
            if self.lines[i].number == number {
                proof {
                    assert(numbers[i as int] == number);
                    numbers.index_of_first_ensures(number);
                }
                return Some(self.lines[i].address);
            }
            i += 1;
        }
        proof {
            numbers.index_of_first_ensures(number);
        }
        None
    }

    /// Whether `addr` lies in the code of some function of the target.
    pub fn knows_address(&self, addr: u64) -> (known: bool)
        ensures
            known == in_known_range(self.functions(), addr),
    {
        let mut i: usize = 0;
        while i < self.functions.len()
            invariant
                i <= self.functions.len(),
                forall|j: int| 0 <= j < i ==> !covers(#[trigger] self.functions@[j], addr),
            decreases self.functions.len() - i,
        {
            let f = &self.functions[i];
            if f.address <= addr && addr - f.address < f.text_length {
                assert(covers(self.functions@[i as int], addr));
                return true;
            }
            i += 1;
        }
        false
    }

    /// The name of the function whose code holds `addr`; of several, the
    /// first. `None` if `addr` is in no function.
    pub fn get_function_from_addr(&self, addr: u64) -> (found: Option<String>)
        ensures
            match found {
                Some(name) => self.enclosing_function(addr) == Some(name@),
                None => self.enclosing_function(addr).is_none(),
            },
    {
        let ghost hits = self.functions@.map_values(|f: Function| covers(f, addr));
        let mut i: usize = 0;
        while i < self.functions.len()
            invariant
                i <= self.functions.len(),
                hits == self.functions@.map_values(|f: Function| covers(f, addr)),
                forall|j: int| 0 <= j < i ==> !hits[j],
            decreases self.functions.len() - i,
        {
            let f = &self.functions[i];
            if f.address <= addr && addr - f.address < f.text_length {
                proof {
                    assert(hits[i as int]);
                    hits.index_of_first_ensures(true);
                }
                return Some(f.name.clone());
            }
            i += 1;
        }
        proof {
            hits.index_of_first_ensures(true);
        }
        None
    }

    /// The frame of the instruction at `ip`: the function that holds it and
    /// its source line, as far as they are known.
    pub fn frame_at(&self, ip: u64) -> (frame: Frame)
        ensures
            frame.describes(*self, ip),
    {
        Frame { ip, function: self.get_function_from_addr(ip), line: self.get_line_from_addr(ip) }
    }

    /// The source line of the instruction at `addr`: the entry of the line
    /// table nearest to `addr` from below. `None` if `addr` is outside every
    /// known range or below every entry.
    pub fn get_line_from_addr(&self, addr: u64) -> (found: Option<Line>)
        ensures
            found == self.nearest_line(addr),
    {
        if !self.knows_address(addr) {
            return None;
        }
        let mut best: Option<usize> = None;
        let mut i: usize = 0;
        while i < self.lines.len()
            invariant
                i <= self.lines.len(),
                match best {
                    Some(b) => b < i && is_nearest_line(self.lines@.take(i as int), addr, b as int),
                    None => forall|j: int|
                        0 <= j < i ==> (#[trigger] self.lines@[j]).address > addr,
                },
            decreases self.lines.len() - i,
        {
            let ghost before = self.lines@.take(i as int);
            let ghost after = self.lines@.take(i + 1);
            let here: u64 = self.lines[i].address;
            let better: bool = here <= addr && match best {
                Some(b) => self.lines[b].address < here,
                None => true,
            };
            proof {
                assert forall|j: int| 0 <= j < i implies after[j] == before[j] by {}
                assert(after[i as int] == self.lines@[i as int]);
            }
            if better {
                proof {
                    assert forall|j: int|
                        0 <= j < after.len() && (#[trigger] after[j]).address <= addr implies after[j].address
                        < after[i as int].address || (after[j].address == after[i as int].address
                        && i <= j) by {
                        if j < i {
                            assert(before[j] == after[j]);
                            assert(self.lines@[j] == after[j]);
                        }
                    }
                    assert(is_nearest_line(after, addr, i as int));
                }
                best = Some(i);
            } else {
                proof {
                    match best {
                        Some(b) => {
                            assert forall|j: int|
                                0 <= j < after.len() && (#[trigger] after[j]).address
                                    <= addr implies after[j].address < after[b as int].address || (
                            after[j].address == after[b as int].address && b <= j) by {
                                if j < i {
                                    assert(before[j] == after[j]);
                                }
                            }
                            assert(is_nearest_line(after, addr, b as int));
                        },
                        None => {},
                    }
                }
            }
            i += 1;
        }
        proof {
            assert(self.lines@.take(i as int) =~= self.lines@);
        }
        match best {
            Some(b) => {
                proof {
                    let c = choose|c: int| is_nearest_line(self.lines@, addr, c);
                    lemma_nearest_line_unique(self.lines@, addr, c, b as int);
                }
                Some(self.lines[b].clone())
            },
            None => {
                proof {
                    assert forall|c: int| !is_nearest_line(self.lines@, addr, c) by {
                        if is_nearest_line(self.lines@, addr, c) {
                            assert(self.lines@[c].address <= addr);
                        }
                    }
                }
                None
            },
        }
    }
}

} // verus!
