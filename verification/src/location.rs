//! Breakpoint locations as the user writes them, and what they resolve to.
//!
//! A location is one of three things: `*` followed by an address, a decimal
//! source line number, or the name of a function. A literal address stands
//! for itself. Anything else is tried as the number of a line with code and,
//! failing that, as a function name.

use crate::symbols::SymbolIndex;
use vstd::prelude::*;
use vstd::string::StrSliceExecFns;

verus! {

/// The value of `c` as a digit: `0` to `9` in either radix, and `a` to `f`
/// in either case when the radix is 16.
pub open spec fn digit_of(c: char, radix: u64) -> Option<nat> {
    if '0' <= c <= '9' {
        Some((c as u32 - '0' as u32) as nat)
    } else if radix == 16 && 'a' <= c <= 'f' {
        Some((c as u32 - 'a' as u32 + 10) as nat)
    } else if radix == 16 && 'A' <= c <= 'F' {
        Some((c as u32 - 'A' as u32 + 10) as nat)
    } else {
        None
    }
}

/// Whether `text` is a non-empty run of digits of the radix.
pub open spec fn is_number(text: Seq<char>, radix: u64) -> bool {
    &&& text.len() > 0
    &&& forall|i: int| 0 <= i < text.len() ==> digit_of(#[trigger] text[i], radix).is_some()
}

/// The number that a run of digits denotes, most significant digit first.
pub open spec fn number_value(text: Seq<char>, radix: u64) -> nat
    decreases text.len(),
{
    if text.len() == 0 {
        0
    } else {
        number_value(text.drop_last(), radix) * (radix as nat) + match digit_of(
            text.last(),
            radix,
        ) {
            Some(d) => d,
            None => 0,
        }
    }
}

/// The number written in `text`, if `text` is a number that fits in 64 bits.
pub open spec fn parse_number(text: Seq<char>, radix: u64) -> Option<u64> {
    if is_number(text, radix) && number_value(text, radix) <= u64::MAX {
        Some(number_value(text, radix) as u64)
    } else {
        None
    }
}

/// Whether `text` begins with `0x` or `0X`.
pub open spec fn has_hex_prefix(text: Seq<char>) -> bool {
    text.len() >= 2 && text[0] == '0' && (text[1] == 'x' || text[1] == 'X')
}

/// The address written in `text`: hexadecimal after a `0x` prefix, decimal
/// without one.
pub open spec fn address_in(text: Seq<char>) -> Option<u64> {
    if has_hex_prefix(text) {
        parse_number(text.skip(2), 16)
    } else {
        parse_number(text, 10)
    }
}

/// Whether `text` is a literal address: a `*` and what follows it.
pub open spec fn is_literal(text: Seq<char>) -> bool {
    text.len() > 0 && text[0] == '*'
}

/// The address that the location `text` stands for in a target with the
/// symbols `symbols`, or `None` if it stands for none.
pub open spec fn resolve(symbols: SymbolIndex, text: Seq<char>) -> Option<u64> {
    if is_literal(text) {
        address_in(text.skip(1))
    } else {
        match parse_number(text, 10) {
            Some(line) => match symbols.line_address(line) {
                Some(addr) => Some(addr),
                None => symbols.function_entry(text),
            },
            None => symbols.function_entry(text),
        }
    }
}

/// A number is at least as large as the number written by any of its
/// leading digits.
proof fn lemma_value_grows(text: Seq<char>, radix: u64, k: int)
    requires
        0 <= k <= text.len(),
        radix >= 1,
    ensures
        number_value(text.take(k), radix) <= number_value(text, radix),
    decreases text.len(),
{
    if k == text.len() {
        assert(text.take(k) =~= text);
    } else {
        let init = text.drop_last();
        lemma_value_grows(init, radix, k);
        assert(init.take(k) =~= text.take(k));
        assert(number_value(init, radix) <= number_value(init, radix) * (radix as nat))
            by (nonlinear_arith)
            requires
                radix >= 1,
        ;
    }
}

/// A function's name and the literal address of its entry point resolve to
/// the same address, as long as the name is not also the number of a source
/// line with code.
pub proof fn lemma_name_and_literal_agree(
    symbols: SymbolIndex,
    name: Seq<char>,
    literal: Seq<char>,
    entry: u64,
)
    requires
        symbols.function_entry(name) == Some(entry),
        !is_literal(name),
        parse_number(name, 10) matches Some(line) ==> symbols.line_address(line).is_none(),
        is_literal(literal),
        address_in(literal.skip(1)) == Some(entry),
    ensures
        resolve(symbols, name) == Some(entry),
        resolve(symbols, literal) == resolve(symbols, name),
{
}

/// The value of one digit.
fn digit_value(c: char, radix: u64) -> (digit: Option<u64>)
    ensures
        match digit {
            Some(d) => digit_of(c, radix) == Some(d as nat) && d < 16 && (radix == 10 ==> d < 10),
            None => digit_of(c, radix).is_none(),
        },
{
    if '0' <= c && c <= '9' {
        Some((c as u32 - '0' as u32) as u64)
    } else if radix == 16 && 'a' <= c && c <= 'f' {
        Some((c as u32 - 'a' as u32 + 10) as u64)
    } else if radix == 16 && 'A' <= c && c <= 'F' {
        Some((c as u32 - 'A' as u32 + 10) as u64)
    } else {
        None
    }
}

/// Reads the digits of `text` from position `from` to its end as one number
/// in radix 10 or 16. `None` if there is no digit, if anything but a digit
/// occurs, or if the number does not fit in 64 bits.
fn parse_digits(text: &str, from: usize, radix: u64) -> (number: Option<u64>)
    requires
        from <= text@.len(),
        radix == 10 || radix == 16,
    ensures
        number == parse_number(text@.skip(from as int), radix),
{
    let n: usize = text.unicode_len();
    let ghost digits = text@.skip(from as int);
    if from == n {
        return None;
    }
    let mut value: u64 = 0;
    let mut i: usize = from;
    while i < n
        invariant
            from <= i <= n,
            n == text@.len(),
            radix == 10 || radix == 16,
            digits == text@.skip(from as int),
            value == number_value(digits.take(i - from), radix),
            forall|j: int| 0 <= j < i - from ==> digit_of(#[trigger] digits[j], radix).is_some(),
        decreases n - i,
    {
        let c: char = text.get_char(i);
        assert(digits[i - from] == c);
        let ghost upto = digits.take(i - from + 1);
        proof {
            assert(upto.drop_last() =~= digits.take(i - from));
            assert(upto.last() == c);
        }
        let digit: u64 = match digit_value(c, radix) {
            Some(d) => d,
            None => {
                return None;
            },
        };
        let shifted: u64 = match value.checked_mul(radix) {
            Some(s) => s,
            None => {
                proof {
                    lemma_value_grows(digits, radix, i - from + 1);
                }
                return None;
            },
        };
        value = match shifted.checked_add(digit) {
            Some(v) => v,
            None => {
                proof {
                    lemma_value_grows(digits, radix, i - from + 1);
                }
                return None;
            },
        };
        i += 1;
    }
    proof {
        assert(digits.take(n - from) =~= digits);
    }
    Some(value)
}

/// Reads an address: hexadecimal digits after `0x` or `0X`, decimal digits
/// otherwise. `None` unless all of `addr` is such a number below 2^64.
pub fn parse_address(addr: &str) -> (address: Option<u64>)
    ensures
        address == address_in(addr@),
{
    let n: usize = addr.unicode_len();
    if n >= 2 && addr.get_char(0) == '0' && (addr.get_char(1) == 'x' || addr.get_char(1) == 'X') {
        parse_digits(addr, 2, 16)
    } else {
        proof {
            assert(addr@.skip(0) =~= addr@);
        }
        parse_digits(addr, 0, 10)
    }
}

/// Reads a decimal source line number.
pub fn parse_line_number(text: &str) -> (number: Option<u64>)
    ensures
        number == parse_number(text@, 10),
{
    proof {
        assert(text@.skip(0) =~= text@);
    }
    parse_digits(text, 0, 10)
}

/// Finds the address that a breakpoint location stands for.
pub fn resolve_location(symbols: &SymbolIndex, location: &str) -> (address: Option<u64>)
    ensures
        address == resolve(*symbols, location@),
{
    let n: usize = location.unicode_len();
    if n > 0 && location.get_char(0) == '*' {
        let rest: &str = location.substring_char(1, n);
        proof {
            assert(location@.subrange(1, n as int) =~= location@.skip(1));
        }
        return parse_address(rest);
    }
    match parse_line_number(location) {
        Some(line) => match symbols.get_addr_for_line(line) {
            Some(addr) => {
                return Some(addr);
            },
            None => {},
        },
        None => {},
    }
    symbols.get_addr_for_function(location)
}

} // verus!
