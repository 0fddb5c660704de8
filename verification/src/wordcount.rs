//! Counting the words and characters of a text, line by line.

use vstd::prelude::*;
use vstd::string::StrSliceExecFns;
use vstd::utf8::encode_utf8;

verus! {

/// The number of spaces in `text`.
pub open spec fn spaces(text: Seq<char>) -> nat
    decreases text.len(),
{
    if text.len() == 0 {
        0
    } else if text.last() == ' ' {
        spaces(text.drop_last()) + 1
    } else {
        spaces(text.drop_last())
    }
}

/// The number of pieces that its spaces cut `line` into. A line without a
/// space is one piece, and two spaces in a row have an empty piece between
/// them.
pub open spec fn words_in_line(line: Seq<char>) -> nat {
    spaces(line) + 1
}

/// The pieces of all lines together.
pub open spec fn words_in_lines(lines: Seq<String>) -> nat
    decreases lines.len(),
{
    if lines.len() == 0 {
        0
    } else {
        words_in_lines(lines.drop_last()) + words_in_line(lines.last()@)
    }
}

/// The length of `text` in bytes, encoded as UTF-8.
pub open spec fn bytes_in(text: Seq<char>) -> nat {
    encode_utf8(text).len()
}

/// The bytes of all lines together, line ends not counted.
pub open spec fn characters_in_lines(lines: Seq<String>) -> nat
    decreases lines.len(),
{
    if lines.len() == 0 {
        0
    } else {
        characters_in_lines(lines.drop_last()) + bytes_in(lines.last()@)
    }
}

/// The word count of some of the lines is at most that of all of them.
proof fn lemma_words_grow(lines: Seq<String>, k: int)
    requires
        0 <= k <= lines.len(),
    ensures
        words_in_lines(lines.take(k)) <= words_in_lines(lines),
    decreases lines.len(),
{
    if k == lines.len() {
        assert(lines.take(k) =~= lines);
    } else {
        lemma_words_grow(lines.drop_last(), k);
        assert(lines.drop_last().take(k) =~= lines.take(k));
    }
}

/// The character count of some of the lines is at most that of all of them.
proof fn lemma_characters_grow(lines: Seq<String>, k: int)
    requires
        0 <= k <= lines.len(),
    ensures
        characters_in_lines(lines.take(k)) <= characters_in_lines(lines),
    decreases lines.len(),
{
    if k == lines.len() {
        assert(lines.take(k) =~= lines);
    } else {
        lemma_characters_grow(lines.drop_last(), k);
        assert(lines.drop_last().take(k) =~= lines.take(k));
    }
}

/// Some of a text has at most as many spaces as all of it.
proof fn lemma_spaces_grow(text: Seq<char>, k: int)
    requires
        0 <= k <= text.len(),
    ensures
        spaces(text.take(k)) <= spaces(text),
    decreases text.len(),
{
    if k == text.len() {
        assert(text.take(k) =~= text);
    } else {
        lemma_spaces_grow(text.drop_last(), k);
        assert(text.drop_last().take(k) =~= text.take(k));
    }
}

/// Counts the pieces that its spaces cut `line` into.
pub fn count_words_in_line(line: &String) -> (count: usize)
    requires
        words_in_line(line@) <= usize::MAX,
    ensures
        count == words_in_line(line@),
{
    let text: &str = line.as_str();
    let n: usize = text.unicode_len();
    let mut word_count: usize = 1;
    let mut i: usize = 0;
    while i < n
        invariant
            i <= n,
            n == text@.len(),
            words_in_line(text@) <= usize::MAX,
            word_count == spaces(text@.take(i as int)) + 1,
        decreases n - i,
    {
        let ghost upto = text@.take(i + 1);
        proof {
            assert(upto.drop_last() =~= text@.take(i as int));
            assert(upto.last() == text@[i as int]);
            lemma_spaces_grow(text@, i + 1);
        }
        if text.get_char(i) == ' ' {
            word_count += 1;
        }
        i += 1;
    }
    proof {
        assert(text@.take(n as int) =~= text@);
    }
    word_count
}

/// Counts the pieces of all lines together.
pub fn count_words_in_lines(lines: &Vec<String>) -> (count: usize)
    requires
        words_in_lines(lines@) <= usize::MAX,
    ensures
        count == words_in_lines(lines@),
{
    let mut count: usize = 0;
    let mut i: usize = 0;
    while i < lines.len()
        invariant
            i <= lines@.len(),
            words_in_lines(lines@) <= usize::MAX,
            count == words_in_lines(lines@.take(i as int)),
        decreases lines@.len() - i,
    {
        let ghost upto = lines@.take(i + 1);
        proof {
            assert(upto.drop_last() =~= lines@.take(i as int));
            assert(upto.last() == lines@[i as int]);
            lemma_words_grow(lines@, i + 1);
        }
        let one: usize = count_words_in_line(&lines[i]);
        count += one;
        i += 1;
    }
    proof {
        assert(lines@.take(i as int) =~= lines@);
    }
    count
}

/// Counts the bytes of all lines together.
pub fn count_characters_in_lines(lines: &Vec<String>) -> (count: usize)
    requires
        characters_in_lines(lines@) <= usize::MAX,
    ensures
        count == characters_in_lines(lines@),
{
    let mut count: usize = 0;
    let mut i: usize = 0;
    while i < lines.len()
        invariant
            i <= lines@.len(),
            characters_in_lines(lines@) <= usize::MAX,
            count == characters_in_lines(lines@.take(i as int)),
        decreases lines@.len() - i,
    {
        let ghost upto = lines@.take(i + 1);
        proof {
            assert(upto.drop_last() =~= lines@.take(i as int));
            assert(upto.last() == lines@[i as int]);
            lemma_characters_grow(lines@, i + 1);
        }
        count += lines[i].as_str().len();
        i += 1;
    }
    proof {
        assert(lines@.take(i as int) =~= lines@);
    }
    count
}

} // verus!
