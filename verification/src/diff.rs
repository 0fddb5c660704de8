//! Comparing two texts line by line: the table of longest common
//! subsequences, and the edit script read off it.

use vstd::prelude::*;

verus! {

/// A table of numbers with a fixed number of rows and columns.
pub struct Grid {
    num_rows: usize,
    num_cols: usize,
    elems: Vec<usize>,
}

/// A cell inside a table of `rows` by `cols` has its place inside the
/// `rows * cols` numbers of the table, and no two cells share a place.
proof fn lemma_cell_place(rows: int, cols: int, row: int, col: int)
    requires
        0 <= row < rows,
        0 <= col < cols,
    ensures
        0 <= row * cols + col < rows * cols,
{
    assert(row * cols + col < rows * cols) by (nonlinear_arith)
        requires
            0 <= row < rows,
            0 <= col < cols,
    ;
    assert(0 <= row * cols) by (nonlinear_arith)
        requires
            0 <= row,
            0 <= cols,
    ;
}

/// Two different cells have different places.
proof fn lemma_cells_apart(cols: int, row: int, col: int, other_row: int, other_col: int)
    requires
        0 <= col < cols,
        0 <= other_col < cols,
        0 <= row,
        0 <= other_row,
        row != other_row || col != other_col,
    ensures
        row * cols + col != other_row * cols + other_col,
{
    if row < other_row {
        assert(row * cols + cols <= other_row * cols) by (nonlinear_arith)
            requires
                row + 1 <= other_row,
                0 <= cols,
        ;
    } else if other_row < row {
        assert(other_row * cols + cols <= row * cols) by (nonlinear_arith)
            requires
                other_row + 1 <= row,
                0 <= cols,
        ;
    }
}

impl Grid {
    /// The invariant of the table: it holds one number for each cell.
    pub closed spec fn wf(&self) -> bool {
        self.elems@.len() == self.num_rows * self.num_cols
    }

    /// The number of rows.
    pub closed spec fn rows(&self) -> nat {
        self.num_rows as nat
    }

    /// The number of columns.
    pub closed spec fn cols(&self) -> nat {
        self.num_cols as nat
    }

    /// The number in the cell at `row` and `col`, both counted from 0.
    pub closed spec fn at(&self, row: int, col: int) -> usize {
        self.elems@[row * self.num_cols + col]
    }

    /// A table of `num_rows` by `num_cols` zeros.
    pub fn new(num_rows: usize, num_cols: usize) -> (grid: Grid)
        requires
            num_rows * num_cols <= usize::MAX,
        ensures
            grid.wf(),
            grid.rows() == num_rows,
            grid.cols() == num_cols,
            forall|row: int, col: int|
                0 <= row < num_rows && 0 <= col < num_cols ==> #[trigger] grid.at(row, col) == 0,
    {
        let grid = Grid { num_rows, num_cols, elems: vec![0; num_rows * num_cols] };
        proof {
            assert forall|row: int, col: int|
                0 <= row < num_rows && 0 <= col < num_cols implies #[trigger] grid.at(row, col)
                == 0 by {
                lemma_cell_place(num_rows as int, num_cols as int, row, col);
            }
        }
        grid
    }

    /// The numbers of rows and of columns.
    pub fn size(&self) -> (size: (usize, usize))
        ensures
            size.0 == self.rows(),
            size.1 == self.cols(),
    {
        (self.num_rows, self.num_cols)
    }

    /// The number in the cell at `row` and `col`. `None` outside the table.
    pub fn get(&self, row: usize, col: usize) -> (value: Option<usize>)
        requires
            self.wf(),
        ensures
            value == if row < self.rows() && col < self.cols() {
                Some(self.at(row as int, col as int))
            } else {
                None
            },
    {
        if row < self.num_rows && col < self.num_cols {
            let total: usize = self.elems.len();
            proof {
                lemma_cell_place(self.num_rows as int, self.num_cols as int, row as int, col as int);
                assert(row * self.num_cols + col < total);
            }
            Some(self.elems[row * self.num_cols + col])
        } else {
            None
        }
    }

    /// Puts `val` in the cell at `row` and `col` and leaves every other cell
    /// as it is. Outside the table nothing changes and the call fails.
    pub fn set(&mut self, row: usize, col: usize, val: usize) -> (done: Result<(), &'static str>)
        requires
            old(self).wf(),
        ensures
            final(self).wf(),
            final(self).rows() == old(self).rows(),
            final(self).cols() == old(self).cols(),
            done.is_ok() == (row < old(self).rows() && col < old(self).cols()),
            forall|r: int, c: int|
                0 <= r < old(self).rows() && 0 <= c < old(self).cols() ==> #[trigger] final(self).at(
                    r,
                    c,
                ) == if done.is_ok() && r == row && c == col {
                    val
                } else {
                    old(self).at(r, c)
                },
    {
        if row < self.num_rows && col < self.num_cols {
            let total: usize = self.elems.len();
            proof {
                lemma_cell_place(self.num_rows as int, self.num_cols as int, row as int, col as int);
                assert(row * self.num_cols + col < total);
            }
            let ghost before = self.elems@;
            self.elems.set(row * self.num_cols + col, val);
            proof {
                assert forall|r: int, c: int|
                    0 <= r < self.num_rows && 0 <= c < self.num_cols implies #[trigger] self.at(r, c)
                    == if r == row && c == col {
                    val
                } else {
                    before[r * self.num_cols + c]
                } by {
                    lemma_cell_place(self.num_rows as int, self.num_cols as int, r, c);
                    if r != row || c != col {
                        lemma_cells_apart(self.num_cols as int, r, c, row as int, col as int);
                    }
                }
            }
            Ok(())
        } else {
            Err("out of bounds")
        }
    }

    /// Puts 0 in every cell.
    pub fn clear(&mut self)
        requires
            old(self).wf(),
        ensures
            final(self).wf(),
            final(self).rows() == old(self).rows(),
            final(self).cols() == old(self).cols(),
            forall|r: int, c: int|
                0 <= r < old(self).rows() && 0 <= c < old(self).cols() ==> #[trigger] final(self).at(
                    r,
                    c,
                ) == 0,
    {
        let mut i: usize = 0;
        while i < self.elems.len()
            invariant
                i <= self.elems@.len(),
                self.wf(),
                self.num_rows == old(self).num_rows,
                self.num_cols == old(self).num_cols,
                forall|k: int| 0 <= k < i ==> #[trigger] self.elems@[k] == 0,
            decreases self.elems@.len() - i,
        {
            self.elems.set(i, 0);
            i += 1;
        }
        proof {
            assert forall|r: int, c: int|
                0 <= r < self.num_rows && 0 <= c < self.num_cols implies #[trigger] self.at(r, c)
                == 0 by {
                lemma_cell_place(self.num_rows as int, self.num_cols as int, r, c);
            }
        }
    }
}

/// The texts of a list of lines.
pub open spec fn lines_of(lines: Seq<String>) -> Seq<Seq<char>> {
    lines.map_values(|line: String| line@)
}

/// The length of the longest sequence of lines that can be had from both
/// `a` and `b` by leaving lines out.
pub open spec fn lcs_length(a: Seq<Seq<char>>, b: Seq<Seq<char>>) -> nat
    decreases a.len() + b.len(),
{
    if a.len() == 0 || b.len() == 0 {
        0
    } else if a.last() == b.last() {
        lcs_length(a.drop_last(), b.drop_last()) + 1
    } else {
        let without_a = lcs_length(a.drop_last(), b);
        let without_b = lcs_length(a, b.drop_last());
        if without_a >= without_b {
            without_a
        } else {
            without_b
        }
    }
}

/// A common subsequence is no longer than either sequence.
pub proof fn lemma_lcs_bounded(a: Seq<Seq<char>>, b: Seq<Seq<char>>)
    ensures
        lcs_length(a, b) <= a.len(),
        lcs_length(a, b) <= b.len(),
    decreases a.len() + b.len(),
{
    if a.len() > 0 && b.len() > 0 {
        lemma_lcs_bounded(a.drop_last(), b.drop_last());
        lemma_lcs_bounded(a.drop_last(), b);
        lemma_lcs_bounded(a, b.drop_last());
    }
}

/// Whether `sub` can be had from `text` by leaving lines out.
pub open spec fn is_subsequence(sub: Seq<Seq<char>>, text: Seq<Seq<char>>) -> bool
    decreases text.len(),
{
    if sub.len() == 0 {
        true
    } else if text.len() == 0 {
        false
    } else {
        ||| sub.last() == text.last() && is_subsequence(sub.drop_last(), text.drop_last())
        ||| is_subsequence(sub, text.drop_last())
    }
}

/// A longest sequence of lines that can be had from both `a` and `b` by
/// leaving lines out.
pub open spec fn lcs_of(a: Seq<Seq<char>>, b: Seq<Seq<char>>) -> Seq<Seq<char>>
    decreases a.len() + b.len(),
{
    if a.len() == 0 || b.len() == 0 {
        Seq::empty()
    } else if a.last() == b.last() {
        lcs_of(a.drop_last(), b.drop_last()).push(a.last())
    } else if lcs_length(a.drop_last(), b) >= lcs_length(a, b.drop_last()) {
        lcs_of(a.drop_last(), b)
    } else {
        lcs_of(a, b.drop_last())
    }
}

/// What can be had from a text can be had from the text with a line more.
proof fn lemma_subsequence_of_longer(sub: Seq<Seq<char>>, text: Seq<Seq<char>>, line: Seq<char>)
    requires
        is_subsequence(sub, text),
    ensures
        is_subsequence(sub, text.push(line)),
{
    assert(text.push(line).drop_last() =~= text);
}

/// What can be had from a text can still be had without its last line.
proof fn lemma_shorter_subsequence(sub: Seq<Seq<char>>, text: Seq<Seq<char>>)
    requires
        is_subsequence(sub, text),
        sub.len() > 0,
    ensures
        is_subsequence(sub.drop_last(), text),
    decreases text.len(),
{
    if text.len() > 0 {
        if sub.last() == text.last() && is_subsequence(sub.drop_last(), text.drop_last()) {
            lemma_subsequence_of_longer(sub.drop_last(), text.drop_last(), text.last());
            assert(text.drop_last().push(text.last()) =~= text);
        } else {
            lemma_shorter_subsequence(sub, text.drop_last());
            if sub.drop_last().len() > 0 {
                assert(is_subsequence(sub.drop_last(), text));
            }
        }
    }
}

/// `lcs_of` is a common subsequence, and `lcs_length` is its length.
pub proof fn lemma_lcs_is_attained(a: Seq<Seq<char>>, b: Seq<Seq<char>>)
    ensures
        is_subsequence(lcs_of(a, b), a),
        is_subsequence(lcs_of(a, b), b),
        lcs_of(a, b).len() == lcs_length(a, b),
    decreases a.len() + b.len(),
{
    if a.len() > 0 && b.len() > 0 {
        if a.last() == b.last() {
            lemma_lcs_is_attained(a.drop_last(), b.drop_last());
            let shorter = lcs_of(a.drop_last(), b.drop_last());
            assert(shorter.push(a.last()).drop_last() =~= shorter);
        } else if lcs_length(a.drop_last(), b) >= lcs_length(a, b.drop_last()) {
            lemma_lcs_is_attained(a.drop_last(), b);
        } else {
            lemma_lcs_is_attained(a, b.drop_last());
        }
    }
}

/// No common subsequence is longer than `lcs_length`.
pub proof fn lemma_lcs_is_longest(a: Seq<Seq<char>>, b: Seq<Seq<char>>, common: Seq<Seq<char>>)
    requires
        is_subsequence(common, a),
        is_subsequence(common, b),
    ensures
        common.len() <= lcs_length(a, b),
    decreases a.len() + b.len(),
{
    if common.len() > 0 {
        let rest = common.drop_last();
        let in_a = common.last() == a.last() && is_subsequence(rest, a.drop_last());
        let in_b = common.last() == b.last() && is_subsequence(rest, b.drop_last());
        if a.last() == b.last() {
            if is_subsequence(common, a.drop_last()) && is_subsequence(common, b.drop_last()) {
                lemma_lcs_is_longest(a.drop_last(), b.drop_last(), common);
            } else {
                if !in_a {
                    lemma_shorter_subsequence(common, a.drop_last());
                }
                if !in_b {
                    lemma_shorter_subsequence(common, b.drop_last());
                }
                lemma_lcs_is_longest(a.drop_last(), b.drop_last(), rest);
            }
        } else if is_subsequence(common, a.drop_last()) {
            lemma_lcs_is_longest(a.drop_last(), b, common);
        } else {
            lemma_lcs_is_longest(a, b.drop_last(), common);
        }
    }
}

/// Whether `grid` is the table of longest common subsequences of `a` and
/// `b`: the cell at row `i` and column `j` holds the length for the first
/// `i` lines of `a` and the first `j` lines of `b`.
pub open spec fn is_lcs_table(grid: Grid, a: Seq<Seq<char>>, b: Seq<Seq<char>>) -> bool {
    &&& grid.wf()
    &&& grid.rows() == a.len() + 1
    &&& grid.cols() == b.len() + 1
    &&& forall|i: int, j: int|
        0 <= i <= a.len() && 0 <= j <= b.len() ==> #[trigger] grid.at(i, j) == lcs_length(
            a.take(i),
            b.take(j),
        )
}

/// Fills the table of longest common subsequences of `seq1` and `seq2`.
pub fn lcs(seq1: &Vec<String>, seq2: &Vec<String>) -> (grid: Grid)
    requires
        (seq1@.len() + 1) * (seq2@.len() + 1) <= usize::MAX,
    ensures
        is_lcs_table(grid, lines_of(seq1@), lines_of(seq2@)),
{
    let ghost a = lines_of(seq1@);
    let ghost b = lines_of(seq2@);
    let m: usize = seq1.len();
    let n: usize = seq2.len();
    proof {
        assert(m + 1 <= (m + 1) * (n + 1)) by (nonlinear_arith)
            requires
                m >= 0,
                n >= 0,
        ;
        assert(n + 1 <= (m + 1) * (n + 1)) by (nonlinear_arith)
            requires
                m >= 0,
                n >= 0,
        ;
    }
    let rows: usize = m + 1;
    let cols: usize = n + 1;
    let mut grid = Grid::new(rows, cols);
    proof {
        assert forall|j: int| 0 <= j <= n implies #[trigger] grid.at(0, j) == lcs_length(
            a.take(0),
            b.take(j),
        ) by {}
    }
    let mut i: usize = 0;
    while i < m
        invariant
            i <= m,
            m == seq1@.len(),
            n == seq2@.len(),
            a == lines_of(seq1@),
            b == lines_of(seq2@),
            m + 1 <= usize::MAX,
            n + 1 <= usize::MAX,
            grid.wf(),
            grid.rows() == m + 1,
            grid.cols() == n + 1,
            forall|r: int, c: int|
                0 <= r <= i && 0 <= c <= n ==> #[trigger] grid.at(r, c) == lcs_length(
                    a.take(r),
                    b.take(c),
                ),
            forall|r: int, c: int| i < r <= m && 0 <= c <= n ==> #[trigger] grid.at(r, c) == 0,
        decreases m - i,
    {
        let mut j: usize = 0;
        while j < n
            invariant
                i < m,
                j <= n,
                m == seq1@.len(),
                n == seq2@.len(),
                a == lines_of(seq1@),
                b == lines_of(seq2@),
                m + 1 <= usize::MAX,
                n + 1 <= usize::MAX,
                grid.wf(),
                grid.rows() == m + 1,
                grid.cols() == n + 1,
                forall|r: int, c: int|
                    0 <= r <= i && 0 <= c <= n ==> #[trigger] grid.at(r, c) == lcs_length(
                        a.take(r),
                        b.take(c),
                    ),
                forall|c: int|
                    0 <= c <= j ==> #[trigger] grid.at(i + 1, c) == lcs_length(
                        a.take(i + 1),
                        b.take(c),
                    ),
                forall|c: int| j < c <= n ==> #[trigger] grid.at(i + 1, c) == 0,
                forall|r: int, c: int|
                    i + 1 < r <= m && 0 <= c <= n ==> #[trigger] grid.at(r, c) == 0,
            decreases n - j,
        {
            let ghost rows_a = a.take(i + 1);
            let ghost cols_b = b.take(j + 1);
            proof {
                assert(rows_a.drop_last() =~= a.take(i as int));
                assert(cols_b.drop_last() =~= b.take(j as int));
                assert(rows_a.last() == seq1@[i as int]@);
                assert(cols_b.last() == seq2@[j as int]@);
                lemma_lcs_bounded(a.take(i as int), b.take(j as int));
            }
            let value: usize = if seq1[i] == seq2[j] {
                match grid.get(i, j) {
                    Some(diagonal) => diagonal + 1,
                    None => 0,
                }
            } else {
                let left: usize = match grid.get(i + 1, j) {
                    Some(left) => left,
                    None => 0,
                };
                let up: usize = match grid.get(i, j + 1) {
                    Some(up) => up,
                    None => 0,
                };
                if up >= left {
                    up
                } else {
                    left
                }
            };
            assert(value == lcs_length(rows_a, cols_b));
            let _ = grid.set(i + 1, j + 1, value);
            j += 1;
        }
        i += 1;
    }
    proof {
        assert(a.len() == m && b.len() == n);
    }
    grid
}

/// One line of an edit script.
#[derive(Debug, PartialEq, Eq)]
pub enum DiffLine {
    /// A line that both texts have.
    Same(String),
    /// A line that only the second text has.
    Added(String),
    /// A line that only the first text has.
    Removed(String),
}

/// The lines of a script that come from the first text, in order.
pub open spec fn first_text(script: Seq<DiffLine>) -> Seq<Seq<char>>
    decreases script.len(),
{
    if script.len() == 0 {
        Seq::empty()
    } else {
        match script.last() {
            DiffLine::Same(line) => first_text(script.drop_last()).push(line@),
            DiffLine::Removed(line) => first_text(script.drop_last()).push(line@),
            DiffLine::Added(_) => first_text(script.drop_last()),
        }
    }
}

/// The lines of a script that come from the second text, in order.
pub open spec fn second_text(script: Seq<DiffLine>) -> Seq<Seq<char>>
    decreases script.len(),
{
    if script.len() == 0 {
        Seq::empty()
    } else {
        match script.last() {
            DiffLine::Same(line) => second_text(script.drop_last()).push(line@),
            DiffLine::Added(line) => second_text(script.drop_last()).push(line@),
            DiffLine::Removed(_) => second_text(script.drop_last()),
        }
    }
}

/// The number of lines of a script that both texts have.
pub open spec fn shared_lines(script: Seq<DiffLine>) -> nat
    decreases script.len(),
{
    if script.len() == 0 {
        0
    } else {
        shared_lines(script.drop_last()) + if script.last() is Same {
            1nat
        } else {
            0nat
        }
    }
}

/// The lines of a script that both texts have, in order.
pub open spec fn kept_text(script: Seq<DiffLine>) -> Seq<Seq<char>>
    decreases script.len(),
{
    if script.len() == 0 {
        Seq::empty()
    } else {
        match script.last() {
            DiffLine::Same(line) => kept_text(script.drop_last()).push(line@),
            _ => kept_text(script.drop_last()),
        }
    }
}

/// The lines that a script keeps can be had from either of its texts, and
/// they are as many as it has lines marked as kept.
pub proof fn lemma_kept_is_common(script: Seq<DiffLine>)
    ensures
        is_subsequence(kept_text(script), first_text(script)),
        is_subsequence(kept_text(script), second_text(script)),
        kept_text(script).len() == shared_lines(script),
    decreases script.len(),
{
    if script.len() > 0 {
        let init = script.drop_last();
        lemma_kept_is_common(init);
        match script.last() {
            DiffLine::Same(line) => {
                assert(kept_text(script).drop_last() =~= kept_text(init));
                assert(first_text(script).drop_last() =~= first_text(init));
                assert(second_text(script).drop_last() =~= second_text(init));
            },
            DiffLine::Added(line) => {
                lemma_subsequence_of_longer(kept_text(init), second_text(init), line@);
            },
            DiffLine::Removed(line) => {
                lemma_subsequence_of_longer(kept_text(init), first_text(init), line@);
            },
        }
    }
}

/// No script between two texts keeps more lines than a longest common
/// subsequence has: a script that keeps that many, as `print_diff` writes
/// with the table of `lcs`, is as short as a script can be.
pub proof fn lemma_no_script_keeps_more(script: Seq<DiffLine>)
    ensures
        shared_lines(script) <= lcs_length(first_text(script), second_text(script)),
{
    lemma_kept_is_common(script);
    lemma_lcs_is_longest(first_text(script), second_text(script), kept_text(script));
}

/// Appends to `script` the edit script that turns the first `i` lines of
/// `lines1` into the first `j` lines of `lines2`, as `lcs_table` guides it:
/// a line that both texts end in is kept; otherwise the last line of the
/// second text is added if leaving it out loses nothing, and the last line
/// of the first text is removed if not.
///
/// Whatever numbers the table holds, the script is faithful: its kept and
/// removed lines are the first text, its kept and added lines are the
/// second. With the table of longest common subsequences, the number of
/// lines it keeps is the length of a longest common subsequence.
pub fn print_diff(
    lcs_table: &Grid,
    lines1: &Vec<String>,
    lines2: &Vec<String>,
    i: usize,
    j: usize,
    script: &mut Vec<DiffLine>,
)
    requires
        lcs_table.wf(),
        i <= lines1@.len(),
        j <= lines2@.len(),
        i < lcs_table.rows(),
        j < lcs_table.cols(),
    ensures
        old(script)@.is_prefix_of(final(script)@),
        first_text(final(script)@) == first_text(old(script)@) + lines_of(lines1@).take(i as int),
        second_text(final(script)@) == second_text(old(script)@) + lines_of(lines2@).take(
            j as int,
        ),
        is_lcs_table(*lcs_table, lines_of(lines1@), lines_of(lines2@)) ==> shared_lines(
            final(script)@,
        ) == shared_lines(old(script)@) + lcs_length(
            lines_of(lines1@).take(i as int),
            lines_of(lines2@).take(j as int),
        ),
    decreases i + j,
{
    let ghost a = lines_of(lines1@);
    let ghost b = lines_of(lines2@);
    let ghost before = script@;
    proof {
        if i > 0 {
            assert(a.take(i as int).drop_last() =~= a.take(i - 1));
            assert(a.take(i as int).last() == lines1@[i - 1]@);
        }
        if j > 0 {
            assert(b.take(j as int).drop_last() =~= b.take(j - 1));
            assert(b.take(j as int).last() == lines2@[j - 1]@);
        }
    }
    if i > 0 && j > 0 && lines1[i - 1] == lines2[j - 1] {
        print_diff(lcs_table, lines1, lines2, i - 1, j - 1, script);
        let ghost middle = script@;
        script.push(DiffLine::Same(lines1[i - 1].clone()));
        proof {
            assert(script@.drop_last() =~= middle);
            assert(first_text(script@) =~= first_text(before) + a.take(i as int));
            assert(second_text(script@) =~= second_text(before) + b.take(j as int));
        }
    } else if j > 0 && (i == 0 || at_least(lcs_table.get(i, j - 1), lcs_table.get(i - 1, j))) {
        print_diff(lcs_table, lines1, lines2, i, j - 1, script);
        let ghost middle = script@;
        script.push(DiffLine::Added(lines2[j - 1].clone()));
        proof {
            assert(script@.drop_last() =~= middle);
            assert(second_text(script@) =~= second_text(before) + b.take(j as int));
        }
    } else if i > 0 {
        print_diff(lcs_table, lines1, lines2, i - 1, j, script);
        let ghost middle = script@;
        script.push(DiffLine::Removed(lines1[i - 1].clone()));
        proof {
            assert(script@.drop_last() =~= middle);
            assert(first_text(script@) =~= first_text(before) + a.take(i as int));
        }
    } else {
        proof {
            assert(a.take(0) =~= Seq::<Seq<char>>::empty());
            assert(b.take(0) =~= Seq::<Seq<char>>::empty());
            assert(first_text(before) + a.take(0) =~= first_text(before));
            assert(second_text(before) + b.take(0) =~= second_text(before));
        }
    }
}

/// Whether the first number is there and at least as large as the second.
fn at_least(first: Option<usize>, second: Option<usize>) -> (yes: bool)
    ensures
        yes == match (first, second) {
            (Some(x), Some(y)) => x >= y,
            _ => false,
        },
{
    match (first, second) {
        (Some(x), Some(y)) => x >= y,
        _ => false,
    }
}

} // verus!
