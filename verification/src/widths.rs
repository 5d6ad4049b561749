use vstd::prelude::*;

use crate::tree::Tree;
use crate::tree::TreeRowIter;
use crate::tree::TreeTableIter;
use crate::tree::cell_view;
use crate::tree::height;
use crate::tree::lemma_row_in_grid;
use crate::tree::size_fits;
use crate::tree::spec_row;
use crate::tree::width;

verus! {

/// The display width, in terminal cells, of a piece of text. It depends on
/// the characters alone.
pub uninterp spec fn display_width_of(s: Seq<char>) -> nat;

/// Relies on unicode_width's UnicodeWidthStr::width: the string's displayed
/// width in columns, a function of its characters alone (an empty string
/// occupies no columns).
#[verifier::external_body]
fn display_width(s: &str) -> (r: usize)
    ensures
        r == display_width_of(s@),
        s@.len() == 0 ==> r == 0,
{
    unicode_width::UnicodeWidthStr::width(s)
}

/// The display width a cell contributes to its column: a blank contributes
/// nothing.
pub open spec fn cell_width(c: Option<Seq<char>>) -> nat {
    match c {
        Some(l) => display_width_of(l),
        None => 0,
    }
}

/// The cell projected into row `r`, column `c` of the grid of `t`: rows
/// shorter than the full width leave their trailing columns blank.
pub open spec fn cell_at(t: Tree, r: int, c: int) -> Option<Seq<char>> {
    if 0 <= c < spec_row(t, r).len() {
        spec_row(t, r)[c]
    } else {
        None
    }
}

/// The larger of two widths.
pub open spec fn nat_max(a: nat, b: nat) -> nat {
    if a > b {
        a
    } else {
        b
    }
}

/// Maximum display width observed in column `c` over the first `rows` rows.
pub open spec fn col_max_upto(t: Tree, rows: int, c: int) -> nat
    decreases rows,
{
    if rows <= 0 {
        0
    } else {
        nat_max(col_max_upto(t, rows - 1, c), cell_width(cell_at(t, rows - 1, c)))
    }
}

/// Maximum display width of any cell ever projected into column `c`.
pub open spec fn col_width(t: Tree, c: int) -> nat {
    col_max_upto(t, height(t) as int, c)
}

/// The aggregated width of a column is an upper bound for every cell in it.
pub proof fn lemma_col_width_is_max(t: Tree, r: int, c: int, rows: int)
    requires
        0 <= r < rows,
    ensures
        cell_width(cell_at(t, r, c)) <= col_max_upto(t, rows, c),
    decreases rows,
{
    if r < rows - 1 {
        lemma_col_width_is_max(t, r, c, rows - 1);
    }
}

/// Column-width aggregation is monotone: if every cell of column `c` in one
/// grid is at most as wide as the cell at the same place in another grid of
/// the same height, the aggregated width can only grow from the first grid
/// to the second. In particular, making one label in a column wider never
/// shrinks that column's aggregated width.
pub proof fn lemma_col_width_monotone(t1: Tree, t2: Tree, c: int, rows: int)
    requires
        forall|r: int|
            0 <= r < rows ==> cell_width(cell_at(t1, r, c)) <= cell_width(cell_at(t2, r, c)),
    ensures
        col_max_upto(t1, rows, c) <= col_max_upto(t2, rows, c),
    decreases rows,
{
    if rows > 0 {
        lemma_col_width_monotone(t1, t2, c, rows - 1);
    }
}

/// Scan every row of the grid once and compute, for each of the `width(tree)`
/// columns, the maximum display width of any cell projected into it.
pub fn column_widths(tree: &Tree) -> (widths: Vec<usize>)
    requires
        size_fits(*tree),
    ensures
        widths@.len() == width(*tree),
        forall|c: int| 0 <= c < widths@.len() ==> widths@[c] == col_width(*tree, c),
{
    let (w, h) = tree.size();
    let mut widths: Vec<usize> = Vec::new();
    while widths.len() < w
        invariant
            widths@.len() <= w,
            forall|c: int| 0 <= c < widths@.len() ==> widths@[c] == 0,
        decreases w - widths@.len(),
    {
        widths.push(0);
    }
    let mut it = TreeTableIter::new(tree);
    let mut r: usize = 0;
    while r < h
        invariant
            size_fits(*tree),
            w == width(*tree),
            h == height(*tree),
            it.wf(),
            it.spec_tree() == *tree,
            it.spec_row_idx() == r as int,
            r <= h,
            widths@.len() == w,
            forall|c: int| 0 <= c < w ==> widths@[c] == col_max_upto(*tree, r as int, c),
        decreases h - r,
    {
        let row = it.next();
        let mut row_it: TreeRowIter = row.unwrap();
        let ghost full = spec_row(*tree, r as int);
        let mut c: usize = 0;
        proof {
            lemma_row_in_grid(*tree, r as int);
            assert(row_it.remaining() =~= full.subrange(0, full.len() as int));
        }
        loop
            invariant
                size_fits(*tree),
                w == width(*tree),
                widths@.len() == w,
                full == spec_row(*tree, r as int),
                full.len() <= w,
                c <= full.len(),
                row_it.remaining() == full.subrange(c as int, full.len() as int),
                forall|k: int|
                    0 <= k < w ==> widths@[k] == (if k < c {
                        nat_max(col_max_upto(*tree, r as int, k), cell_width(full[k]))
                    } else {
                        col_max_upto(*tree, r as int, k)
                    }),
            ensures
                c == full.len(),
                forall|k: int|
                    0 <= k < w ==> widths@[k] == (if k < c {
                        nat_max(col_max_upto(*tree, r as int, k), cell_width(full[k]))
                    } else {
                        col_max_upto(*tree, r as int, k)
                    }),
            decreases full.len() - c,
        {
            let cell = match row_it.next() {
                Some(cell) => cell,
                None => { break ; },
            };
            let cw: usize = match cell {
                Some(text) => display_width(text),
                None => 0,
            };
            proof {
                assert(cell_view(cell) == full[c as int]);
                assert(row_it.remaining() =~= full.subrange(c as int + 1, full.len() as int));
            }
            if cw > widths[c] {
                widths[c] = cw;
            }
            c = c + 1;
        }
        proof {
            assert forall|k: int| 0 <= k < w implies widths@[k] == col_max_upto(
                *tree,
                r as int + 1,
                k,
            ) by {
                assert(cell_at(*tree, r as int, k) == (if 0 <= k < full.len() {
                    full[k]
                } else {
                    None
                }));
            }
        }
        r = r + 1;
    }
    widths
}

/// The text a cell paints: a label's text, or nothing for a blank.
pub open spec fn cell_text(c: Option<Seq<char>>) -> Seq<char> {
    match c {
        Some(l) => l,
        None => Seq::empty(),
    }
}

/// What a row walk has left once `j` cells of a row are consumed: the rest
/// of the row, or nothing once the row has run out.
pub open spec fn row_rest(full: Seq<Option<Seq<char>>>, j: int) -> Seq<Option<Seq<char>>> {
    if j <= full.len() {
        full.subrange(j, full.len() as int)
    } else {
        Seq::empty()
    }
}

/// Assemble the visible sub-grid for one repaint: for each row of
/// `row_offset .. row_offset + n_rows` that exists (rows run out at the grid
/// boundary), the texts of the cells in columns
/// `col_offset .. col_offset + n_cols`, blanks and missing trailing cells
/// rendered as empty text, every row padded to exactly `n_cols` entries.
pub fn visible_cells(
    tree: &Tree,
    col_offset: usize,
    row_offset: usize,
    n_cols: usize,
    n_rows: usize,
) -> (grid: Vec<Vec<String>>)
    requires
        size_fits(*tree),
    ensures
        grid@.len() == (if height(*tree) <= row_offset {
            0int
        } else if height(*tree) - row_offset < n_rows {
            height(*tree) - row_offset
        } else {
            n_rows as int
        }),
        forall|k: int| 0 <= k < grid@.len() ==> grid@[k]@.len() == n_cols,
        forall|k: int, c: int|
            0 <= k < grid@.len() && 0 <= c < n_cols ==> grid@[k]@[c]@ == cell_text(
                cell_at(*tree, row_offset + k, col_offset + c),
            ),
{
    let (_, h) = tree.size();
    let mut grid: Vec<Vec<String>> = Vec::new();
    let mut r: usize = row_offset;
    while r < h && r - row_offset < n_rows
        invariant
            size_fits(*tree),
            h == height(*tree),
            row_offset <= r <= h || (r == row_offset && grid@.len() == 0),
            r - row_offset <= n_rows,
            grid@.len() == r - row_offset,
            forall|k: int| 0 <= k < grid@.len() ==> grid@[k]@.len() == n_cols,
            forall|k: int, c: int|
                0 <= k < grid@.len() && 0 <= c < n_cols ==> grid@[k]@[c]@ == cell_text(
                    cell_at(*tree, row_offset + k, col_offset + c),
                ),
        decreases h - r,
    {
        let mut row_it = TreeRowIter::new(tree, r);
        let ghost full = spec_row(*tree, r as int);
        proof {
            assert(row_it.remaining() =~= row_rest(full, 0));
        }
        let mut j: usize = 0;
        while j < col_offset
            invariant
                j <= col_offset,
                full == spec_row(*tree, r as int),
                row_it.remaining() == row_rest(full, j as int),
            decreases col_offset - j,
        {
            row_it.next();
            proof {
                assert(row_it.remaining() =~= row_rest(full, j as int + 1));
            }
            j = j + 1;
        }
        let mut row: Vec<String> = Vec::new();
        let mut c: usize = 0;
        while c < n_cols
            invariant
                c <= n_cols,
                full == spec_row(*tree, r as int),
                row_it.remaining() == row_rest(full, col_offset + c),
                row@.len() == c,
                forall|x: int|
                    0 <= x < c ==> row@[x]@ == cell_text(
                        cell_at(*tree, r as int, col_offset + x),
                    ),
            decreases n_cols - c,
        {
            let text: String = match row_it.next() {
                Some(Some(s)) => s.to_owned(),
                Some(None) => String::new(),
                None => String::new(),
            };
            proof {
                assert(row_it.remaining() =~= row_rest(full, col_offset + c + 1));
            }
            row.push(text);
            c = c + 1;
        }
        grid.push(row);
        r = r + 1;
    }
    grid
}

/// How many columns, starting at `offset`, fit fully in `avail` cells of
/// terminal width: columns are taken greedily until the running total would
/// exceed the available width, so a column that fits exactly is still shown;
/// a column that does not fully fit is not shown at all.
pub open spec fn spec_fit(ws: Seq<usize>, i: int, avail: int) -> nat
    decreases ws.len() - i,
{
    if i < 0 || i >= ws.len() || avail < ws[i] {
        0
    } else {
        1 + spec_fit(ws, i + 1, avail - ws[i])
    }
}

/// Count how many columns of the given widths, starting at `offset`, fit
/// fully in a window `avail` cells wide.
pub fn fit_columns(widths: &Vec<usize>, offset: usize, avail: usize) -> (n: usize)
    ensures
        n == spec_fit(widths@, offset as int, avail as int),
        offset + n <= widths@.len() || n == 0,
{
    let mut i: usize = offset;
    let mut a: usize = avail;
    let mut n: usize = 0;
    while i < widths.len() && a >= widths[i]
        invariant
            offset <= i <= widths@.len() || (i == offset && n == 0),
            n == i - offset,
            a <= avail,
            spec_fit(widths@, offset as int, avail as int) == n + spec_fit(
                widths@,
                i as int,
                a as int,
            ),
        decreases widths@.len() - i,
    {
        a = a - widths[i];
        i = i + 1;
        n = n + 1;
    }
    n
}

} // verus!
