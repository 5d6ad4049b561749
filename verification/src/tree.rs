use vstd::prelude::*;
use vstd::multiset::Multiset;

verus! {

/// A labeled n-ary tree node: a label and an ordered sequence of owned
/// children. A node with no children is a leaf. The tree is plain data,
/// immutable once built.
#[derive(Debug)]
pub struct Tree {
    pub label: String,
    pub children: Vec<Tree>,
}

/// Grid height of a subtree: a leaf occupies exactly one row; an internal
/// node's height is the sum of its children's heights.
pub open spec fn height(t: Tree) -> nat
    decreases t, 0int,
{
    if t.children@.len() == 0 {
        1
    } else {
        heights_sum(t.children@, 0)
    }
}

/// Sum of the heights of the children of a node, from index `i` on.
pub open spec fn heights_sum(s: Seq<Tree>, i: int) -> nat
    decreases s, s.len() - i,
{
    if i < 0 || i >= s.len() {
        0
    } else {
        height(s[i]) + heights_sum(s, i + 1)
    }
}

/// Grid width of a subtree: the number of columns it spans, i.e. the length
/// of the longest root-to-leaf path.
pub open spec fn width(t: Tree) -> nat
    decreases t, 0int,
{
    1 + widths_max(t.children@, 0)
}

/// Maximum width among the children of a node, from index `i` on.
pub open spec fn widths_max(s: Seq<Tree>, i: int) -> nat
    decreases s, s.len() - i,
{
    if i < 0 || i >= s.len() {
        0
    } else {
        let rest = widths_max(s, i + 1);
        let w = width(s[i]);
        if w > rest {
            w
        } else {
            rest
        }
    }
}

/// Every subtree occupies at least one row.
pub proof fn lemma_height_pos(t: Tree)
    ensures
        height(t) >= 1,
    decreases t, 0int,
{
    if t.children@.len() > 0 {
        lemma_height_pos(t.children@[0]);
        lemma_heights_sum_le(t.children@, 0, 0);
    }
}

/// A single child's height is bounded by the sum from any earlier index.
pub proof fn lemma_heights_sum_le(s: Seq<Tree>, i: int, j: int)
    requires
        0 <= i <= j < s.len(),
    ensures
        height(s[j]) <= heights_sum(s, i),
    decreases j - i,
{
    if i < j {
        lemma_heights_sum_le(s, i + 1, j);
    }
}

/// A single child's width is bounded by the running maximum.
pub proof fn lemma_widths_max_le(s: Seq<Tree>, i: int, j: int)
    requires
        0 <= i <= j < s.len(),
    ensures
        width(s[j]) <= widths_max(s, i),
    decreases j - i,
{
    if i < j {
        lemma_widths_max_le(s, i + 1, j);
    }
}

/// A height floored at one row.
pub open spec fn floor1(n: nat) -> nat {
    if n < 1 {
        1
    } else {
        n
    }
}

/// Sum of the children's heights from index `i` on, each floored at 1.
pub open spec fn floored_heights_sum(s: Seq<Tree>, i: int) -> nat
    decreases s, s.len() - i,
{
    if i < 0 || i >= s.len() {
        0
    } else {
        floor1(height(s[i])) + floored_heights_sum(s, i + 1)
    }
}

proof fn lemma_floored_heights_sum(s: Seq<Tree>, i: int)
    requires
        0 <= i <= s.len(),
    ensures
        floored_heights_sum(s, i) == heights_sum(s, i),
    decreases s.len() - i,
{
    if i < s.len() {
        lemma_height_pos(s[i]);
        lemma_floored_heights_sum(s, i + 1);
    }
}

/// The defining equations of the grid dimensions, in their stated form: a
/// leaf's grid is one row by one column; an internal node's height is the
/// sum of its children's heights each floored at 1, and its width one more
/// than its widest child's.
pub proof fn lemma_grid_dims(t: Tree)
    ensures
        t.children@.len() == 0 ==> height(t) == 1 && width(t) == 1,
        t.children@.len() > 0 ==> height(t) == floored_heights_sum(t.children@, 0),
        width(t) == 1 + widths_max(t.children@, 0),
{
    lemma_floored_heights_sum(t.children@, 0);
}

/// The grid dimensions of a subtree fit in `usize`, so its sizes can be
/// computed without overflow.
pub open spec fn size_fits(t: Tree) -> bool {
    width(t) <= usize::MAX && height(t) <= usize::MAX
}

/// Dimensions of a child never exceed those of the parent (the width is
/// strictly below it), so fitting is inherited.
pub proof fn lemma_child_fits(t: Tree, i: int)
    requires
        0 <= i < t.children@.len(),
        size_fits(t),
    ensures
        size_fits(t.children@[i]),
        height(t.children@[i]) <= height(t),
        width(t.children@[i]) < width(t),
{
    lemma_heights_sum_le(t.children@, 0, i);
    lemma_widths_max_le(t.children@, 0, i);
}

/// The node revealed at relative row `r` of the forest `s[i..]`, as a pair
/// `(descents, node)`: scanning the forest in order, rows are consumed by
/// whole subtrees until the subtree containing `r` is found, and the search
/// descends into it.
pub open spec fn locate_seq(s: Seq<Tree>, i: int, r: int) -> (nat, Tree)
    decreases s, s.len() - i,
{
    if i < 0 || i >= s.len() {
        (0, arbitrary())
    } else if height(s[i]) > r {
        let (d, n) = locate(s[i], r);
        ((d + 1) as nat, n)
    } else {
        locate_seq(s, i + 1, r - height(s[i]))
    }
}

/// The node revealed at row `r` of the grid of `t`, as `(column, node)`:
/// row 0 reveals `t` itself in its own column; a later row is resolved among
/// the children, one column further right.
pub open spec fn locate(t: Tree, r: int) -> (nat, Tree)
    decreases t, 0int,
{
    if r == 0 {
        (0, t)
    } else {
        locate_seq(t.children@, 0, r)
    }
}

/// Column at which the node revealed by row `r` is drawn.
pub open spec fn row_offset(t: Tree, r: int) -> nat {
    locate(t, r).0
}

/// The node first revealed at row `r`.
pub open spec fn row_node(t: Tree, r: int) -> Tree {
    locate(t, r).1
}

/// Labels along the leftmost-descendant chain starting at `t`, the chain of
/// nodes all first revealed on the same row.
pub open spec fn chain(t: Tree) -> Seq<Seq<char>>
    decreases t,
{
    if t.children@.len() == 0 {
        seq![t.label@]
    } else {
        seq![t.label@] + chain(t.children@[0])
    }
}

/// The full (unpadded) contents of row `r` of the grid of `t`: blank cells
/// for the columns of already-revealed ancestors, then the labels of the
/// leftmost chain from the revealed node.
pub open spec fn spec_row(t: Tree, r: int) -> Seq<Option<Seq<char>>> {
    Seq::new(row_offset(t, r), |i: int| None) + chain(row_node(t, r)).map_values(
        |l: Seq<char>| Some(l),
    )
}

/// The leftmost chain spans at least one column and at most the subtree's
/// width.
pub proof fn lemma_chain_len(t: Tree)
    ensures
        1 <= chain(t).len() <= width(t),
    decreases t,
{
    if t.children@.len() > 0 {
        lemma_chain_len(t.children@[0]);
        lemma_widths_max_le(t.children@, 0, 0);
    }
}

proof fn lemma_locate_seq_bounds(s: Seq<Tree>, i: int, r: int)
    requires
        0 <= i <= s.len(),
        0 <= r < heights_sum(s, i),
    ensures
        i < s.len(),
        1 <= locate_seq(s, i, r).0,
        locate_seq(s, i, r).0 + width(locate_seq(s, i, r).1) <= 1 + widths_max(s, i),
    decreases s, s.len() - i,
{
    if height(s[i]) > r {
        lemma_locate_bounds(s[i], r);
        lemma_widths_max_le(s, i, i);
    } else {
        lemma_locate_seq_bounds(s, i + 1, r - height(s[i]));
    }
}

/// Locating any valid row stays inside the grid: the revealed node's column
/// plus its own width never passes the total width.
pub proof fn lemma_locate_bounds(t: Tree, r: int)
    requires
        0 <= r < height(t),
    ensures
        row_offset(t, r) + width(row_node(t, r)) <= width(t),
    decreases t, 0int,
{
    if r != 0 {
        lemma_locate_seq_bounds(t.children@, 0, r);
    }
}

/// The column of the node revealed at a valid row is a valid column index.
pub proof fn lemma_row_in_grid(t: Tree, r: int)
    requires
        0 <= r < height(t),
    ensures
        row_offset(t, r) < width(t),
        1 + row_offset(t, r) <= spec_row(t, r).len() <= width(t),
{
    lemma_locate_bounds(t, r);
    lemma_chain_len(row_node(t, r));
}

impl Tree {
    /// Grid dimensions `(width, height)` of the subtree rooted here.
    pub fn size(&self) -> (r: (usize, usize))
        requires
            size_fits(*self),
        ensures
            r.0 == width(*self),
            r.1 == height(*self),
        decreases *self,
    {
        let mut w: usize = 0;
        let mut h: usize = 0;
        let mut i: usize = 0;
        let n = self.children.len();
        while i < n
            invariant
                size_fits(*self),
                n == self.children@.len(),
                0 <= i <= n,
                widths_max(self.children@, 0) == if w > widths_max(self.children@, i as int) {
                    w as nat
                } else {
                    widths_max(self.children@, i as int)
                },
                heights_sum(self.children@, 0) == h + heights_sum(self.children@, i as int),
                w <= widths_max(self.children@, 0),
                h <= heights_sum(self.children@, 0),
            decreases n - i,
        {
            proof {
                lemma_child_fits(*self, i as int);
            }
            let child = &self.children[i];
            let (cw, ch) = child.size();
            proof {
                lemma_heights_sum_le(self.children@, i as int, i as int);
                lemma_widths_max_le(self.children@, i as int, i as int);
            }
            if cw > w {
                w = cw;
            }
            h = h + ch;
            i = i + 1;
        }
        proof {
            if self.children@.len() > 0 {
                lemma_height_pos(self.children@[0]);
                lemma_heights_sum_le(self.children@, 0, 0);
            }
        }
        let fh: usize = if h > 1 { h } else { 1 };
        (w + 1, fh)
    }
}

/// All labels of the nodes of `t`, one occurrence per node.
pub open spec fn labels(t: Tree) -> Multiset<Seq<char>>
    decreases t, 0int,
{
    Multiset::singleton(t.label@).add(labels_seq(t.children@, 0))
}

/// All labels of the nodes of the forest `s[i..]`.
pub open spec fn labels_seq(s: Seq<Tree>, i: int) -> Multiset<Seq<char>>
    decreases s, s.len() - i,
{
    if i < 0 || i >= s.len() {
        Multiset::empty()
    } else {
        labels(s[i]).add(labels_seq(s, i + 1))
    }
}

/// The labels of the leftmost chain from `t`, i.e. the non-blank labels of
/// the one row that first reveals `t`, as a multiset.
pub open spec fn chain_labels(t: Tree) -> Multiset<Seq<char>>
    decreases t,
{
    if t.children@.len() == 0 {
        Multiset::singleton(t.label@)
    } else {
        Multiset::singleton(t.label@).add(chain_labels(t.children@[0]))
    }
}

/// The chain's label multiset is exactly the chain sequence, forgetting
/// order.
pub proof fn lemma_chain_labels_are_chain(t: Tree)
    ensures
        chain_labels(t) == chain(t).to_multiset(),
    decreases t,
{
    broadcast use vstd::seq_lib::group_to_multiset_ensures;

    if t.children@.len() == 0 {
        assert(chain(t) =~= Seq::empty().push(t.label@));
        assert(chain(t).to_multiset() =~= Multiset::singleton(t.label@));
    } else {
        lemma_chain_labels_are_chain(t.children@[0]);
        vstd::seq_lib::lemma_multiset_commutative(seq![t.label@], chain(t.children@[0]));
        assert(seq![t.label@] =~= Seq::empty().push(t.label@));
        assert(seq![t.label@].to_multiset() =~= Multiset::singleton(t.label@));
        assert(chain(t).to_multiset() =~= chain_labels(t));
    }
}

/// The non-blank labels of rows `[a, b)` of the grid of `t`.
pub open spec fn rows_labels(t: Tree, a: int, b: int) -> Multiset<Seq<char>>
    decreases b - a,
{
    if a >= b {
        Multiset::empty()
    } else {
        chain_labels(row_node(t, a)).add(rows_labels(t, a + 1, b))
    }
}

/// The node revealed at relative row `r` of the forest `s[i..]`.
pub open spec fn forest_node(s: Seq<Tree>, i: int, r: int) -> Tree {
    locate_seq(s, i, r).1
}

/// The non-blank labels of relative rows `[a, b)` of the forest `s[i..]`.
pub open spec fn forest_rows_labels(s: Seq<Tree>, i: int, a: int, b: int) -> Multiset<Seq<char>>
    decreases b - a,
{
    if a >= b {
        Multiset::empty()
    } else {
        chain_labels(forest_node(s, i, a)).add(forest_rows_labels(s, i, a + 1, b))
    }
}

proof fn lemma_rows_labels_split(t: Tree, a: int, b: int, c: int)
    requires
        a <= b <= c,
    ensures
        rows_labels(t, a, c) == rows_labels(t, a, b).add(rows_labels(t, b, c)),
    decreases b - a,
{
    if a >= b {
        assert(rows_labels(t, a, b) == Multiset::<Seq<char>>::empty());
        assert(rows_labels(t, a, c) =~= rows_labels(t, a, b).add(rows_labels(t, b, c)));
    } else {
        lemma_rows_labels_split(t, a + 1, b, c);
        assert(rows_labels(t, a, c) =~= rows_labels(t, a, b).add(rows_labels(t, b, c)));
    }
}

proof fn lemma_forest_rows_split(s: Seq<Tree>, i: int, a: int, b: int, c: int)
    requires
        a <= b <= c,
    ensures
        forest_rows_labels(s, i, a, c) == forest_rows_labels(s, i, a, b).add(
            forest_rows_labels(s, i, b, c),
        ),
    decreases b - a,
{
    if a >= b {
        assert(forest_rows_labels(s, i, a, b) == Multiset::<Seq<char>>::empty());
        assert(forest_rows_labels(s, i, a, c) =~= forest_rows_labels(s, i, a, b).add(
            forest_rows_labels(s, i, b, c),
        ));
    } else {
        lemma_forest_rows_split(s, i, a + 1, b, c);
        assert(forest_rows_labels(s, i, a, c) =~= forest_rows_labels(s, i, a, b).add(
            forest_rows_labels(s, i, b, c),
        ));
    }
}

/// Rows of the forest that fall inside its first tree are rows of that tree.
proof fn lemma_forest_rows_are_tree_rows(s: Seq<Tree>, i: int, a: int, b: int)
    requires
        0 <= i < s.len(),
        0 <= a <= b <= height(s[i]),
    ensures
        forest_rows_labels(s, i, a, b) == rows_labels(s[i], a, b),
    decreases b - a,
{
    if a < b {
        lemma_forest_rows_are_tree_rows(s, i, a + 1, b);
        assert(forest_node(s, i, a) == row_node(s[i], a));
    }
}

/// Rows of the forest past its first tree are rows of the rest of the
/// forest, shifted by that tree's height.
proof fn lemma_forest_rows_shift(s: Seq<Tree>, i: int, a: int, b: int)
    requires
        0 <= i < s.len(),
        height(s[i]) <= a <= b,
    ensures
        forest_rows_labels(s, i, a, b) == forest_rows_labels(
            s,
            i + 1,
            a - height(s[i]),
            b - height(s[i]),
        ),
    decreases b - a,
{
    if a < b {
        lemma_forest_rows_shift(s, i, a + 1, b);
        assert(forest_node(s, i, a) == forest_node(s, i + 1, a - height(s[i])));
    }
}

/// Rows `[a, b)` of a tree with children, for `a >= 1`, are the same rows of
/// the forest of its children.
proof fn lemma_tree_rows_are_forest_rows(t: Tree, a: int, b: int)
    requires
        1 <= a <= b,
    ensures
        rows_labels(t, a, b) == forest_rows_labels(t.children@, 0, a, b),
    decreases b - a,
{
    if a < b {
        lemma_tree_rows_are_forest_rows(t, a + 1, b);
        assert(row_node(t, a) == forest_node(t.children@, 0, a));
    }
}

proof fn lemma_forest_labels_once(s: Seq<Tree>, i: int)
    requires
        0 <= i <= s.len(),
    ensures
        forest_rows_labels(s, i, 0, heights_sum(s, i) as int) == labels_seq(s, i),
    decreases s, s.len() - i,
{
    if i < s.len() {
        let hi = height(s[i]) as int;
        let total = heights_sum(s, i) as int;
        lemma_height_pos(s[i]);
        lemma_forest_rows_split(s, i, 0, hi, total);
        lemma_forest_rows_are_tree_rows(s, i, 0, hi);
        lemma_tree_labels_once(s[i]);
        lemma_forest_rows_shift(s, i, hi, total);
        lemma_forest_labels_once(s, i + 1);
    }
}

/// Every node's label is drawn on exactly one row: over all `height(t)` rows
/// of the grid, the non-blank labels form exactly the multiset of the tree's
/// node labels, one occurrence per node.
pub proof fn lemma_tree_labels_once(t: Tree)
    ensures
        rows_labels(t, 0, height(t) as int) == labels(t),
    decreases t, 1int,
{
    let h = height(t) as int;
    if t.children@.len() == 0 {
        assert(row_node(t, 0) == t);
        assert(rows_labels(t, 0, 1) =~= chain_labels(t).add(Multiset::empty()));
        assert(labels_seq(t.children@, 0) == Multiset::<Seq<char>>::empty());
        assert(labels(t) =~= Multiset::singleton(t.label@).add(Multiset::empty()));
    } else {
        let s = t.children@;
        let c0 = s[0];
        lemma_height_pos(c0);
        lemma_heights_sum_le(s, 0, 0);
        // the first row reveals the whole leftmost chain of t
        assert(row_node(t, 0) == t);
        assert(rows_labels(t, 0, h) == chain_labels(t).add(rows_labels(t, 1, h)));
        lemma_tree_rows_are_forest_rows(t, 1, h);
        // the forest of children covers the same rows, plus its own row 0,
        // whose labels are the chain of the first child
        lemma_forest_labels_once(s, 0);
        assert(height(t) == heights_sum(s, 0));
        assert(forest_rows_labels(s, 0, 0, h) == labels_seq(s, 0));
        assert(locate(c0, 0) == (0nat, c0));
        assert(forest_node(s, 0, 0) == c0) by {
            reveal_with_fuel(locate_seq, 2);
        }
        assert(forest_rows_labels(s, 0, 0, h) == chain_labels(c0).add(
            forest_rows_labels(s, 0, 1, h),
        ));
        assert(chain_labels(t) == Multiset::singleton(t.label@).add(chain_labels(c0)));
        assert(rows_labels(t, 0, h) =~= Multiset::singleton(t.label@).add(
            chain_labels(c0).add(forest_rows_labels(s, 0, 1, h)),
        ));
        assert(labels(t) == Multiset::singleton(t.label@).add(labels_seq(s, 0)));
    }
}

/// What a produced cell denotes: a blank, or the text of a label.
pub open spec fn cell_view(c: Option<&str>) -> Option<Seq<char>> {
    match c {
        Some(s) => Some(s@),
        None => None,
    }
}

/// Single-pass producer of one row's cells, left to right: first the blank
/// ancestor columns, then the labels of the leftmost chain from the revealed
/// node.
pub struct TreeRowIter<'a> {
    tree: Option<&'a Tree>,
    offset: usize,
}

impl<'a> TreeRowIter<'a> {
    /// The cells this producer has yet to hand out.
    pub closed spec fn remaining(self) -> Seq<Option<Seq<char>>> {
        Seq::new(self.offset as nat, |i: int| None) + match self.tree {
            Some(t) => chain(*t).map_values(|l: Seq<char>| Some(l)),
            None => Seq::<Option<Seq<char>>>::empty(),
        }
    }

    /// Locate the node revealed at `row` and set up the walk of that row's
    /// cells.
    pub fn new(tree: &'a Tree, row: usize) -> (it: Self)
        requires
            size_fits(*tree),
            row < height(*tree),
        ensures
            it.remaining() == spec_row(*tree, row as int),
    {
        let mut cur: &'a Tree = tree;
        let mut r: usize = row;
        let mut offset: usize = 0;
        while r != 0
            invariant
                size_fits(*tree),
                size_fits(*cur),
                r < height(*cur),
                locate(*tree, row as int).0 == offset + locate(*cur, r as int).0,
                locate(*tree, row as int).1 == locate(*cur, r as int).1,
                offset + width(*cur) <= width(*tree),
            decreases *cur,
        {
            let ghost s = cur.children@;
            let ghost r0 = r as int;
            let n = cur.children.len();
            let mut i: usize = 0;
            let mut rr: usize = r;
            proof {
                lemma_height_pos(*cur);
            }
            loop
                invariant
                    size_fits(*cur),
                    n == cur.children@.len(),
                    i < n,
                    cur.children@ == s,
                    0 <= rr <= r,
                    rr < heights_sum(s, i as int),
                    locate_seq(s, i as int, rr as int) == locate_seq(s, 0, r0),
                ensures
                    i < cur.children@.len(),
                    height(cur.children@[i as int]) > rr,
                    locate_seq(s, i as int, rr as int) == locate_seq(s, 0, r0),
                decreases s.len() - i,
            {
                proof {
                    lemma_child_fits(*cur, i as int);
                }
                let child = &cur.children[i];
                let (_, ch) = child.size();
                if ch > rr {
                    break ;
                }
                proof {
                    assert(heights_sum(s, i as int) == height(s[i as int]) + heights_sum(
                        s,
                        i as int + 1,
                    ));
                    assert(rr - ch < heights_sum(s, i as int + 1));
                    if i as int + 1 >= s.len() {
                        assert(heights_sum(s, i as int + 1) == 0);
                        assert(false);
                    }
                }
                rr = rr - ch;
                i = i + 1;
            }
            proof {
                lemma_child_fits(*cur, i as int);
                assert(width(*cur) >= 1);
            }
            offset = offset + 1;
            cur = &cur.children[i];
            r = rr;
        }
        let it = TreeRowIter { tree: Some(cur), offset };
        proof {
            assert(it.remaining() =~= spec_row(*tree, row as int));
        }
        it
    }

    /// Hand out the next cell of the row: `None` once the row is exhausted,
    /// otherwise `Some` of a blank or of a label.
    pub fn next(&mut self) -> (r: Option<Option<&'a str>>)
        ensures
            old(self).remaining().len() == 0 ==> r is None && final(self).remaining()
                == old(self).remaining(),
            old(self).remaining().len() > 0 ==> {
                &&& r is Some
                &&& cell_view(r->0) == old(self).remaining()[0]
                &&& final(self).remaining() == old(self).remaining().drop_first()
            },
    {
        if self.offset > 0 {
            self.offset = self.offset - 1;
            proof {
                assert(self.remaining() =~= old(self).remaining().drop_first());
            }
            return Some(None);
        }
        match self.tree {
            Some(t) => {
                if t.children.len() > 0 {
                    self.tree = Some(&t.children[0]);
                } else {
                    self.tree = None;
                }
                proof {
                    assert(self.remaining() =~= old(self).remaining().drop_first());
                }
                Some(Some(t.label.as_str()))
            },
            None => None,
        }
    }
}

/// Producer of the grid's rows in order, one `TreeRowIter` per global row.
pub struct TreeTableIter<'a> {
    tree: &'a Tree,
    row: usize,
    end: usize,
}

impl<'a> TreeTableIter<'a> {
    /// The tree whose rows are walked.
    pub closed spec fn spec_tree(self) -> Tree {
        *self.tree
    }

    /// The next global row index to produce.
    pub closed spec fn spec_row_idx(self) -> int {
        self.row as int
    }

    /// The walk is set up against the tree's true grid height.
    pub closed spec fn wf(self) -> bool {
        self.end == height(*self.tree) && size_fits(*self.tree)
    }

    /// Start the walk of all `height(tree)` rows.
    pub fn new(tree: &'a Tree) -> (it: Self)
        requires
            size_fits(*tree),
        ensures
            it.wf(),
            it.spec_tree() == *tree,
            it.spec_row_idx() == 0,
    {
        let (_, h) = tree.size();
        TreeTableIter { tree, row: 0, end: h }
    }

    /// Hand out the next row's cell producer, or `None` when all
    /// `height(tree)` rows have been produced.
    pub fn next(&mut self) -> (r: Option<TreeRowIter<'a>>)
        requires
            old(self).wf(),
        ensures
            final(self).wf(),
            final(self).spec_tree() == old(self).spec_tree(),
            old(self).spec_row_idx() >= height(old(self).spec_tree()) ==> r is None
                && final(self).spec_row_idx() == old(self).spec_row_idx(),
            old(self).spec_row_idx() < height(old(self).spec_tree()) ==> {
                &&& r is Some
                &&& r->0.remaining() == spec_row(old(self).spec_tree(), old(self).spec_row_idx())
                &&& final(self).spec_row_idx() == old(self).spec_row_idx() + 1
            },
    {
        if self.row >= self.end {
            return None;
        }
        let item = TreeRowIter::new(self.tree, self.row);
        self.row = self.row + 1;
        Some(item)
    }
}

} // verus!
