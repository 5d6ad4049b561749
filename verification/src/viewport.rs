use vstd::prelude::*;

verus! {

/// How many cells a page-sized pan moves.
pub const PAGE: usize = 10;

/// A discrete navigation command: one pan of the viewport, by a single cell
/// or by a page.
#[derive(Clone, Copy, PartialEq, Eq, Structural, Debug)]
pub enum Command {
    LeftSmall,
    LeftLarge,
    RightSmall,
    RightLarge,
    UpSmall,
    UpLarge,
    DownSmall,
    DownLarge,
}

/// The viewport: the top-left position of the visible window within the grid.
#[derive(Clone, Copy, PartialEq, Eq, Structural, Debug)]
pub struct Viewport {
    pub col: usize,
    pub row: usize,
}

/// Decrease an offset, saturating at 0.
pub open spec fn clamp_dec(x: int, d: int) -> int {
    if x <= d {
        0
    } else {
        x - d
    }
}

/// Increase an offset, saturating at the last valid index `bound - 1`.
pub open spec fn clamp_inc(x: int, d: int, bound: int) -> int {
    if x + d <= bound - 1 {
        x + d
    } else {
        bound - 1
    }
}

/// Where one command moves the viewport over a `w`-by-`h` grid.
pub open spec fn spec_step(v: Viewport, c: Command, w: int, h: int) -> Viewport {
    match c {
        Command::LeftSmall => Viewport { col: clamp_dec(v.col as int, 1) as usize, ..v },
        Command::LeftLarge => Viewport { col: clamp_dec(v.col as int, PAGE as int) as usize, ..v },
        Command::RightSmall => Viewport { col: clamp_inc(v.col as int, 1, w) as usize, ..v },
        Command::RightLarge => Viewport {
            col: clamp_inc(v.col as int, PAGE as int, w) as usize,
            ..v
        },
        Command::UpSmall => Viewport { row: clamp_dec(v.row as int, 1) as usize, ..v },
        Command::UpLarge => Viewport { row: clamp_dec(v.row as int, PAGE as int) as usize, ..v },
        Command::DownSmall => Viewport { row: clamp_inc(v.row as int, 1, h) as usize, ..v },
        Command::DownLarge => Viewport { row: clamp_inc(v.row as int, PAGE as int, h) as usize, ..v },
    }
}

/// The viewport points at a cell of the grid.
pub open spec fn in_grid(v: Viewport, w: int, h: int) -> bool {
    v.col < w && v.row < h
}

/// Where a whole sequence of commands, applied in order, moves the viewport.
pub open spec fn spec_run(v: Viewport, cmds: Seq<Command>, w: int, h: int) -> Viewport
    decreases cmds.len(),
{
    if cmds.len() == 0 {
        v
    } else {
        spec_run(spec_step(v, cmds[0], w, h), cmds.drop_first(), w, h)
    }
}

impl Viewport {
    /// The initial viewport, at the top-left corner of the grid.
    pub fn new() -> (v: Viewport)
        ensures
            v == (Viewport { col: 0, row: 0 }),
    {
        Viewport { col: 0, row: 0 }
    }

    /// Apply one navigation command over a `w`-by-`h` grid: pans saturate at
    /// the grid's edges, so an in-grid viewport stays in the grid.
    pub fn step(&mut self, c: Command, w: usize, h: usize)
        requires
            w >= 1,
            h >= 1,
        ensures
            *final(self) == spec_step(*old(self), c, w as int, h as int),
            in_grid(*old(self), w as int, h as int) ==> in_grid(
                *final(self),
                w as int,
                h as int,
            ),
    {
        match c {
            Command::LeftSmall => {
                self.col = if self.col >= 1 {
                    self.col - 1
                } else {
                    0
                };
            },
            Command::LeftLarge => {
                self.col = if self.col >= PAGE {
                    self.col - PAGE
                } else {
                    0
                };
            },
            Command::RightSmall => {
                self.col = if self.col >= w - 1 {
                    w - 1
                } else {
                    self.col + 1
                };
            },
            Command::RightLarge => {
                self.col = if self.col >= w - 1 || w - 1 - self.col <= PAGE {
                    w - 1
                } else {
                    self.col + PAGE
                };
            },
            Command::UpSmall => {
                self.row = if self.row >= 1 {
                    self.row - 1
                } else {
                    0
                };
            },
            Command::UpLarge => {
                self.row = if self.row >= PAGE {
                    self.row - PAGE
                } else {
                    0
                };
            },
            Command::DownSmall => {
                self.row = if self.row >= h - 1 {
                    h - 1
                } else {
                    self.row + 1
                };
            },
            Command::DownLarge => {
                self.row = if self.row >= h - 1 || h - 1 - self.row <= PAGE {
                    h - 1
                } else {
                    self.row + PAGE
                };
            },
        }
    }
}

/// One step never leaves the grid: from any in-grid viewport, any command
/// lands in-grid again.
pub proof fn lemma_step_in_grid(v: Viewport, c: Command, w: int, h: int)
    requires
        1 <= w <= usize::MAX,
        1 <= h <= usize::MAX,
        in_grid(v, w, h),
    ensures
        in_grid(spec_step(v, c, w, h), w, h),
{
}

/// No sequence of commands ever drives an in-grid viewport out of the grid.
pub proof fn lemma_run_in_grid(v: Viewport, cmds: Seq<Command>, w: int, h: int)
    requires
        1 <= w <= usize::MAX,
        1 <= h <= usize::MAX,
        in_grid(v, w, h),
    ensures
        in_grid(spec_run(v, cmds, w, h), w, h),
    decreases cmds.len(),
{
    if cmds.len() > 0 {
        lemma_run_in_grid(spec_step(v, cmds[0], w, h), cmds.drop_first(), w, h);
    }
}

/// A command that pans left or up.
pub open spec fn is_left_up(c: Command) -> bool {
    c == Command::LeftSmall || c == Command::LeftLarge || c == Command::UpSmall || c
        == Command::UpLarge
}

/// A command that pans right.
pub open spec fn is_right(c: Command) -> bool {
    c == Command::RightSmall || c == Command::RightLarge
}

/// A command that pans down.
pub open spec fn is_down(c: Command) -> bool {
    c == Command::DownSmall || c == Command::DownLarge
}

/// Panning left or up from the top-left corner leaves the viewport there,
/// however often it is repeated.
pub proof fn lemma_origin_absorbs(cmds: Seq<Command>, w: int, h: int)
    requires
        1 <= w <= usize::MAX,
        1 <= h <= usize::MAX,
        forall|i: int| 0 <= i < cmds.len() ==> is_left_up(cmds[i]),
    ensures
        spec_run(Viewport { col: 0, row: 0 }, cmds, w, h) == (Viewport { col: 0, row: 0 }),
    decreases cmds.len(),
{
    if cmds.len() > 0 {
        assert(spec_step(Viewport { col: 0, row: 0 }, cmds[0], w, h) == (Viewport {
            col: 0,
            row: 0,
        }));
        lemma_origin_absorbs(cmds.drop_first(), w, h);
    }
}

/// Repeated right pans converge on the last column and stay there: after at
/// least `w - 1 - v.col` right commands the column is exactly `w - 1`, and
/// the row is untouched.
pub proof fn lemma_rights_converge(v: Viewport, cmds: Seq<Command>, w: int, h: int)
    requires
        1 <= w <= usize::MAX,
        1 <= h <= usize::MAX,
        in_grid(v, w, h),
        forall|i: int| 0 <= i < cmds.len() ==> is_right(cmds[i]),
    ensures
        spec_run(v, cmds, w, h).row == v.row,
        in_grid(spec_run(v, cmds, w, h), w, h),
        v.col + cmds.len() >= w - 1 ==> spec_run(v, cmds, w, h).col == w - 1,
    decreases cmds.len(),
{
    if cmds.len() > 0 {
        lemma_rights_converge(spec_step(v, cmds[0], w, h), cmds.drop_first(), w, h);
    }
}

/// Repeated down pans converge on the last row and stay there: after at
/// least `h - 1 - v.row` down commands the row is exactly `h - 1`, and the
/// column is untouched.
pub proof fn lemma_downs_converge(v: Viewport, cmds: Seq<Command>, w: int, h: int)
    requires
        1 <= w <= usize::MAX,
        1 <= h <= usize::MAX,
        in_grid(v, w, h),
        forall|i: int| 0 <= i < cmds.len() ==> is_down(cmds[i]),
    ensures
        spec_run(v, cmds, w, h).col == v.col,
        in_grid(spec_run(v, cmds, w, h), w, h),
        v.row + cmds.len() >= h - 1 ==> spec_run(v, cmds, w, h).row == h - 1,
    decreases cmds.len(),
{
    if cmds.len() > 0 {
        lemma_downs_converge(spec_step(v, cmds[0], w, h), cmds.drop_first(), w, h);
    }
}

/// The bottom-right corner absorbs every right and down pan.
pub proof fn lemma_corner_absorbs(c: Command, w: int, h: int)
    requires
        1 <= w <= usize::MAX,
        1 <= h <= usize::MAX,
        is_right(c) || is_down(c),
    ensures
        spec_step(Viewport { col: (w - 1) as usize, row: (h - 1) as usize }, c, w, h)
            == (Viewport { col: (w - 1) as usize, row: (h - 1) as usize }),
{
}

} // verus!
