//! The playfield: a rectangular grid of cells with wall columns on
//! both sides and a wall row at the bottom. The board is the sole
//! authority on placement legality and owns the row-clear algorithm.

use vstd::prelude::*;
use crate::mino::{Mino, Pos};

verus! {

#[derive(Clone, Copy, Debug, PartialEq, Eq, Structural)]
pub enum BoardType {
    Wall,
    Block,
    Empty,
}

#[derive(Debug, Clone)]
pub struct Board {
    pub board: Vec<Vec<BoardType>>,
}

/// The grid that a sequence of row vectors stands for.
pub open spec fn grid_of(rows: Seq<Vec<BoardType>>) -> Seq<Seq<BoardType>> {
    Seq::new(rows.len(), |r: int| rows[r]@)
}

/// A freshly constructed row: a wall cell at each end, empty inside.
pub open spec fn fresh_row(width: int) -> Seq<BoardType> {
    Seq::new(
        width as nat,
        |c: int| if c == 0 || c == width - 1 { BoardType::Wall } else { BoardType::Empty },
    )
}

/// A row is full when every interior cell (the two end cells excluded)
/// is a block.
pub open spec fn row_full(row: Seq<BoardType>) -> bool {
    forall|c: int| 1 <= c < row.len() - 1 ==> row[c] == BoardType::Block
}

/// The rows that survive a clear: every row that is not full, in order.
pub open spec fn kept_rows(g: Seq<Seq<BoardType>>) -> Seq<Seq<BoardType>>
    decreases g.len(),
{
    if g.len() == 0 {
        Seq::empty()
    } else if row_full(g.last()) {
        kept_rows(g.drop_last())
    } else {
        kept_rows(g.drop_last()).push(g.last())
    }
}

/// The grid after a clear: as many fresh rows on top as full rows were
/// removed, then the surviving rows in their old order.
pub open spec fn clear_grid(g: Seq<Seq<BoardType>>) -> Seq<Seq<BoardType>> {
    let w = if g.len() > 0 { g[0].len() as int } else { 0 };
    Seq::new((g.len() - kept_rows(g).len()) as nat, |i: int| fresh_row(w)) + kept_rows(g)
}

/// Whether the piece occupies cell `(x, y)`.
pub open spec fn occupies(m: Mino, x: int, y: int) -> bool {
    exists|i: int| 0 <= i < 4 && m.abs_pos(i) == (x, y)
}

/// The grid after placing a piece: its four cells become blocks,
/// every other cell is unchanged.
pub open spec fn place_grid(g: Seq<Seq<BoardType>>, m: Mino) -> Seq<Seq<BoardType>> {
    Seq::new(
        g.len(),
        |y: int|
            Seq::new(
                g[y].len(),
                |x: int| if occupies(m, x, y) { BoardType::Block } else { g[y][x] },
            ),
    )
}

impl Board {
    pub open spec fn grid(self) -> Seq<Seq<BoardType>> {
        grid_of(self.board@)
    }

    pub open spec fn height(self) -> int {
        self.grid().len() as int
    }

    pub open spec fn width(self) -> int {
        self.grid()[0].len() as int
    }

    pub open spec fn cell(self, x: int, y: int) -> BoardType {
        self.grid()[y][x]
    }

    pub open spec fn in_bounds(self, x: int, y: int) -> bool {
        0 <= x < self.width() && 0 <= y < self.height()
    }

    /// The board's standing invariant: at least one interior row and
    /// column, rows all of one width, wall columns at both sides and a
    /// wall row at the bottom.
    pub open spec fn wf(self) -> bool {
        &&& self.height() >= 2
        &&& self.width() >= 3
        &&& forall|r: int| 0 <= r < self.height() ==> (#[trigger] self.grid()[r]).len() == self.width()
        &&& forall|r: int|
            0 <= r < self.height() ==> (#[trigger] self.grid()[r])[0] == BoardType::Wall
                && self.grid()[r][self.width() - 1] == BoardType::Wall
        &&& forall|c: int|
            0 <= c < self.width() ==> #[trigger] self.grid()[self.height() - 1][c]
                == BoardType::Wall
    }

    /// Whether every cell the piece occupies is inside the grid and
    /// currently empty.
    pub open spec fn can_place(self, m: Mino) -> bool {
        forall|i: int|
            0 <= i < 4 ==> {
                let p = #[trigger] m.abs_pos(i);
                self.in_bounds(p.0, p.1) && self.cell(p.0, p.1) == BoardType::Empty
            }
    }

    /// Builds the playfield for an interior of `x` columns and `y`
    /// rows: wall columns at both sides, a wall row at the bottom,
    /// everything else empty.
    pub fn new(x: usize, y: usize) -> (b: Board)
        requires
            1 <= x <= usize::MAX - 2,
            1 <= y <= usize::MAX - 1,
        ensures
            b.wf(),
            b.width() == x + 2,
            b.height() == y + 1,
            forall|cx: int, cy: int|
                b.in_bounds(cx, cy) ==> b.cell(cx, cy) == (if cx == 0 || cx == x + 1 || cy == y {
                    BoardType::Wall
                } else {
                    BoardType::Empty
                }),
    {
        let width = x + 2;
        let height = y + 1;
        let mut rows: Vec<Vec<BoardType>> = Vec::new();
        let mut r: usize = 0;
        while r < height
            invariant
                r <= height,
                width == x + 2,
                height == y + 1,
                x >= 1,
                y >= 1,
                rows@.len() == r as int,
                forall|k: int| 0 <= k < r as int ==> (#[trigger] rows@[k])@.len() == width as int,
                forall|k: int, c: int|
                    0 <= k < r as int && 0 <= c < width as int ==> (#[trigger] rows@[k]@[c]) == (
                    if c == 0 || c == width - 1 || k == height - 1 {
                        BoardType::Wall
                    } else {
                        BoardType::Empty
                    }),
            decreases height - r,
        {
            if r == height - 1 {
                rows.push(make_wall_row(width));
            } else {
                let row = make_fresh_row(width);
                proof {
                    assert forall|c: int| 0 <= c < width as int implies row@[c] == (if c == 0 || c
                        == width - 1 {
                        BoardType::Wall
                    } else {
                        BoardType::Empty
                    }) by {}
                }
                rows.push(row);
            }
            r += 1;
        }
        let b = Board { board: rows };
        proof {
            assert(b.height() == height);
            assert(b.width() == width);
        }
        b
    }

    /// Checks the piece's four cells against the grid. If any falls
    /// outside the grid or on a non-empty cell, the whole placement is
    /// rejected; otherwise a new board is returned whose only changed
    /// cells are those four, each now a block. The receiver is never
    /// changed.
    pub fn put_mino(&self, mino: &Mino) -> (res: Option<Board>)
        requires
            self.wf(),
            mino.fits(),
        ensures
            res is Some <==> self.can_place(*mino),
            res matches Some(b) ==> b.grid() == place_grid(self.grid(), *mino) && b.wf()
                && b.width() == self.width() && b.height() == self.height(),
    {
        let height = self.board.len();
        let width = self.board[0].len();
        let pts = mino.positions();
        let mut i: usize = 0;
        while i < 4
            invariant
                i <= 4,
                self.wf(),
                height as int == self.height(),
                width as int == self.width(),
                pts@.len() == 4,
                forall|k: int|
                    0 <= k < 4 ==> ((#[trigger] pts@[k]).0 as int, pts@[k].1 as int)
                        == mino.abs_pos(k),
                forall|k: int|
                    0 <= k < i as int ==> {
                        let p = #[trigger] mino.abs_pos(k);
                        self.in_bounds(p.0, p.1) && self.cell(p.0, p.1) == BoardType::Empty
                    },
            decreases 4 - i,
        {
            let (px, py) = pts[i];
            if px < 0 || px as usize >= width || py < 0 || py as usize >= height {
                proof {
                    assert(!{
                        let p = mino.abs_pos(i as int);
                        self.in_bounds(p.0, p.1) && self.cell(p.0, p.1) == BoardType::Empty
                    });
                }
                return None;
            }
            let row = &self.board[py as usize];
            if row[px as usize] != BoardType::Empty {
                proof {
                    assert(self.cell(px as int, py as int) != BoardType::Empty);
                }
                return None;
            }
            i += 1;
        }
        let ghost target = place_grid(self.grid(), *mino);
        let mut rows: Vec<Vec<BoardType>> = Vec::new();
        let mut yy: usize = 0;
        while yy < height
            invariant
                yy <= height,
                self.wf(),
                self.can_place(*mino),
                height as int == self.height(),
                width as int == self.width(),
                pts@.len() == 4,
                forall|k: int|
                    0 <= k < 4 ==> ((#[trigger] pts@[k]).0 as int, pts@[k].1 as int)
                        == mino.abs_pos(k),
                target == place_grid(self.grid(), *mino),
                rows@.len() == yy as int,
                forall|r: int| 0 <= r < yy as int ==> (#[trigger] rows@[r])@ == target[r],
            decreases height - yy,
        {
            let mut row: Vec<BoardType> = Vec::new();
            let mut xx: usize = 0;
            while xx < width
                invariant
                    xx <= width,
                    yy < height,
                    self.wf(),
                    height as int == self.height(),
                    width as int == self.width(),
                    pts@.len() == 4,
                    forall|k: int|
                        0 <= k < 4 ==> ((#[trigger] pts@[k]).0 as int, pts@[k].1 as int)
                            == mino.abs_pos(k),
                    row@.len() == xx as int,
                    forall|c: int|
                        0 <= c < xx as int ==> #[trigger] row@[c] == (if occupies(
                            *mino,
                            c,
                            yy as int,
                        ) {
                            BoardType::Block
                        } else {
                            self.cell(c, yy as int)
                        }),
                decreases width - xx,
            {
                let hit = occupies_cell(&pts, Ghost(*mino), xx, yy);
                if hit {
                    row.push(BoardType::Block);
                } else {
                    let r = &self.board[yy];
                    row.push(r[xx]);
                }
                xx += 1;
            }
            proof {
                assert(row@ =~= target[yy as int]);
            }
            rows.push(row);
            yy += 1;
        }
        let b = Board { board: rows };
        proof {
            assert(b.grid() =~= target);
            lemma_place_grid_wf(*self, *mino);
        }
        Some(b)
    }

    /// Removes every full row, then puts as many fresh rows on top as
    /// were removed: the row count and the bottom wall row stay as
    /// they were, the surviving rows keep their order.
    pub fn erase_fill_lines(&mut self)
        requires
            old(self).wf(),
        ensures
            final(self).grid() == clear_grid(old(self).grid()),
            final(self).wf(),
            final(self).width() == old(self).width(),
            final(self).height() == old(self).height(),
    {
        let ghost g = old(self).grid();
        let height = self.board.len();
        let width = self.board[0].len();
        let mut kept: Vec<Vec<BoardType>> = Vec::new();
        let mut r: usize = 0;
        while r < height
            invariant
                r <= height,
                old(self).wf(),
                self.grid() == g,
                g == old(self).grid(),
                self.board@.len() == height as int,
                height as int == old(self).height(),
                width as int == old(self).width(),
                grid_of(kept@) == kept_rows(g.take(r as int)),
            decreases height - r,
        {
            proof {
                assert(self.board@[r as int]@ == g[r as int]);
                assert(g[r as int].len() == width as int);
                assert(g.take(r as int + 1).drop_last() =~= g.take(r as int));
                assert(g.take(r as int + 1).last() == g[r as int]);
            }
            let full = row_is_full(&self.board[r]);
            if !full {
                let rowcopy = copy_row(&self.board[r]);
                kept.push(rowcopy);
                proof {
                    assert(grid_of(kept@) =~= kept_rows(g.take(r as int + 1)));
                }
            } else {
                proof {
                    assert(grid_of(kept@) =~= kept_rows(g.take(r as int + 1)));
                }
            }
            r += 1;
        }
        proof {
            assert(g.take(height as int) =~= g);
            lemma_kept_rows_members(g);
            assert(grid_of(kept@).len() == kept@.len());
        }
        let erased = height - kept.len();
        let mut rows: Vec<Vec<BoardType>> = Vec::new();
        let mut i: usize = 0;
        while i < erased
            invariant
                i <= erased,
                width >= 3,
                rows@.len() == i as int,
                forall|j: int| 0 <= j < i as int ==> (#[trigger] rows@[j])@ == fresh_row(width as int),
            decreases erased - i,
        {
            rows.push(make_fresh_row(width));
            i += 1;
        }
        let kept_len = kept.len();
        let mut j: usize = 0;
        while j < kept_len
            invariant
                j <= kept_len,
                kept_len == kept@.len(),
                grid_of(kept@) == kept_rows(g),
                rows@.len() == erased as int + j as int,
                forall|t: int|
                    0 <= t < erased as int ==> (#[trigger] rows@[t])@ == fresh_row(width as int),
                forall|t: int|
                    erased as int <= t < rows@.len() ==> (#[trigger] rows@[t])@ == kept_rows(g)[t
                        - erased as int],
            decreases kept_len - j,
        {
            let rowcopy = copy_row(&kept[j]);
            proof {
                assert(rowcopy@ == grid_of(kept@)[j as int]);
            }
            rows.push(rowcopy);
            j += 1;
        }
        self.board = rows;
        proof {
            assert(g[0].len() == width as int);
            assert(kept_rows(g).len() <= g.len());
            assert(self.grid() =~= clear_grid(g));
            lemma_clear_grid_wf(*old(self));
        }
    }
}

/// Whether one of the piece's four cells, handed over as `pts`, is
/// exactly `(xx, yy)`.
fn occupies_cell(pts: &Vec<Pos>, m: Ghost<Mino>, xx: usize, yy: usize) -> (b: bool)
    requires
        pts@.len() == 4,
        forall|k: int| 0 <= k < 4 ==> ((#[trigger] pts@[k]).0 as int, pts@[k].1 as int) == m@.abs_pos(k),
    ensures
        b == occupies(m@, xx as int, yy as int),
{
    let mut k: usize = 0;
    let mut found = false;
    while k < 4
        invariant
            k <= 4,
            pts@.len() == 4,
            forall|t: int|
                0 <= t < 4 ==> ((#[trigger] pts@[t]).0 as int, pts@[t].1 as int) == m@.abs_pos(t),
            found == exists|i: int|
                0 <= i < k as int && m@.abs_pos(i) == (xx as int, yy as int),
        decreases 4 - k,
    {
        let (px, py) = pts[k];
        if px >= 0 && py >= 0 && px as usize == xx && py as usize == yy {
            proof {
                assert(m@.abs_pos(k as int) == (xx as int, yy as int));
            }
            found = true;
        }
        k += 1;
    }
    found
}

/// Whether every interior cell of the row is a block.
fn row_is_full(row: &Vec<BoardType>) -> (b: bool)
    requires
        row@.len() >= 2,
    ensures
        b == row_full(row@),
{
    let n = row.len();
    let mut c: usize = 1;
    while c < n - 1
        invariant
            1 <= c <= n - 1,
            n == row@.len(),
            n >= 2,
            forall|j: int| 1 <= j < c as int ==> row@[j] == BoardType::Block,
        decreases n - 1 - c,
    {
        if row[c] != BoardType::Block {
            proof {
                assert(!row_full(row@));
            }
            return false;
        }
        c += 1;
    }
    true
}

/// An element-wise copy of a row.
fn copy_row(row: &Vec<BoardType>) -> (out: Vec<BoardType>)
    ensures
        out@ == row@,
{
    let mut out: Vec<BoardType> = Vec::new();
    let mut i: usize = 0;
    while i < row.len()
        invariant
            i <= row@.len(),
            out@.len() == i as int,
            forall|j: int| 0 <= j < i as int ==> out@[j] == row@[j],
        decreases row@.len() - i,
    {
        out.push(row[i]);
        i += 1;
    }
    proof {
        assert(out@ =~= row@);
    }
    out
}

/// A row with a wall cell at each end and empty cells inside.
fn make_fresh_row(width: usize) -> (row: Vec<BoardType>)
    requires
        width >= 2,
    ensures
        row@ == fresh_row(width as int),
{
    let mut row: Vec<BoardType> = Vec::new();
    row.push(BoardType::Wall);
    let mut c: usize = 1;
    while c < width - 1
        invariant
            1 <= c <= width - 1,
            width >= 2,
            row@.len() == c as int,
            row@[0] == BoardType::Wall,
            forall|j: int| 1 <= j < c as int ==> row@[j] == BoardType::Empty,
        decreases width - 1 - c,
    {
        row.push(BoardType::Empty);
        c += 1;
    }
    row.push(BoardType::Wall);
    proof {
        assert(row@ =~= fresh_row(width as int));
    }
    row
}

/// A row made of wall cells alone.
fn make_wall_row(width: usize) -> (row: Vec<BoardType>)
    ensures
        row@.len() == width as int,
        forall|c: int| 0 <= c < width as int ==> row@[c] == BoardType::Wall,
{
    let mut row: Vec<BoardType> = Vec::new();
    let mut c: usize = 0;
    while c < width
        invariant
            c <= width,
            row@.len() == c as int,
            forall|j: int| 0 <= j < c as int ==> row@[j] == BoardType::Wall,
        decreases width - c,
    {
        row.push(BoardType::Wall);
        c += 1;
    }
    row
}

/// Placing a piece on a well-formed board it fits on keeps the board
/// well formed: the four placed cells were empty, so no wall cell
/// changes.
proof fn lemma_place_grid_wf(b: Board, m: Mino)
    requires
        b.wf(),
        b.can_place(m),
    ensures
        place_grid(b.grid(), m).len() == b.height(),
        forall|y: int|
            0 <= y < b.height() ==> (#[trigger] place_grid(b.grid(), m)[y]).len() == b.width(),
        forall|y: int|
            0 <= y < b.height() ==> (#[trigger] place_grid(b.grid(), m)[y])[0] == BoardType::Wall
                && place_grid(b.grid(), m)[y][b.width() - 1] == BoardType::Wall,
        forall|c: int|
            0 <= c < b.width() ==> #[trigger] place_grid(b.grid(), m)[b.height() - 1][c]
                == BoardType::Wall,
{
    let g = place_grid(b.grid(), m);
    assert forall|y: int| 0 <= y < b.height() implies (#[trigger] g[y])[0] == BoardType::Wall && g[y][b.width()
        - 1] == BoardType::Wall by {
        if occupies(m, 0, y) {
            let i = choose|i: int| 0 <= i < 4 && m.abs_pos(i) == (0int, y);
            assert(b.cell(0, y) == BoardType::Empty);
        }
        if occupies(m, b.width() - 1, y) {
            let i = choose|i: int| 0 <= i < 4 && m.abs_pos(i) == (b.width() - 1, y);
            assert(b.cell(b.width() - 1, y) == BoardType::Empty);
        }
    }
    assert forall|c: int| 0 <= c < b.width() implies #[trigger] g[b.height() - 1][c]
        == BoardType::Wall by {
        if occupies(m, c, b.height() - 1) {
            let i = choose|i: int| 0 <= i < 4 && m.abs_pos(i) == (c, b.height() - 1);
            assert(b.cell(c, b.height() - 1) == BoardType::Empty);
        }
    }
}

/// Every surviving row is one of the original rows, and no rows are
/// invented: the clear never grows the grid.
proof fn lemma_kept_rows_members(g: Seq<Seq<BoardType>>)
    ensures
        kept_rows(g).len() <= g.len(),
        forall|j: int|
            0 <= j < kept_rows(g).len() ==> exists|i: int|
                0 <= i < g.len() && #[trigger] kept_rows(g)[j] == g[i] && !row_full(g[i]),
    decreases g.len(),
{
    if g.len() == 0 {
    } else {
        lemma_kept_rows_members(g.drop_last());
        let k = kept_rows(g);
        let kd = kept_rows(g.drop_last());
        assert forall|j: int| 0 <= j < k.len() implies exists|i: int|
            0 <= i < g.len() && #[trigger] k[j] == g[i] && !row_full(g[i]) by {
            if row_full(g.last()) {
                assert(k[j] == kd[j]);
                let i = choose|i: int|
                    0 <= i < g.drop_last().len() && #[trigger] kd[j] == g.drop_last()[i]
                        && !row_full(g.drop_last()[i]);
                assert(g.drop_last()[i] == g[i]);
                assert(k[j] == g[i] && !row_full(g[i]));
            } else if j < kd.len() {
                assert(k[j] == kd[j]);
                let i = choose|i: int|
                    0 <= i < g.drop_last().len() && #[trigger] kd[j] == g.drop_last()[i]
                        && !row_full(g.drop_last()[i]);
                assert(g.drop_last()[i] == g[i]);
                assert(k[j] == g[i] && !row_full(g[i]));
            } else {
                assert(k[j] == g.last());
                assert(g.last() == g[g.len() - 1]);
                assert(k[j] == g[g.len() - 1] && !row_full(g[g.len() - 1]));
            }
        }
    }
}

/// A row whose first interior cell is a wall is never full.
proof fn lemma_wall_row_not_full(row: Seq<BoardType>)
    requires
        row.len() >= 3,
        row[1] == BoardType::Wall,
    ensures
        !row_full(row),
{
    assert(row[1] != BoardType::Block);
}

/// When the last row is not full it survives the clear as the last
/// surviving row.
proof fn lemma_kept_rows_last(g: Seq<Seq<BoardType>>)
    requires
        g.len() > 0,
        !row_full(g.last()),
    ensures
        kept_rows(g).len() > 0,
        kept_rows(g).last() == g.last(),
{
}

/// Clearing the full rows of a well-formed board keeps it well
/// formed.
proof fn lemma_clear_grid_wf(b: Board)
    requires
        b.wf(),
    ensures
        ({
            let cg = clear_grid(b.grid());
            &&& cg.len() == b.height()
            &&& forall|r: int| 0 <= r < cg.len() ==> (#[trigger] cg[r]).len() == b.width()
            &&& forall|r: int|
                0 <= r < cg.len() ==> (#[trigger] cg[r])[0] == BoardType::Wall && cg[r][b.width()
                    - 1] == BoardType::Wall
            &&& forall|c: int|
                0 <= c < b.width() ==> #[trigger] cg[cg.len() - 1][c] == BoardType::Wall
        }),
{
    let g = b.grid();
    let cg = clear_grid(g);
    let kept = kept_rows(g);
    let k = g.len() - kept.len();
    lemma_kept_rows_members(g);
    assert(g.last()[1] == BoardType::Wall);
    lemma_wall_row_not_full(g.last());
    lemma_kept_rows_last(g);
    assert(cg.len() == b.height());
    assert forall|r: int| 0 <= r < cg.len() implies (#[trigger] cg[r]).len() == b.width() by {
        if r < k {
            assert(cg[r] == fresh_row(b.width()));
        } else {
            assert(cg[r] == kept[r - k]);
            let i = choose|i: int|
                0 <= i < g.len() && #[trigger] kept[r - k] == g[i] && !row_full(g[i]);
        }
    }
    assert forall|r: int| 0 <= r < cg.len() implies (#[trigger] cg[r])[0] == BoardType::Wall
        && cg[r][b.width() - 1] == BoardType::Wall by {
        if r < k {
            assert(cg[r] == fresh_row(b.width()));
        } else {
            assert(cg[r] == kept[r - k]);
            let i = choose|i: int|
                0 <= i < g.len() && #[trigger] kept[r - k] == g[i] && !row_full(g[i]);
        }
    }
    assert(cg[cg.len() - 1] == kept.last());
    assert(kept.last() == g.last());
    assert forall|c: int| 0 <= c < b.width() implies #[trigger] cg[cg.len() - 1][c]
        == BoardType::Wall by {
        assert(g.last() == g[g.len() - 1]);
        assert(g[g.len() - 1][c] == BoardType::Wall);
    }
}

/// Clearing a board that has no full rows changes nothing.
pub proof fn lemma_clear_no_full_rows_noop(g: Seq<Seq<BoardType>>)
    requires
        forall|r: int| 0 <= r < g.len() ==> !row_full(#[trigger] g[r]),
    ensures
        clear_grid(g) == g,
{
    lemma_kept_rows_all(g);
    assert(clear_grid(g) =~= g);
}

/// When no row is full, every row survives the clear unchanged.
proof fn lemma_kept_rows_all(g: Seq<Seq<BoardType>>)
    requires
        forall|r: int| 0 <= r < g.len() ==> !row_full(#[trigger] g[r]),
    ensures
        kept_rows(g) == g,
    decreases g.len(),
{
    if g.len() == 0 {
        assert(kept_rows(g) =~= g);
    } else {
        assert forall|r: int| 0 <= r < g.drop_last().len() implies !row_full(
            #[trigger] g.drop_last()[r],
        ) by {
            assert(g.drop_last()[r] == g[r]);
        }
        lemma_kept_rows_all(g.drop_last());
        assert(!row_full(g.last()));
        assert(kept_rows(g) =~= g);
    }
}

/// After the clear the row count is unchanged, the bottom wall row is
/// unchanged, and the rows that replaced the removed ones are fresh:
/// walls at both ends, empty inside.
pub proof fn lemma_clear_grid_shape(g: Seq<Seq<BoardType>>, w: int)
    requires
        g.len() >= 2,
        w >= 3,
        forall|r: int| 0 <= r < g.len() ==> (#[trigger] g[r]).len() == w,
        forall|c: int| 0 <= c < w ==> #[trigger] g[g.len() - 1][c] == BoardType::Wall,
    ensures
        clear_grid(g).len() == g.len(),
        clear_grid(g).last() == g.last(),
        forall|i: int|
            0 <= i < g.len() - kept_rows(g).len() ==> #[trigger] clear_grid(g)[i] == fresh_row(w),
{
    let kept = kept_rows(g);
    let k = g.len() - kept.len();
    lemma_kept_rows_members(g);
    assert(g.last()[1] == BoardType::Wall);
    lemma_wall_row_not_full(g.last());
    lemma_kept_rows_last(g);
    assert(clear_grid(g)[clear_grid(g).len() - 1] == kept.last());
    assert(g[0].len() == w);
    assert forall|i: int| 0 <= i < k implies #[trigger] clear_grid(g)[i] == fresh_row(w) by {}
}

/// A piece cannot be placed twice: after a successful placement its
/// cells are blocks, so placing the same piece on the result fails.
pub proof fn lemma_cannot_place_twice(b: Board, b2: Board, m: Mino)
    requires
        b.wf(),
        b.can_place(m),
        b2.grid() == place_grid(b.grid(), m),
    ensures
        !b2.can_place(m),
{
    let p = m.abs_pos(0);
    assert(b.in_bounds(p.0, p.1) && b.cell(p.0, p.1) == BoardType::Empty);
    assert(occupies(m, p.0, p.1));
    assert(b2.cell(p.0, p.1) == BoardType::Block);
}

} // verus!
