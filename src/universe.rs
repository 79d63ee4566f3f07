//! The simulation engine: a toroidal grid of cells and its operations.
use vstd::prelude::*;
use vstd::string::StringExecFns;
use crate::cell::Cell;
use crate::rules::{index_of, live_neighbors, next_state, next_generation, all_dead, marks, marked, covers, stamped, offset_index, glider_offsets, pulsar_offsets, rendering, glyph, lemma_neighbors_unfold, code_in, lemma_index_split, widen, seeded, toggled};

verus! {

/// The abstract state of a universe.
pub struct Grid {
    pub width: nat,
    pub height: nat,
    /// Row-major: the cell at `(row, col)` is `cells[row * width + col]`.
    pub cells: Seq<Cell>,
}

/// A `width` x `height` toroidal grid of cells, stored row by row.
pub struct Universe {
    width: u32,
    height: u32,
    cells: Vec<Cell>,
}

impl View for Universe {
    type V = Grid;

    closed spec fn view(&self) -> Grid {
        Grid { width: self.width as nat, height: self.height as nat, cells: self.cells@ }
    }
}

/// Exactly one cell for each position of the grid.
pub open spec fn grid_wf(g: Grid) -> bool {
    g.cells.len() == g.width * g.height
}

/// The next state of one cell under the B3/S23 rule.
fn successor(cell: Cell, live: u8) -> (r: Cell)
    ensures
        r == next_state(cell, live as nat),
{
    match cell {
        Cell::Alive => if live == 2 || live == 3 { Cell::Alive } else { Cell::Dead },
        Cell::Dead => if live == 3 { Cell::Alive } else { Cell::Dead },
    }
}

/// `(base + offset)` taken modulo `n`, the result in `0..n`.
fn wrap_coordinate(base: i32, offset: i32, n: u32) -> (r: u32)
    requires
        n > 0,
    ensures
        r < n,
        r as int == (base + offset) % (n as int),
{
    let s: i64 = base as i64 + offset as i64;
    let m: u64 = n as u64;
    if s >= 0 {
        ((s as u64) % m) as u32
    } else {
        let t: u64 = (-s) as u64;
        let a: u64 = t % m;
        proof {
            let q = t as int / m as int;
            vstd::arithmetic::div_mod::lemma_fundamental_div_mod(t as int, m as int);
            assert(t as int == q * m + a);
            assert(s as int == (-q) * m - a) by (nonlinear_arith)
                requires
                    t as int == q * m + a,
                    s as int == -(t as int),
            ;
            if a == 0 {
                vstd::arithmetic::div_mod::lemma_fundamental_div_mod_converse(s as int, m as int, -q, 0);
            } else {
                assert(s as int == (-q - 1) * m + (m - a)) by (nonlinear_arith)
                    requires
                        s as int == (-q) * m - a,
                ;
                vstd::arithmetic::div_mod::lemma_fundamental_div_mod_converse(s as int, m as int, -q - 1, m - a);
            }
        }
        if a == 0 {
            0
        } else {
            (m - a) as u32
        }
    }
}

/// `len` dead cells.
fn dead_cells(len: usize) -> (r: Vec<Cell>)
    ensures
        r@ == all_dead(len as nat),
{
    let mut v: Vec<Cell> = Vec::new();
    let mut i: usize = 0;
    while i < len
        invariant
            0 <= i <= len,
            v@ == all_dead(i as nat),
        decreases len - i,
    {
        v.push(Cell::Dead);
        i = i + 1;
        assert(v@ =~= all_dead(i as nat));
    }
    v
}

/// One cell per sample: dead where the sample lay above one half, alive elsewhere.
fn seeded_cells(above_half: &[bool]) -> (r: Vec<Cell>)
    ensures
        r@ == seeded(above_half@),
{
    let mut v: Vec<Cell> = Vec::new();
    let mut i: usize = 0;
    while i < above_half.len()
        invariant
            0 <= i <= above_half@.len(),
            v@ == seeded(above_half@.take(i as int)),
        decreases above_half@.len() - i,
    {
        v.push(if above_half[i] { Cell::Dead } else { Cell::Alive });
        i = i + 1;
        assert(v@ =~= seeded(above_half@.take(i as int)));
    }
    assert(above_half@.take(i as int) =~= above_half@);
    v
}

/// Side length of a freshly created universe.
pub const DEFAULT_SIZE: u32 = 64;

impl Universe {
    /// The cell buffer has exactly `width * height` entries.
    pub open spec fn wf(&self) -> bool {
        grid_wf(self@)
    }

    /// A 64 x 64 universe filled from one uniform sample per cell, in row-major
    /// order: `above_half[i]` tells whether the sample of cell `i` exceeded 0.5,
    /// which leaves that cell dead.
    pub fn new(above_half: &[bool]) -> (r: Universe)
        requires
            above_half@.len() == DEFAULT_SIZE * DEFAULT_SIZE,
        ensures
            r.wf(),
            r@.width == DEFAULT_SIZE,
            r@.height == DEFAULT_SIZE,
            r@.cells == seeded(above_half@),
    {
        Universe { width: DEFAULT_SIZE, height: DEFAULT_SIZE, cells: seeded_cells(above_half) }
    }

    /// Changes the width and clears the grid to all dead cells of the new size.
    pub fn set_width(&mut self, width: u32)
        requires
            width * old(self)@.height <= usize::MAX,
        ensures
            final(self).wf(),
            final(self)@.width == width,
            final(self)@.height == old(self)@.height,
            final(self)@.cells == all_dead(width as nat * old(self)@.height),
    {
        self.width = width;
        self.cells = dead_cells(width as usize * self.height as usize);
    }

    /// Changes the height and clears the grid to all dead cells of the new size.
    pub fn set_height(&mut self, height: u32)
        requires
            old(self)@.width * height <= usize::MAX,
        ensures
            final(self).wf(),
            final(self)@.width == old(self)@.width,
            final(self)@.height == height,
            final(self)@.cells == all_dead(old(self)@.width * height as nat),
    {
        self.height = height;
        self.cells = dead_cells(self.width as usize * height as usize);
    }

    /// Sets every cell dead, keeping the size.
    pub fn kill(&mut self)
        requires
            old(self).wf(),
        ensures
            final(self).wf(),
            final(self)@.width == old(self)@.width,
            final(self)@.height == old(self)@.height,
            final(self)@.cells == all_dead(old(self)@.width * old(self)@.height),
    {
        self.cells = dead_cells(self.cells.len());
    }

    /// Refills every cell from a fresh uniform sample, keeping the size;
    /// `above_half` is read as in `new`.
    pub fn reset(&mut self, above_half: &[bool])
        requires
            old(self).wf(),
            above_half@.len() == old(self)@.width * old(self)@.height,
        ensures
            final(self).wf(),
            final(self)@.width == old(self)@.width,
            final(self)@.height == old(self)@.height,
            final(self)@.cells == seeded(above_half@),
    {
        self.cells = seeded_cells(above_half);
    }

    /// Sets alive the cell at each `(row, column)` pair of `cells`.
    pub fn set_cells(&mut self, cells: &[(u32, u32)])
        requires
            old(self).wf(),
            forall|k: int| 0 <= k < cells@.len() ==> #[trigger] cells@[k].0 < old(self)@.height
                && cells@[k].1 < old(self)@.width,
        ensures
            final(self).wf(),
            final(self)@.width == old(self)@.width,
            final(self)@.height == old(self)@.height,
            final(self)@.cells == marked(old(self)@.cells, old(self)@.width as int, cells@),
    {
        let ghost start = self.cells@;
        let ghost w = self.width as int;
        let ghost h = self.height as int;
        let mut k: usize = 0;
        assert(self.cells@ =~= marked(start, w, cells@.take(0)));
        while k < cells.len()
            invariant
                self.wf(),
                w == self.width,
                h == self.height,
                start.len() == self.cells@.len(),
                forall|k: int| 0 <= k < cells@.len() ==> #[trigger] cells@[k].0 < h && cells@[k].1 < w,
                0 <= k <= cells@.len(),
                self.cells@ == marked(start, w, cells@.take(k as int)),
            decreases cells@.len() - k,
        {
            let (r, c) = cells[k];
            let idx = self.get_index(r, c);
            self.cells.set(idx, Cell::Alive);
            proof {
                let seen = cells@.take(k as int);
                let seen_next = cells@.take(k + 1);
                assert(index_of(w, seen_next[k as int].0 as int, seen_next[k as int].1 as int) == idx);
                assert forall|i: int| 0 <= i < start.len() implies #[trigger] self.cells@[i]
                    == marked(start, w, seen_next)[i] by {
                    if marks(w, seen, i) {
                        let j = choose|j: int| 0 <= j < seen.len()
                            && #[trigger] index_of(w, seen[j].0 as int, seen[j].1 as int) == i;
                        assert(seen_next[j] == seen[j]);
                    }
                    if marks(w, seen_next, i) && i != idx {
                        let j = choose|j: int| 0 <= j < seen_next.len()
                            && #[trigger] index_of(w, seen_next[j].0 as int, seen_next[j].1 as int) == i;
                        assert(seen_next[j] == seen[j]);
                    }
                }
                assert(self.cells@ =~= marked(start, w, seen_next));
            }
            k = k + 1;
        }
        assert(cells@.take(cells@.len() as int) =~= cells@);
    }

    /// Flips the cell at `(row, col)` between dead and alive.
    pub fn toggle_cell(&mut self, row: u32, col: u32)
        requires
            old(self).wf(),
            row < old(self)@.height,
            col < old(self)@.width,
        ensures
            final(self).wf(),
            final(self)@.width == old(self)@.width,
            final(self)@.height == old(self)@.height,
            final(self)@.cells == toggled(old(self)@.cells, old(self)@.width as int, row as int, col as int),
    {
        let idx = self.get_index(row, col);
        let mut cell = self.cells[idx];
        cell.toggle();
        self.cells.set(idx, cell);
    }

    /// The grid as text: one line per row, a hollow square for each dead cell
    /// and a filled one for each live cell, every line ended by a newline.
    pub fn render(&self) -> (r: String)
        requires
            self.wf(),
        ensures
            r@ == rendering(self@.cells, self@.width as int, self@.height as int),
    {
        let ghost w = self.width as int;
        let ghost h = self.height as int;
        let ghost target = rendering(self.cells@, w, h);
        let mut out = String::new();
        let mut row: u32 = 0;
        while row < self.height
            invariant
                self.wf(),
                w == self.width,
                h == self.height,
                target == rendering(self.cells@, w, h),
                0 <= row <= h,
                out@ == target.take(row * (w + 1)),
            decreases h - row,
        {
            let mut col: u32 = 0;
            while col < self.width
                invariant
                    self.wf(),
                    w == self.width,
                    h == self.height,
                    target == rendering(self.cells@, w, h),
                    0 <= row < h,
                    0 <= col <= w,
                    out@ == target.take(row * (w + 1) + col),
                decreases w - col,
            {
                let idx = self.get_index(row, col);
                proof {
                    lemma_index_split(w + 1, h, row as int, col as int);
                    reveal_strlit("\u{25FB}");
                    reveal_strlit("\u{25FC}");
                }
                let ghost pos = row * (w + 1) + col;
                assert((w + 1) * h == h * (w + 1)) by (nonlinear_arith);
                assert(target[pos] == glyph(self.cells@[idx as int]));
                if self.cells[idx] == Cell::Dead {
                    out.append("\u{25FB}");
                } else {
                    out.append("\u{25FC}");
                }
                assert(out@ =~= target.take(pos + 1));
                col = col + 1;
            }
            proof {
                lemma_index_split(w + 1, h, row as int, w);
                assert((w + 1) * h == h * (w + 1)) by (nonlinear_arith);
                assert(target[row * (w + 1) + w] == '\n');
                reveal_strlit("\n");
            }
            out.append("\n");
            assert(row * (w + 1) + w + 1 == (row + 1) * (w + 1)) by (nonlinear_arith);
            assert(out@ =~= target.take((row + 1) * (w + 1)));
            row = row + 1;
        }
        assert(out@ =~= target);
        out
    }

    /// Number of columns.
    pub fn width(&self) -> (r: u32)
        ensures
            r == self@.width,
    {
        self.width
    }

    /// Number of rows.
    pub fn height(&self) -> (r: u32)
        ensures
            r == self@.height,
    {
        self.height
    }

    /// The cell buffer, row by row; valid until the next change to the universe.
    pub fn get_cells(&self) -> (r: &[Cell])
        ensures
            r@ == self@.cells,
    {
        self.cells.as_slice()
    }

    /// The cell buffer, row by row, for a renderer to read in place.
    pub fn cells(&self) -> (r: &[Cell])
        ensures
            r@ == self@.cells,
    {
        self.cells.as_slice()
    }

    /// Row-major index of `(row, column)`.
    pub fn get_index(&self, row: u32, column: u32) -> (r: usize)
        requires
            self.wf(),
            row < self@.height,
            column < self@.width,
        ensures
            r as int == index_of(self@.width as int, row as int, column as int),
            r < self@.cells.len(),
    {
        proof {
            lemma_index_split(self.width as int, self.height as int, row as int, column as int);
        }
        // The buffer's length is a `usize`, which bounds the index below.
        let _len = self.cells.len();
        row as usize * self.width as usize + column as usize
    }

    /// The code of the cell at an in-range `(row, column)`.
    fn code_at_position(&self, row: u32, column: u32) -> (r: u8)
        requires
            self.wf(),
            row < self@.height,
            column < self@.width,
        ensures
            r as nat == code_in(self@.cells, self@.width as int, row as int, column as int),
            r <= 1,
    {
        proof {
            reveal(code_in);
        }
        self.cells[self.get_index(row, column)].code()
    }

    /// Number of live cells among the eight wrapped neighbours of `(row, column)`.
    pub fn live_neighbor_count(&self, row: u32, column: u32) -> (r: u8)
        requires
            self.wf(),
            row < self@.height,
            column < self@.width,
        ensures
            r as nat == live_neighbors(self@.cells, self@.width as int, self@.height as int, row as int, column as int),
            r <= 8,
    {
        let h = self.height;
        let w = self.width;
        let up: u32 = if row == 0 { h - 1 } else { row - 1 };
        let down: u32 = if row + 1 == h { 0 } else { row + 1 };
        let left: u32 = if column == 0 { w - 1 } else { column - 1 };
        let right: u32 = if column + 1 == w { 0 } else { column + 1 };
        proof {
            lemma_neighbors_unfold(self.cells@, w as int, h as int, row as int, column as int);
        }
        let mut count: u8 = self.code_at_position(up, left);
        count = count + self.code_at_position(up, column);
        count = count + self.code_at_position(up, right);
        count = count + self.code_at_position(row, left);
        count = count + self.code_at_position(row, right);
        count = count + self.code_at_position(down, left);
        count = count + self.code_at_position(down, column);
        count = count + self.code_at_position(down, right);
        count
    }

    /// Sets alive every cell at a wrapped offset of `offsets` from `(row, col)`.
    fn stamp(&mut self, row: i32, col: i32, offsets: &[(i32, i32)])
        requires
            old(self).wf(),
            old(self)@.height > 0,
            old(self)@.width > 0,
        ensures
            final(self).wf(),
            final(self)@.width == old(self)@.width,
            final(self)@.height == old(self)@.height,
            final(self)@.cells == stamped(
                old(self)@.cells,
                old(self)@.width as int,
                old(self)@.height as int,
                row as int,
                col as int,
                widen(offsets@),
            ),
    {
        let ghost start = self.cells@;
        let ghost w = self.width as int;
        let ghost h = self.height as int;
        let ghost pats = widen(offsets@);
        let mut k: usize = 0;
        assert(self.cells@ =~= stamped(start, w, h, row as int, col as int, pats.take(0)));
        while k < offsets.len()
            invariant
                self.wf(),
                w == self.width,
                h == self.height,
                h > 0,
                w > 0,
                start.len() == self.cells@.len(),
                pats == widen(offsets@),
                0 <= k <= offsets@.len(),
                self.cells@ == stamped(start, w, h, row as int, col as int, pats.take(k as int)),
            decreases offsets@.len() - k,
        {
            let (dr, dc) = offsets[k];
            let r = wrap_coordinate(row, dr, self.height);
            let c = wrap_coordinate(col, dc, self.width);
            let idx = self.get_index(r, c);
            self.cells.set(idx, Cell::Alive);
            proof {
                let seen = pats.take(k as int);
                let seen_next = pats.take(k + 1);
                assert(seen_next[k as int] == (dr as int, dc as int));
                assert(offset_index(w, h, row as int, col as int, seen_next[k as int]) == idx);
                assert forall|i: int| 0 <= i < start.len() implies #[trigger] self.cells@[i]
                    == stamped(start, w, h, row as int, col as int, seen_next)[i] by {
                    if covers(w, h, row as int, col as int, seen, i) {
                        let j = choose|j: int| 0 <= j < seen.len()
                            && #[trigger] offset_index(w, h, row as int, col as int, seen[j]) == i;
                        assert(seen_next[j] == seen[j]);
                    }
                    if covers(w, h, row as int, col as int, seen_next, i) && i != idx {
                        let j = choose|j: int| 0 <= j < seen_next.len()
                            && #[trigger] offset_index(w, h, row as int, col as int, seen_next[j]) == i;
                        assert(seen_next[j] == seen[j]);
                    }
                }
                assert(self.cells@ =~= stamped(start, w, h, row as int, col as int, seen_next));
            }
            k = k + 1;
        }
        assert(pats.take(offsets@.len() as int) =~= pats);
    }

    /// Stamps a glider centred on `(row, col)`, each cell wrapped around the torus.
    pub fn add_glider(&mut self, row: i32, col: i32)
        requires
            old(self).wf(),
            old(self)@.height > 0,
            old(self)@.width > 0,
        ensures
            final(self).wf(),
            final(self)@.width == old(self)@.width,
            final(self)@.height == old(self)@.height,
            final(self)@.cells == stamped(
                old(self)@.cells,
                old(self)@.width as int,
                old(self)@.height as int,
                row as int,
                col as int,
                glider_offsets(),
            ),
    {
        let offsets: [(i32, i32); 5] = [(-1, 0), (0, 1), (1, -1), (1, 0), (1, 1)];
        assert(widen(offsets@) =~= glider_offsets());
        self.stamp(row, col, offsets.as_slice());
    }

    /// Stamps a pulsar centred on `(row, col)`, each cell wrapped around the torus.
    pub fn add_pulsar(&mut self, row: i32, col: i32)
        requires
            old(self).wf(),
            old(self)@.height > 0,
            old(self)@.width > 0,
        ensures
            final(self).wf(),
            final(self)@.width == old(self)@.width,
            final(self)@.height == old(self)@.height,
            final(self)@.cells == stamped(
                old(self)@.cells,
                old(self)@.width as int,
                old(self)@.height as int,
                row as int,
                col as int,
                pulsar_offsets(),
            ),
    {
        let offsets: [(i32, i32); 48] = [
            (-6, -4), (-6, -3), (-6, -2), (-6, 2), (-6, 3), (-6, 4),
            (-4, -6), (-4, -1), (-4, 1), (-4, 6),
            (-3, -6), (-3, -1), (-3, 1), (-3, 6),
            (-2, -6), (-2, -1), (-2, 1), (-2, 6),
            (-1, -4), (-1, -3), (-1, -2), (-1, 2), (-1, 3), (-1, 4),
            (6, -4), (6, -3), (6, -2), (6, 2), (6, 3), (6, 4),
            (4, -6), (4, -1), (4, 1), (4, 6),
            (3, -6), (3, -1), (3, 1), (3, 6),
            (2, -6), (2, -1), (2, 1), (2, 6),
            (1, -4), (1, -3), (1, -2), (1, 2), (1, 3), (1, 4),
        ];
        assert(widen(offsets@) =~= pulsar_offsets());
        self.stamp(row, col, offsets.as_slice());
    }

    /// Advances the whole grid by one generation.
    pub fn tick(&mut self)
        requires
            old(self).wf(),
        ensures
            final(self).wf(),
            final(self)@.width == old(self)@.width,
            final(self)@.height == old(self)@.height,
            final(self)@.cells == next_generation(old(self)@.cells, old(self)@.width as int, old(self)@.height as int),
    {
        let ghost w = self.width as int;
        let ghost h = self.height as int;
        let ghost target = next_generation(self.cells@, w, h);
        let mut next: Vec<Cell> = Vec::new();
        let mut row: u32 = 0;
        while row < self.height
            invariant
                self.wf(),
                w == self.width,
                h == self.height,
                target == next_generation(self.cells@, w, h),
                target.len() == w * h,
                0 <= row <= h,
                next@.len() == row * w,
                forall|i: int| 0 <= i < next@.len() ==> next@[i] == target[i],
            decreases h - row,
        {
            let mut col: u32 = 0;
            assert(row * w <= w * h) by (nonlinear_arith)
                requires
                    0 <= row < h,
                    0 <= w,
            ;
            while col < self.width
                invariant
                    self.wf(),
                    w == self.width,
                    h == self.height,
                    target == next_generation(self.cells@, w, h),
                    target.len() == w * h,
                    0 <= row < h,
                    0 <= col <= w,
                    next@.len() == row * w + col,
                    row * w + col <= w * h,
                    forall|i: int| 0 <= i < next@.len() ==> next@[i] == target[i],
                decreases w - col,
            {
                let idx = self.get_index(row, col);
                proof {
                    lemma_index_split(w, h, row as int, col as int);
                }
                let live = self.live_neighbor_count(row, col);
                let cell = self.cells[idx];
                next.push(successor(cell, live));
                assert(row * w + col + 1 <= w * h) by (nonlinear_arith)
                    requires
                        0 <= row < h,
                        0 <= col < w,
                ;
                col = col + 1;
            }
            assert(row * w + w == (row + 1) * w) by (nonlinear_arith);
            row = row + 1;
        }
        assert(h * w == w * h) by (nonlinear_arith);
        assert(next@ =~= target);
        self.cells = next;
    }
}

} // verus!
