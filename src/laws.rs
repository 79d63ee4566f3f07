//! Properties of the model that every use of the library can rely on.
use vstd::prelude::*;
use crate::cell::{Cell, code_of, flipped};
use crate::rules::{
    all_dead, stamped, offset_index, glider_offsets, covers,
    index_of, live_neighbors, next_state, next_generation, toggled, code_in,
    lemma_neighbors_unfold, lemma_index_split, lemma_wrap_step,
};
use crate::universe::{Grid, grid_wf};

verus! {

/// The next generation is a function of the current grid alone: two equal
/// grids step to equal grids.
pub proof fn tick_is_deterministic(a: Grid, b: Grid)
    requires
        grid_wf(a),
        a == b,
    ensures
        next_generation(a.cells, a.width as int, a.height as int)
            == next_generation(b.cells, b.width as int, b.height as int),
{
}

/// Every cell's next state is decided by the rule from its own current state
/// and its current neighbour count: no cell sees a neighbour already updated.
pub proof fn tick_reads_only_the_current_generation(cells: Seq<Cell>, width: int, height: int, row: int, col: int)
    requires
        0 <= row < height,
        0 <= col < width,
        cells.len() == width * height,
    ensures
        next_generation(cells, width, height)[index_of(width, row, col)]
            == next_state(cells[index_of(width, row, col)], live_neighbors(cells, width, height, row, col)),
{
    lemma_index_split(width, height, row, col);
}

/// Toggling the same cell twice gives back the grid it started from.
pub proof fn toggle_twice_restores(cells: Seq<Cell>, width: int, height: int, row: int, col: int)
    requires
        0 <= row < height,
        0 <= col < width,
        cells.len() == width * height,
    ensures
        toggled(toggled(cells, width, row, col), width, row, col) == cells,
{
    lemma_index_split(width, height, row, col);
    let i = index_of(width, row, col);
    assert(flipped(flipped(cells[i])) == cells[i]);
    assert(toggled(toggled(cells, width, row, col), width, row, col) =~= cells);
}

/// How much setting position `p` alive rather than dead raises the neighbour
/// count of `(row, col)`.
pub open spec fn gain(cells: Seq<Cell>, width: int, height: int, p: int, row: int, col: int) -> int {
    live_neighbors(cells.update(p, Cell::Alive), width, height, row, col)
        - live_neighbors(cells.update(p, Cell::Dead), width, height, row, col)
}

/// Setting one position alive rather than dead raises the code read at that
/// position by one and leaves every other position as it was.
proof fn lemma_term(cells: Seq<Cell>, p: int, j: int)
    requires
        0 <= p < cells.len(),
        0 <= j < cells.len(),
    ensures
        code_of(cells.update(p, Cell::Alive)[j]) >= code_of(cells.update(p, Cell::Dead)[j]),
        j == p ==> code_of(cells.update(p, Cell::Alive)[j]) == code_of(cells.update(p, Cell::Dead)[j]) + 1,
{
}

/// The row above, the row below, the column left and the column right of
/// `(row, col)`, each wrapped around the torus.
pub open spec fn around(width: int, height: int, row: int, col: int) -> (int, int, int, int) {
    (
        if row == 0 { height - 1 } else { row - 1 },
        if row + 1 == height { 0 } else { row + 1 },
        if col == 0 { width - 1 } else { col - 1 },
        if col + 1 == width { 0 } else { col + 1 },
    )
}

/// A live cell at `(a, b)` counts among the neighbours of `(row, col)` when
/// `(a, b)` is one of its eight wrapped neighbour positions.
proof fn lemma_gain(cells: Seq<Cell>, width: int, height: int, row: int, col: int, a: int, b: int)
    requires
        0 <= row < height,
        0 <= col < width,
        cells.len() == width * height,
        ({
            let (up, down, left, right) = around(width, height, row, col);
            ||| (a == up || a == down) && (b == left || b == col || b == right)
            ||| a == row && (b == left || b == right)
        }),
    ensures
        gain(cells, width, height, index_of(width, a, b), row, col) >= 1,
{
    let (up, down, left, right) = around(width, height, row, col);
    let p = index_of(width, a, b);
    lemma_index_split(width, height, a, b);
    let on = cells.update(p, Cell::Alive);
    let off = cells.update(p, Cell::Dead);
    lemma_neighbors_unfold(on, width, height, row, col);
    lemma_neighbors_unfold(off, width, height, row, col);
    reveal(code_in);
    lemma_index_split(width, height, up, left);
    lemma_index_split(width, height, up, col);
    lemma_index_split(width, height, up, right);
    lemma_index_split(width, height, row, left);
    lemma_index_split(width, height, row, right);
    lemma_index_split(width, height, down, left);
    lemma_index_split(width, height, down, col);
    lemma_index_split(width, height, down, right);
    lemma_term(cells, p, index_of(width, up, left));
    lemma_term(cells, p, index_of(width, up, col));
    lemma_term(cells, p, index_of(width, up, right));
    lemma_term(cells, p, index_of(width, row, left));
    lemma_term(cells, p, index_of(width, row, right));
    lemma_term(cells, p, index_of(width, down, left));
    lemma_term(cells, p, index_of(width, down, col));
    lemma_term(cells, p, index_of(width, down, right));
}

/// The edges wrap: a live cell at `(0, 0)` counts among the neighbours of
/// `(height - 1, width - 1)`, `(height - 1, 0)` and `(0, width - 1)`, and a live
/// cell at each of those counts among the neighbours of `(0, 0)`.
pub proof fn corners_are_neighbors(cells: Seq<Cell>, width: int, height: int)
    requires
        width >= 1,
        height >= 1,
        cells.len() == width * height,
    ensures
        gain(cells, width, height, 0, height - 1, width - 1) >= 1,
        gain(cells, width, height, 0, height - 1, 0) >= 1,
        gain(cells, width, height, 0, 0, width - 1) >= 1,
        gain(cells, width, height, index_of(width, height - 1, width - 1), 0, 0) >= 1,
        gain(cells, width, height, index_of(width, height - 1, 0), 0, 0) >= 1,
        gain(cells, width, height, index_of(width, 0, width - 1), 0, 0) >= 1,
{
    let (w, h) = (width, height);
    assert(index_of(w, 0, 0) == 0);
    lemma_gain(cells, w, h, h - 1, w - 1, 0, 0);
    lemma_gain(cells, w, h, h - 1, 0, 0, 0);
    lemma_gain(cells, w, h, 0, w - 1, 0, 0);
    lemma_gain(cells, w, h, 0, 0, h - 1, w - 1);
    lemma_gain(cells, w, h, 0, 0, h - 1, 0);
    lemma_gain(cells, w, h, 0, 0, 0, w - 1);
}

/// Whether `(row, col)` lies in the 2 x 2 block whose top-left cell is
/// `(top, left)`, the block wrapping around the edges.
pub open spec fn in_block(width: int, height: int, top: int, left: int, row: int, col: int) -> bool {
    (row == top || row == (top + 1) % height) && (col == left || col == (left + 1) % width)
}

/// A grid whose only live cells form the 2 x 2 block at `(top, left)`.
pub open spec fn block_grid(width: int, height: int, top: int, left: int) -> Seq<Cell> {
    Seq::new(
        (width * height) as nat,
        |i: int| if in_block(width, height, top, left, i / width, i % width) { Cell::Alive } else { Cell::Dead },
    )
}

/// Every position of a `width` x `height` grid is the row-major index of its
/// own row and column.
proof fn lemma_position_split(width: int, height: int, i: int)
    requires
        0 < width,
        0 <= i < width * height,
    ensures
        0 <= i / width < height,
        0 <= i % width < width,
        index_of(width, i / width, i % width) == i,
{
    vstd::arithmetic::div_mod::lemma_fundamental_div_mod(i, width);
    vstd::arithmetic::div_mod::lemma_mod_pos_bound(i, width);
    let q = i / width;
    let r = i % width;
    assert(0 <= q < height) by (nonlinear_arith)
        requires
            i == width * q + r,
            0 <= r < width,
            0 <= i < width * height,
    ;
    assert(q * width == width * q) by (nonlinear_arith);
}

/// One cell of a lone block keeps its state through a generation.
proof fn lemma_block_cell(width: int, height: int, top: int, left: int, row: int, col: int)
    requires
        3 <= width,
        3 <= height,
        0 <= top < height,
        0 <= left < width,
        0 <= row < height,
        0 <= col < width,
    ensures
        ({
            let g = block_grid(width, height, top, left);
            let i = index_of(width, row, col);
            next_state(g[i], live_neighbors(g, width, height, row, col)) == g[i]
        }),
{
    let g = block_grid(width, height, top, left);
    let (up, down, l, r) = around(width, height, row, col);
    lemma_wrap_step(row, height);
    lemma_wrap_step(col, width);
    lemma_wrap_step(top, height);
    lemma_wrap_step(left, width);
    lemma_neighbors_unfold(g, width, height, row, col);
    reveal(code_in);
    lemma_index_split(width, height, up, l);
    lemma_index_split(width, height, up, col);
    lemma_index_split(width, height, up, r);
    lemma_index_split(width, height, row, l);
    lemma_index_split(width, height, row, col);
    lemma_index_split(width, height, row, r);
    lemma_index_split(width, height, down, l);
    lemma_index_split(width, height, down, col);
    lemma_index_split(width, height, down, r);
}

/// A 2 x 2 block with no other live cell is left unchanged by a generation,
/// wherever it stands, on any grid of at least 3 x 3 cells.
pub proof fn block_is_still_life(width: int, height: int, top: int, left: int)
    requires
        3 <= width,
        3 <= height,
        0 <= top < height,
        0 <= left < width,
    ensures
        next_generation(block_grid(width, height, top, left), width, height)
            == block_grid(width, height, top, left),
{
    let g = block_grid(width, height, top, left);
    assert forall|i: int| 0 <= i < g.len() implies #[trigger] next_generation(g, width, height)[i] == g[i] by {
        lemma_position_split(width, height, i);
        lemma_block_cell(width, height, top, left, i / width, i % width);
    }
    assert(next_generation(g, width, height) =~= g);
}

/// A grid whose only live cells are those of `offsets` around `(row, col)`.
pub open spec fn pattern_grid(width: int, height: int, row: int, col: int, offsets: Seq<(int, int)>) -> Seq<Cell> {
    stamped(all_dead((width * height) as nat), width, height, row, col, offsets)
}

/// The glider in each of the phases it passes through in four generations,
/// relative to the centre of its first phase; the last phase is the first one
/// moved one cell down and one cell right.
pub open spec fn glider_phase(k: int) -> Seq<(int, int)> {
    if k == 0 {
        glider_offsets()
    } else if k == 1 {
        seq![(0, -1), (0, 1), (1, 0), (1, 1), (2, 0)]
    } else if k == 2 {
        seq![(0, 1), (1, -1), (1, 1), (2, 0), (2, 1)]
    } else if k == 3 {
        seq![(0, 0), (1, 1), (1, 2), (2, 0), (2, 1)]
    } else {
        seq![(0, 1), (1, 2), (2, 0), (2, 1), (2, 2)]
    }
}

/// A position a little outside `0..n` brought back into it.
proof fn lemma_mod_near(x: int, n: int)
    requires
        0 < n,
        -n <= x < 2 * n,
    ensures
        x % n == if x < 0 { x + n } else if x >= n { x - n } else { x },
{
    if x < 0 {
        vstd::arithmetic::div_mod::lemma_fundamental_div_mod_converse(x, n, -1, x + n);
    } else if x >= n {
        vstd::arithmetic::div_mod::lemma_fundamental_div_mod_converse(x, n, 1, x - n);
    } else {
        vstd::arithmetic::div_mod::lemma_fundamental_div_mod_converse(x, n, 0, x);
    }
}

/// Whether the cell `(a, b)` is one of the five cells of `offsets` around `(row, col)`.
pub open spec fn hit5(width: int, height: int, row: int, col: int, offsets: Seq<(int, int)>, a: int, b: int) -> bool {
    ||| (row + offsets[0].0) % height == a && (col + offsets[0].1) % width == b
    ||| (row + offsets[1].0) % height == a && (col + offsets[1].1) % width == b
    ||| (row + offsets[2].0) % height == a && (col + offsets[2].1) % width == b
    ||| (row + offsets[3].0) % height == a && (col + offsets[3].1) % width == b
    ||| (row + offsets[4].0) % height == a && (col + offsets[4].1) % width == b
}

/// The cell at an in-range `(a, b)` of a five-cell pattern grid is alive exactly
/// when it is one of the pattern's cells.
proof fn lemma_pattern_at(width: int, height: int, row: int, col: int, offsets: Seq<(int, int)>, a: int, b: int)
    requires
        0 < width,
        0 < height,
        offsets.len() == 5,
        0 <= a < height,
        0 <= b < width,
    ensures
        pattern_grid(width, height, row, col, offsets)[index_of(width, a, b)]
            == if hit5(width, height, row, col, offsets, a, b) { Cell::Alive } else { Cell::Dead },
{
    let i = index_of(width, a, b);
    lemma_index_split(width, height, a, b);
    assert forall|m: int| 0 <= m < 5 implies
        (#[trigger] offset_index(width, height, row, col, offsets[m]) == i) == (
            (row + offsets[m].0) % height == a && (col + offsets[m].1) % width == b) by {
        let x = (row + offsets[m].0) % height;
        let y = (col + offsets[m].1) % width;
        vstd::arithmetic::div_mod::lemma_mod_bound(row + offsets[m].0, height);
        vstd::arithmetic::div_mod::lemma_mod_bound(col + offsets[m].1, width);
        lemma_index_split(width, height, x, y);
    }
    if hit5(width, height, row, col, offsets, a, b) {
        if (row + offsets[0].0) % height == a && (col + offsets[0].1) % width == b {
            assert(offset_index(width, height, row, col, offsets[0]) == i);
        } else if (row + offsets[1].0) % height == a && (col + offsets[1].1) % width == b {
            assert(offset_index(width, height, row, col, offsets[1]) == i);
        } else if (row + offsets[2].0) % height == a && (col + offsets[2].1) % width == b {
            assert(offset_index(width, height, row, col, offsets[2]) == i);
        } else if (row + offsets[3].0) % height == a && (col + offsets[3].1) % width == b {
            assert(offset_index(width, height, row, col, offsets[3]) == i);
        } else {
            assert(offset_index(width, height, row, col, offsets[4]) == i);
        }
    }
}

/// One cell of the grid follows the glider from phase `k` to phase `k + 1`.
#[verifier::rlimit(100)]
proof fn lemma_glider_cell(width: int, height: int, top: int, left: int, k: int, row: int, col: int)
    requires
        5 <= width,
        5 <= height,
        0 <= top < height,
        0 <= left < width,
        0 <= k < 4,
        0 <= row < height,
        0 <= col < width,
    ensures
        ({
            let g = pattern_grid(width, height, top, left, glider_phase(k));
            let i = index_of(width, row, col);
            next_state(g[i], live_neighbors(g, width, height, row, col))
                == pattern_grid(width, height, top, left, glider_phase(k + 1))[i]
        }),
{
    let p = glider_phase(k);
    let g = pattern_grid(width, height, top, left, p);
    let (up, down, l, r) = around(width, height, row, col);
    lemma_wrap_step(row, height);
    lemma_wrap_step(col, width);
    lemma_mod_near(top - 1, height);
    lemma_mod_near(top, height);
    lemma_mod_near(top + 1, height);
    lemma_mod_near(top + 2, height);
    lemma_mod_near(left - 1, width);
    lemma_mod_near(left, width);
    lemma_mod_near(left + 1, width);
    lemma_mod_near(left + 2, width);
    lemma_neighbors_unfold(g, width, height, row, col);
    reveal(code_in);
    lemma_pattern_at(width, height, top, left, p, up, l);
    lemma_pattern_at(width, height, top, left, p, up, col);
    lemma_pattern_at(width, height, top, left, p, up, r);
    lemma_pattern_at(width, height, top, left, p, row, l);
    lemma_pattern_at(width, height, top, left, p, row, col);
    lemma_pattern_at(width, height, top, left, p, row, r);
    lemma_pattern_at(width, height, top, left, p, down, l);
    lemma_pattern_at(width, height, top, left, p, down, col);
    lemma_pattern_at(width, height, top, left, p, down, r);
    lemma_pattern_at(width, height, top, left, glider_phase(k + 1), row, col);
}

/// The whole grid goes from glider phase `k` to phase `k + 1` in one generation.
proof fn lemma_glider_step(width: int, height: int, top: int, left: int, k: int)
    requires
        5 <= width,
        5 <= height,
        0 <= top < height,
        0 <= left < width,
        0 <= k < 4,
    ensures
        next_generation(pattern_grid(width, height, top, left, glider_phase(k)), width, height)
            == pattern_grid(width, height, top, left, glider_phase(k + 1)),
{
    let g = pattern_grid(width, height, top, left, glider_phase(k));
    let g2 = pattern_grid(width, height, top, left, glider_phase(k + 1));
    assert forall|i: int| 0 <= i < g.len() implies #[trigger] next_generation(g, width, height)[i] == g2[i] by {
        lemma_position_split(width, height, i);
        lemma_glider_cell(width, height, top, left, k, i / width, i % width);
    }
    assert(next_generation(g, width, height) =~= g2);
}

/// Two patterns whose cells land on the same positions, one by one, give the same grid.
proof fn lemma_same_positions(
    width: int,
    height: int,
    r1: int,
    c1: int,
    first: Seq<(int, int)>,
    r2: int,
    c2: int,
    second: Seq<(int, int)>,
)
    requires
        first.len() == second.len(),
        forall|m: int| 0 <= m < first.len() ==> #[trigger] offset_index(width, height, r1, c1, first[m])
            == offset_index(width, height, r2, c2, second[m]),
    ensures
        pattern_grid(width, height, r1, c1, first) == pattern_grid(width, height, r2, c2, second),
{
    let g1 = pattern_grid(width, height, r1, c1, first);
    let g2 = pattern_grid(width, height, r2, c2, second);
    assert forall|i: int| 0 <= i < g1.len() implies g1[i] == g2[i] by {
        if covers(width, height, r1, c1, first, i) {
            let m = choose|m: int| 0 <= m < first.len() && #[trigger] offset_index(width, height, r1, c1, first[m]) == i;
            assert(offset_index(width, height, r2, c2, second[m]) == i);
        }
        if covers(width, height, r2, c2, second, i) {
            let m = choose|m: int| 0 <= m < second.len() && #[trigger] offset_index(width, height, r2, c2, second[m]) == i;
            assert(offset_index(width, height, r1, c1, first[m]) == i);
        }
    }
    assert(g1 =~= g2);
}

/// A pattern stamped around `(row, col)` is the same as one stamped around the
/// centre brought into the grid.
proof fn lemma_pattern_reduce(width: int, height: int, row: int, col: int, offsets: Seq<(int, int)>)
    requires
        0 < width,
        0 < height,
    ensures
        pattern_grid(width, height, row, col, offsets)
            == pattern_grid(width, height, row % height, col % width, offsets),
{
    assert forall|m: int| 0 <= m < offsets.len() implies #[trigger] offset_index(width, height, row, col, offsets[m])
        == offset_index(width, height, row % height, col % width, offsets[m]) by {
        vstd::arithmetic::div_mod::lemma_add_mod_noop_right(offsets[m].0, row, height);
        vstd::arithmetic::div_mod::lemma_add_mod_noop_right(offsets[m].1, col, width);
    }
    lemma_same_positions(width, height, row, col, offsets, row % height, col % width, offsets);
}

/// A glider stamped alone on a grid of at least 5 x 5 cells, after four
/// generations, is the same glider moved one cell down and one cell right,
/// wrapping around the edges.
pub proof fn glider_translates(width: int, height: int, row: int, col: int)
    requires
        5 <= width,
        5 <= height,
    ensures
        ({
            let g0 = pattern_grid(width, height, row, col, glider_offsets());
            let g1 = next_generation(g0, width, height);
            let g2 = next_generation(g1, width, height);
            let g3 = next_generation(g2, width, height);
            next_generation(g3, width, height) == pattern_grid(width, height, row + 1, col + 1, glider_offsets())
        }),
{
    let top = row % height;
    let left = col % width;
    vstd::arithmetic::div_mod::lemma_mod_bound(row, height);
    vstd::arithmetic::div_mod::lemma_mod_bound(col, width);
    lemma_pattern_reduce(width, height, row, col, glider_offsets());
    lemma_pattern_reduce(width, height, row + 1, col + 1, glider_offsets());
    lemma_glider_step(width, height, top, left, 0);
    lemma_glider_step(width, height, top, left, 1);
    lemma_glider_step(width, height, top, left, 2);
    lemma_glider_step(width, height, top, left, 3);
    vstd::arithmetic::div_mod::lemma_add_mod_noop_right(1, row, height);
    vstd::arithmetic::div_mod::lemma_add_mod_noop_right(1, col, width);
    assert(glider_phase(0) == glider_offsets());
    assert forall|m: int| 0 <= m < 5 implies #[trigger] offset_index(width, height, top, left, glider_phase(4)[m])
        == offset_index(width, height, top + 1, left + 1, glider_offsets()[m]) by {
    }
    lemma_same_positions(width, height, top, left, glider_phase(4), top + 1, left + 1, glider_offsets());
    lemma_pattern_reduce(width, height, top + 1, left + 1, glider_offsets());
}

} // verus!
