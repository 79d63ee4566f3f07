//! The mathematical model of the grid: row-major layout, toroidal
//! neighbourhoods, the B3/S23 rule and the stamping of patterns.
use vstd::prelude::*;
use crate::cell::{Cell, code_of, flipped};

verus! {

/// Row-major position of `(row, col)` in a grid `width` columns wide.
pub open spec fn index_of(width: int, row: int, col: int) -> int {
    row * width + col
}

/// The code (0 or 1) of the cell at `(row, col)`, both wrapped around the torus.
pub open spec fn code_at(cells: Seq<Cell>, width: int, height: int, row: int, col: int) -> nat {
    code_of(cells[index_of(width, row % height, col % width)])
}

/// Live cells among the eight toroidally wrapped neighbours of `(row, col)`.
#[verifier::opaque]
pub open spec fn live_neighbors(cells: Seq<Cell>, width: int, height: int, row: int, col: int) -> nat {
    code_at(cells, width, height, row - 1, col - 1)
        + code_at(cells, width, height, row - 1, col)
        + code_at(cells, width, height, row - 1, col + 1)
        + code_at(cells, width, height, row, col - 1)
        + code_at(cells, width, height, row, col + 1)
        + code_at(cells, width, height, row + 1, col - 1)
        + code_at(cells, width, height, row + 1, col)
        + code_at(cells, width, height, row + 1, col + 1)
}

/// Conway's rule: survival on 2 or 3 live neighbours, birth on exactly 3.
pub open spec fn next_state(cell: Cell, live: nat) -> Cell {
    match cell {
        Cell::Alive => if live == 2 || live == 3 { Cell::Alive } else { Cell::Dead },
        Cell::Dead => if live == 3 { Cell::Alive } else { Cell::Dead },
    }
}

/// The whole next generation, each cell computed from the current one only.
pub open spec fn next_generation(cells: Seq<Cell>, width: int, height: int) -> Seq<Cell> {
    Seq::new(
        cells.len(),
        |i: int| next_state(cells[i], live_neighbors(cells, width, height, i / width, i % width)),
    )
}

/// A grid of `len` dead cells.
pub open spec fn all_dead(len: nat) -> Seq<Cell> {
    Seq::new(len, |i: int| Cell::Dead)
}

/// `cells` with the cell at `(row, col)` flipped.
pub open spec fn toggled(cells: Seq<Cell>, width: int, row: int, col: int) -> Seq<Cell> {
    cells.update(index_of(width, row, col), flipped(cells[index_of(width, row, col)]))
}

/// Random fill: a cell whose uniform sample lay above one half is dead, any other alive.
pub open spec fn seeded(above_half: Seq<bool>) -> Seq<Cell> {
    Seq::new(above_half.len(), |i: int| if above_half[i] { Cell::Dead } else { Cell::Alive })
}

/// Whether some coordinate pair of `coords` lands on position `i`.
pub open spec fn marks(width: int, coords: Seq<(u32, u32)>, i: int) -> bool {
    exists|k: int| 0 <= k < coords.len() && #[trigger] index_of(width, coords[k].0 as int, coords[k].1 as int) == i
}

/// `cells` with every position named in `coords` set alive.
pub open spec fn marked(cells: Seq<Cell>, width: int, coords: Seq<(u32, u32)>) -> Seq<Cell> {
    Seq::new(cells.len(), |i: int| if marks(width, coords, i) { Cell::Alive } else { cells[i] })
}

/// Position of `(row + dr, col + dc)` with both coordinates wrapped around the torus.
pub open spec fn offset_index(width: int, height: int, row: int, col: int, off: (int, int)) -> int {
    index_of(width, (row + off.0) % height, (col + off.1) % width)
}

/// Whether some offset of `offsets`, taken from `(row, col)`, lands on position `i`.
pub open spec fn covers(width: int, height: int, row: int, col: int, offsets: Seq<(int, int)>, i: int) -> bool {
    exists|k: int| 0 <= k < offsets.len() && #[trigger] offset_index(width, height, row, col, offsets[k]) == i
}

/// `cells` with the pattern `offsets` stamped alive around `(row, col)`.
pub open spec fn stamped(
    cells: Seq<Cell>,
    width: int,
    height: int,
    row: int,
    col: int,
    offsets: Seq<(int, int)>,
) -> Seq<Cell> {
    Seq::new(
        cells.len(),
        |i: int| if covers(width, height, row, col, offsets, i) { Cell::Alive } else { cells[i] },
    )
}

/// Machine offsets read as mathematical pairs.
pub open spec fn widen(offsets: Seq<(i32, i32)>) -> Seq<(int, int)> {
    offsets.map_values(|p: (i32, i32)| (p.0 as int, p.1 as int))
}

/// The five cells of a glider, relative to its centre.
pub open spec fn glider_offsets() -> Seq<(int, int)> {
    seq![(-1, 0), (0, 1), (1, -1), (1, 0), (1, 1)]
}

/// The forty-eight cells of a pulsar, relative to its centre.
pub open spec fn pulsar_offsets() -> Seq<(int, int)> {
    seq![
        (-6, -4), (-6, -3), (-6, -2), (-6, 2), (-6, 3), (-6, 4),
        (-4, -6), (-4, -1), (-4, 1), (-4, 6),
        (-3, -6), (-3, -1), (-3, 1), (-3, 6),
        (-2, -6), (-2, -1), (-2, 1), (-2, 6),
        (-1, -4), (-1, -3), (-1, -2), (-1, 2), (-1, 3), (-1, 4),
        (6, -4), (6, -3), (6, -2), (6, 2), (6, 3), (6, 4),
        (4, -6), (4, -1), (4, 1), (4, 6),
        (3, -6), (3, -1), (3, 1), (3, 6),
        (2, -6), (2, -1), (2, 1), (2, 6),
        (1, -4), (1, -3), (1, -2), (1, 2), (1, 3), (1, 4),
    ]
}

/// The glyph a row of the text rendering shows for a cell.
pub open spec fn glyph(c: Cell) -> char {
    match c {
        Cell::Dead => '\u{25FB}',
        Cell::Alive => '\u{25FC}',
    }
}

/// The text rendering: each row's glyphs followed by a newline, rows in order.
pub open spec fn rendering(cells: Seq<Cell>, width: int, height: int) -> Seq<char> {
    Seq::new(
        (height * (width + 1)) as nat,
        |i: int|
            if i % (width + 1) == width {
                '\n'
            } else {
                glyph(cells[index_of(width, i / (width + 1), i % (width + 1))])
            },
    )
}

/// Stepping one place back or forth around a ring of `n` positions.
pub proof fn lemma_wrap_step(r: int, n: int)
    requires
        0 <= r < n,
    ensures
        r % n == r,
        (r - 1) % n == if r == 0 { n - 1 } else { r - 1 },
        (r + 1) % n == if r + 1 == n { 0 } else { r + 1 },
{
    vstd::arithmetic::div_mod::lemma_fundamental_div_mod_converse(r, n, 0, r);
    if r == 0 {
        vstd::arithmetic::div_mod::lemma_fundamental_div_mod_converse(r - 1, n, -1, n - 1);
    } else {
        vstd::arithmetic::div_mod::lemma_fundamental_div_mod_converse(r - 1, n, 0, r - 1);
    }
    if r + 1 == n {
        vstd::arithmetic::div_mod::lemma_fundamental_div_mod_converse(r + 1, n, 1, 0);
    } else {
        vstd::arithmetic::div_mod::lemma_fundamental_div_mod_converse(r + 1, n, 0, r + 1);
    }
}

/// The code of the cell at an in-range `(row, col)`.
#[verifier::opaque]
pub open spec fn code_in(cells: Seq<Cell>, width: int, row: int, col: int) -> nat {
    code_of(cells[index_of(width, row, col)])
}

/// The neighbour count with each wrapped coordinate written as the position it names.
pub proof fn lemma_neighbors_unfold(cells: Seq<Cell>, width: int, height: int, row: int, col: int)
    requires
        0 <= row < height,
        0 <= col < width,
    ensures
        ({
            let up = if row == 0 { height - 1 } else { row - 1 };
            let down = if row + 1 == height { 0 } else { row + 1 };
            let left = if col == 0 { width - 1 } else { col - 1 };
            let right = if col + 1 == width { 0 } else { col + 1 };
            live_neighbors(cells, width, height, row, col) == code_in(cells, width, up, left)
                + code_in(cells, width, up, col) + code_in(cells, width, up, right)
                + code_in(cells, width, row, left) + code_in(cells, width, row, right)
                + code_in(cells, width, down, left) + code_in(cells, width, down, col)
                + code_in(cells, width, down, right)
        }),
{
    reveal(live_neighbors);
    reveal(code_in);
    lemma_wrap_step(row, height);
    lemma_wrap_step(col, width);
}

/// A row-major position splits back into its row and column.
pub proof fn lemma_index_split(width: int, height: int, row: int, col: int)
    requires
        0 <= row < height,
        0 <= col < width,
    ensures
        0 <= index_of(width, row, col) < width * height,
        index_of(width, row, col) / width == row,
        index_of(width, row, col) % width == col,
{
    assert(0 <= row * width + col < width * height) by (nonlinear_arith)
        requires
            0 <= row < height,
            0 <= col < width,
    ;
    vstd::arithmetic::div_mod::lemma_fundamental_div_mod_converse(row * width + col, width, row, col);
}

} // verus!
