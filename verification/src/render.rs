//! The text picture of a colony: one character per cell, one line per row.

use vstd::prelude::*;
use vstd::arithmetic::div_mod::{lemma_fundamental_div_mod, lemma_fundamental_div_mod_converse};
use crate::cell::Cell;
use crate::grid::{cell_index, in_bounds, is_grid, lemma_index_of_position};

verus! {

/// `String::push` appends the given character to the end of the string.
pub assume_specification[ String::push ](s: &mut String, ch: char)
    ensures
        final(s)@ == old(s)@.push(ch),
;

/// The character that stands for a cell: a star when alive, a dash when dead.
pub open spec fn glyph(c: Cell) -> char {
    if c.live {
        '*'
    } else {
        '-'
    }
}

/// The row that the cell before the end of `cells` was on; row zero where
/// there is no such cell.
pub open spec fn row_so_far(cells: Seq<Cell>) -> int {
    if cells.len() == 0 {
        0
    } else {
        cells.last().y as int
    }
}

/// The picture of `cells` without its closing line break: the glyph of every
/// cell in order, with a line break before each cell whose row differs from
/// that of the cell before it.
pub open spec fn rendered_cells(cells: Seq<Cell>) -> Seq<char>
    decreases cells.len(),
{
    if cells.len() == 0 {
        Seq::empty()
    } else {
        let before = cells.drop_last();
        let shown = rendered_cells(before);
        if cells.last().y != row_so_far(before) {
            shown.push('\n').push(glyph(cells.last()))
        } else {
            shown.push(glyph(cells.last()))
        }
    }
}

/// The whole picture of `cells`, closed by a line break.
pub open spec fn rendered(cells: Seq<Cell>) -> Seq<char> {
    rendered_cells(cells).push('\n')
}

/// Draws the colony as text.
pub fn render_colony(colony: &Vec<Cell>) -> (text: String)
    ensures
        text@ == rendered(colony@),
{
    let mut text: String = String::new();
    let mut last_y: i64 = 0;
    let mut idx: usize = 0;
    while idx < colony.len()
        invariant
            idx <= colony.len(),
            last_y == row_so_far(colony@.take(idx as int)),
            text@ == rendered_cells(colony@.take(idx as int)),
        decreases colony.len() - idx,
    {
        let c: Cell = colony[idx];
        proof {
            assert(colony@.take(idx + 1).drop_last() =~= colony@.take(idx as int));
        }
        if c.y != last_y {
            text.push('\n');
            last_y = c.y;
        }
        text.push(if c.live { '*' } else { '-' });
        idx += 1;
    }
    proof {
        assert(colony@.take(idx as int) =~= colony@);
    }
    text.push('\n');
    text
}

/// Place in the picture of a grid of the glyph for position `(x, y)`: rows of
/// `max_x` glyphs, each followed by one line break.
pub open spec fn picture_index(max_x: int, x: int, y: int) -> int {
    y * (max_x + 1) + x
}

/// Place of the glyph of the cell with index `i`, when every row before it
/// was closed by a line break.
spec fn glyph_place(max_x: int, i: int) -> int {
    i + i / max_x
}

/// Place of the line break that closes row `row`.
spec fn break_place(max_x: int, row: int) -> int {
    row * (max_x + 1) + max_x
}

/// Number of line breaks in the picture of the first `n` cells of a grid.
spec fn breaks_within(max_x: int, n: int) -> int {
    if n == 0 {
        0
    } else {
        (n - 1) / max_x
    }
}

/// The row of index `m - 1` is the row of index `m`, or the one before it
/// where `m` starts a row.
proof fn lemma_row_of_previous_index(max_x: int, m: int)
    requires
        0 < max_x,
        1 <= m,
    ensures
        m % max_x == 0 ==> (m - 1) / max_x == m / max_x - 1,
        m % max_x != 0 ==> (m - 1) / max_x == m / max_x,
        0 <= m % max_x < max_x,
        m == (m / max_x) * max_x + m % max_x,
{
    lemma_fundamental_div_mod(m, max_x);
    let q = m / max_x;
    let r = m % max_x;
    assert(max_x * q == q * max_x) by (nonlinear_arith);
    if r == 0 {
        assert((q - 1) * max_x + (max_x - 1) == m - 1) by (nonlinear_arith)
            requires
                m == q * max_x,
        ;
        lemma_fundamental_div_mod_converse(m - 1, max_x, q - 1, max_x - 1);
    } else {
        lemma_fundamental_div_mod_converse(m - 1, max_x, q, r - 1);
    }
}

/// The picture of the first `n` cells of a grid: every glyph and every line
/// break at its place.
proof fn lemma_rendered_prefix(cells: Seq<Cell>, max_x: int, max_y: int, n: int)
    requires
        is_grid(cells, max_x, max_y),
        0 < max_x,
        0 <= n <= cells.len(),
    ensures
        rendered_cells(cells.take(n)).len() == n + breaks_within(max_x, n),
        forall|i: int|
            0 <= i < n ==> rendered_cells(cells.take(n))[#[trigger] glyph_place(max_x, i)]
                == glyph(cells[i]),
        forall|row: int|
            0 <= row < breaks_within(max_x, n) ==> rendered_cells(
                cells.take(n),
            )[#[trigger] break_place(max_x, row)] == '\n',
    decreases n,
{
    if n > 0 {
        let m = n - 1;
        let shown = rendered_cells(cells.take(n));
        let before = rendered_cells(cells.take(m));
        lemma_rendered_prefix(cells, max_x, max_y, m);
        assert(cells.take(n).drop_last() =~= cells.take(m));
        assert(cells.take(n).last() == cells[m]);
        assert(cells[m].y == m / max_x);
        if m > 0 {
            lemma_row_of_previous_index(max_x, m);
            assert(cells.take(m).last() == cells[m - 1]);
            assert(cells[m - 1].y == (m - 1) / max_x);
        }
        let q = m / max_x;
        if m > 0 && m % max_x == 0 {
            assert(shown =~= before.push('\n').push(glyph(cells[m])));
            assert(before.len() == break_place(max_x, q - 1)) by (nonlinear_arith)
                requires
                    before.len() == m + (q - 1),
                    m == q * max_x,
                    break_place(max_x, q - 1) == (q - 1) * (max_x + 1) + max_x,
            ;
        } else {
            assert(shown =~= before.push(glyph(cells[m])));
        }
        assert(shown[glyph_place(max_x, m)] == glyph(cells[m]));
        assert forall|i: int| 0 <= i < n implies shown[#[trigger] glyph_place(max_x, i)] == glyph(
            cells[i],
        ) by {
            if i < m {
                assert(before[glyph_place(max_x, i)] == glyph(cells[i]));
                lemma_glyph_place_is_monotonic(max_x, i, m);
            }
        }
        assert forall|row: int|
            0 <= row < breaks_within(max_x, n) implies shown[#[trigger] break_place(max_x, row)]
            == '\n' by {
            if row < breaks_within(max_x, m) {
                assert(before[break_place(max_x, row)] == '\n');
                lemma_break_place_is_inside(max_x, row, m);
            }
        }
    }
}

/// Glyphs keep the order of their cells.
proof fn lemma_glyph_place_is_monotonic(max_x: int, i: int, m: int)
    requires
        0 < max_x,
        0 <= i < m,
    ensures
        0 <= glyph_place(max_x, i) < m + breaks_within(max_x, m),
{
    lemma_row_of_previous_index(max_x, m);
    lemma_fundamental_div_mod(i, max_x);
    lemma_fundamental_div_mod(m - 1, max_x);
    let qi = i / max_x;
    let qm = (m - 1) / max_x;
    assert(0 <= qi <= qm) by (nonlinear_arith)
        requires
            0 < max_x,
            0 <= i <= m - 1,
            i == max_x * qi + i % max_x,
            m - 1 == max_x * qm + (m - 1) % max_x,
            0 <= i % max_x < max_x,
            0 <= (m - 1) % max_x < max_x,
    ;
}

/// The line break that closes a row lies before everything of later rows.
proof fn lemma_break_place_is_inside(max_x: int, row: int, m: int)
    requires
        0 < max_x,
        0 < m,
        0 <= row < breaks_within(max_x, m),
    ensures
        0 <= break_place(max_x, row) < m + breaks_within(max_x, m),
{
    lemma_fundamental_div_mod(m - 1, max_x);
    let qm = (m - 1) / max_x;
    assert(row * (max_x + 1) + max_x < m + qm && 0 <= row * (max_x + 1) + max_x)
        by (nonlinear_arith)
        requires
            0 < max_x,
            0 <= row < qm,
            m - 1 == max_x * qm + (m - 1) % max_x,
            0 <= (m - 1) % max_x < max_x,
    ;
}

/// The picture of a grid is one line per row, top row first: the glyph of the
/// cell at `(x, y)` is character `x` of line `y`, and every line ends in a
/// line break.
pub proof fn lemma_rendered_grid(cells: Seq<Cell>, max_x: int, max_y: int)
    requires
        is_grid(cells, max_x, max_y),
        0 < max_x,
        0 < max_y,
    ensures
        rendered(cells).len() == (max_x + 1) * max_y,
        forall|x: int, y: int|
            in_bounds(max_x, max_y, x, y) ==> rendered(cells)[#[trigger] picture_index(max_x, x, y)]
                == glyph(cells[cell_index(max_x, x, y)]),
        forall|y: int|
            0 <= y < max_y ==> rendered(cells)[#[trigger] picture_index(max_x, max_x, y)] == '\n',
{
    let n = cells.len() as int;
    let shown = rendered_cells(cells);
    assert(cells.take(n) =~= cells);
    lemma_rendered_prefix(cells, max_x, max_y, n);
    lemma_index_of_position(max_x, max_y, max_x - 1, max_y - 1);
    assert(n - 1 == cell_index(max_x, max_x - 1, max_y - 1)) by (nonlinear_arith)
        requires
            n == max_x * max_y,
            cell_index(max_x, max_x - 1, max_y - 1) == (max_y - 1) * max_x + (max_x - 1),
    ;
    assert(breaks_within(max_x, n) == max_y - 1);
    assert(shown.len() == picture_index(max_x, max_x, max_y - 1)) by (nonlinear_arith)
        requires
            shown.len() == n + max_y - 1,
            n == max_x * max_y,
            picture_index(max_x, max_x, max_y - 1) == (max_y - 1) * (max_x + 1) + max_x,
    ;
    assert((max_x + 1) * max_y == picture_index(max_x, max_x, max_y - 1) + 1) by (nonlinear_arith)
        requires
            picture_index(max_x, max_x, max_y - 1) == (max_y - 1) * (max_x + 1) + max_x,
    ;
    assert forall|x: int, y: int| in_bounds(max_x, max_y, x, y) implies rendered(
        cells,
    )[#[trigger] picture_index(max_x, x, y)] == glyph(cells[cell_index(max_x, x, y)]) by {
        let i = cell_index(max_x, x, y);
        lemma_index_of_position(max_x, max_y, x, y);
        assert(glyph_place(max_x, i) == picture_index(max_x, x, y)) by (nonlinear_arith)
            requires
                glyph_place(max_x, i) == y * max_x + x + y,
                picture_index(max_x, x, y) == y * (max_x + 1) + x,
        ;
        assert(shown[glyph_place(max_x, i)] == glyph(cells[i]));
        lemma_glyph_place_is_monotonic(max_x, i, n);
    }
    assert forall|y: int| 0 <= y < max_y implies rendered(cells)[#[trigger] picture_index(
        max_x,
        max_x,
        y,
    )] == '\n' by {
        assert(picture_index(max_x, max_x, y) == break_place(max_x, y));
        if y < max_y - 1 {
            assert(shown[break_place(max_x, y)] == '\n');
            lemma_break_place_is_inside(max_x, y, n);
        }
    }
}

} // verus!
