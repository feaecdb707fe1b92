use vstd::prelude::*;

use crate::category::Category;
use crate::collapse::collapse;
use crate::frontier::{fewest_open_cell, is_finished, open_cell, pos_neighbors};
use crate::grid::{lemma_cell_index, lemma_neighbors_in_bounds, Coord, GridView, Matrix};
use crate::rules::{
    consistent, legal, lemma_legal_terrains, lemma_resolution_keeps_consistent,
    lemma_undecided_cell_has_options,
};

verus! {

/// How a run of the driver ended.
#[derive(Clone, Copy, Debug, PartialEq, Eq, Structural)]
pub enum WfcState {
    /// Every cell holds a terrain kind.
    Finished,
    /// The cell to resolve next had no legal category.
    Contradiction,
}

/// The number of undecided cells in `s`.
pub open spec fn undecided_count(s: Seq<Category>) -> nat
    decreases s.len(),
{
    if s.len() == 0 {
        0
    } else {
        undecided_count(s.drop_last()) + if s.last() == Category::Nada {
            1nat
        } else {
            0nat
        }
    }
}

proof fn lemma_undecided_count_bound(s: Seq<Category>)
    ensures
        undecided_count(s) <= s.len(),
    decreases s.len(),
{
    if s.len() > 0 {
        lemma_undecided_count_bound(s.drop_last());
    }
}

proof fn lemma_undecided_count_update(s: Seq<Category>, i: int, v: Category)
    requires
        0 <= i < s.len(),
        s[i] == Category::Nada,
        v != Category::Nada,
    ensures
        undecided_count(s.update(i, v)) + 1 == undecided_count(s),
    decreases s.len(),
{
    let t = s.update(i, v);
    if i == s.len() - 1 {
        assert(t.drop_last() =~= s.drop_last());
    } else {
        assert(t.drop_last() =~= s.drop_last().update(i, v));
        lemma_undecided_count_update(s.drop_last(), i, v);
    }
}

/// A grid has at most `width * height` undecided cells, and resolving an
/// undecided cell to one of its legal categories leaves exactly one fewer.
/// So the driver stops after at most `width * height` resolutions.
pub proof fn lemma_resolution_decreases(m: GridView, x: usize, y: usize, c: Category)
    requires
        m.cells.len() == m.width * m.height,
        x < m.width,
        y < m.height,
        legal(m, x, y).contains(c),
    ensures
        undecided_count(m.cells) <= m.width * m.height,
        undecided_count(m.cells.update(y * m.width + x, c)) + 1 == undecided_count(m.cells),
{
    lemma_undecided_count_bound(m.cells);
    lemma_cell_index(m.width, m.height, x as int, y as int);
    lemma_legal_terrains(m, x, y);
    lemma_undecided_count_update(m.cells, y * m.width + x, c);
}

/// Resolves cells one after another, starting at `(x, y)`: after each
/// resolution the next cell is the neighbour picked by `pos_neighbors`, or,
/// when no neighbour has a legal category, the cell picked by
/// `fewest_open_cell`. Stops with `Finished` once no cell is undecided, and
/// with `Contradiction` as soon as the cell to resolve has no legal category.
/// Since an undecided cell always has one, that happens exactly when `(x, y)`
/// is already decided, and then the grid is left as it was. Cells decided
/// before the call keep their category, and a consistent grid stays
/// consistent.
pub fn wfc(matrix: &mut Matrix, x: usize, y: usize) -> (r: WfcState)
    requires
        old(matrix).wf(),
        x < old(matrix).width,
        y < old(matrix).height,
    ensures
        final(matrix).wf(),
        final(matrix).width == old(matrix).width,
        final(matrix).height == old(matrix).height,
        forall|i: int|
            0 <= i < old(matrix).data@.len() && old(matrix).data@[i] != Category::Nada
                ==> #[trigger] final(matrix).data@[i] == old(matrix).data@[i],
        consistent(old(matrix)@) ==> consistent(final(matrix)@),
        r == WfcState::Finished ==> forall|d: Coord| !open_cell(final(matrix)@, d),
        r == WfcState::Contradiction <==> old(matrix)@.cell(x as int, y as int) != Category::Nada,
        r == WfcState::Contradiction ==> final(matrix).data@ == old(matrix).data@,
{
    let ghost start = matrix.data@;
    let mut cx: usize = x;
    let mut cy: usize = y;
    loop
        invariant
            matrix.wf(),
            matrix.width == old(matrix).width,
            matrix.height == old(matrix).height,
            cx < matrix.width,
            cy < matrix.height,
            start == old(matrix).data@,
            matrix.data@.len() == start.len(),
            forall|i: int|
                0 <= i < start.len() && start[i] != Category::Nada ==> #[trigger] matrix.data@[i]
                    == start[i],
            consistent(old(matrix)@) ==> consistent(matrix@),
            old(matrix)@.cell(x as int, y as int) != Category::Nada ==> (cx == x && cy == y
                && matrix.data@ == start),
            open_cell(matrix@, Coord { x: cx, y: cy }) || (cx == x && cy == y && matrix.data@
                == start),
        decreases undecided_count(matrix.data@),
    {
        let ghost before = matrix@;
        if !collapse(matrix, cx, cy) {
            proof {
                if before.cell(cx as int, cy as int) == Category::Nada {
                    lemma_undecided_cell_has_options(before, cx, cy);
                }
            }
            return WfcState::Contradiction;
        }
        proof {
            lemma_resolution_decreases(before, cx, cy, matrix@.cell(cx as int, cy as int));
            lemma_cell_index(before.width, before.height, cx as int, cy as int);
            if consistent(old(matrix)@) {
                lemma_resolution_keeps_consistent(before, cx, cy, matrix@.cell(cx as int, cy as int));
                assert(matrix@ == GridView {
                    cells: before.cells.update(cy * before.width + cx, matrix@.cell(cx as int, cy as int)),
                    ..before
                });
            }
        }
        if is_finished(matrix) {
            return WfcState::Finished;
        }
        match pos_neighbors(matrix, cx, cy) {
            Some(c) => {
                proof {
                    lemma_neighbors_in_bounds(matrix.width, matrix.height, cx, cy);
                }
                cx = c.x;
                cy = c.y;
            },
            None => match fewest_open_cell(matrix) {
                Some(c) => {
                    cx = c.x;
                    cy = c.y;
                },
                None => {
                    return WfcState::Finished;
                },
            },
        }
    }
}

} // verus!
