use vstd::prelude::*;

use crate::grid::{lemma_cell_index, Matrix};
use crate::rules::{legal, possibilities};

verus! {

/// Relies on rand's `Rng::gen_range` on the range `0..n`, drawn from
/// `thread_rng()`: the value lies in the range. The call panics only on an
/// empty range, which `requires` leaves out.
#[verifier::external_body]
fn random_below(n: usize) -> (r: usize)
    requires
        n > 0,
    ensures
        r < n,
{
    rand::Rng::gen_range(&mut rand::thread_rng(), 0..n)
}

/// Resolves `(x, y)` to the legal category at position `pick` (modulo the
/// number of legal categories). Returns false, and leaves the grid as it was,
/// when the cell has no legal category.
pub fn collapse_with(matrix: &mut Matrix, x: usize, y: usize, pick: usize) -> (r: bool)
    requires
        old(matrix).wf(),
        x < old(matrix).width,
        y < old(matrix).height,
    ensures
        final(matrix).wf(),
        final(matrix).width == old(matrix).width,
        final(matrix).height == old(matrix).height,
        r == (legal(old(matrix)@, x, y).len() > 0),
        !r ==> final(matrix).data@ == old(matrix).data@,
        r ==> final(matrix).data@ == old(matrix).data@.update(
            y * old(matrix).width + x,
            legal(old(matrix)@, x, y)[(pick as int) % (legal(old(matrix)@, x, y).len() as int)],
        ),
{
    let pos = possibilities(matrix, x, y);
    if pos.len() == 0 {
        return false;
    }
    let c = pos[pick % pos.len()];
    matrix.set(x, y, c);
    true
}

/// Resolves `(x, y)` to one of its legal categories, chosen uniformly at
/// random. Returns false, and leaves the grid as it was, when the cell has no
/// legal category.
pub fn collapse(matrix: &mut Matrix, x: usize, y: usize) -> (r: bool)
    requires
        old(matrix).wf(),
        x < old(matrix).width,
        y < old(matrix).height,
    ensures
        final(matrix).wf(),
        final(matrix).width == old(matrix).width,
        final(matrix).height == old(matrix).height,
        r == (legal(old(matrix)@, x, y).len() > 0),
        !r ==> final(matrix).data@ == old(matrix).data@,
        r ==> legal(old(matrix)@, x, y).contains(final(matrix)@.cell(x as int, y as int)),
        r ==> final(matrix).data@ == old(matrix).data@.update(
            y * old(matrix).width + x,
            final(matrix)@.cell(x as int, y as int),
        ),
{
    let pos = possibilities(matrix, x, y);
    if pos.len() == 0 {
        return false;
    }
    let pick = random_below(pos.len());
    proof {
        lemma_cell_index(matrix.width, matrix.height, x as int, y as int);
    }
    collapse_with(matrix, x, y, pick)
}

} // verus!
