use vstd::prelude::*;

use crate::category::Category;
use crate::grid::{lemma_neighbors_in_bounds, Coord, GridView, Matrix};
use crate::rules::{legal, possibilities};

verus! {

/// The number of legal categories at `c`.
pub open spec fn options(m: GridView, c: Coord) -> nat {
    legal(m, c.x, c.y).len()
}

/// Among `cands`, the one at `k` has legal categories, no candidate with
/// legal categories has fewer, and every earlier candidate has none or more.
pub open spec fn first_fewest(m: GridView, cands: Seq<Coord>, k: int) -> bool {
    &&& 0 <= k < cands.len()
    &&& options(m, cands[k]) > 0
    &&& forall|i: int|
        0 <= i < cands.len() && options(m, #[trigger] cands[i]) > 0 ==> options(m, cands[k])
            <= options(m, cands[i])
    &&& forall|i: int|
        0 <= i < k ==> options(m, #[trigger] cands[i]) == 0 || options(m, cands[k]) < options(
            m,
            cands[i],
        )
}

/// Picks, among the neighbours of `(x, y)` (left, right, up, down), the first
/// one with the fewest legal categories, ignoring those with none. A later
/// neighbour replaces the current pick only when it has strictly fewer.
/// Returns `None` when no neighbour has a legal category.
pub fn pos_neighbors(matrix: &Matrix, x: usize, y: usize) -> (r: Option<Coord>)
    requires
        matrix.wf(),
        x < matrix.width,
        y < matrix.height,
    ensures
        r is None <==> forall|i: int|
            0 <= i < matrix@.neighbor_seq(x, y).len() ==> options(
                matrix@,
                #[trigger] matrix@.neighbor_seq(x, y)[i],
            ) == 0,
        r matches Some(c) ==> exists|k: int|
            first_fewest(matrix@, matrix@.neighbor_seq(x, y), k) && matrix@.neighbor_seq(x, y)[k]
                == c,
{
    let nbrs = matrix.neighbors(x, y);
    proof {
        lemma_neighbors_in_bounds(matrix.width, matrix.height, x, y);
    }
    let ghost s = nbrs@;
    let mut best: Option<usize> = None;
    let mut best_len: usize = 0;
    let mut i: usize = 0;
    while i < nbrs.len()
        invariant
            matrix.wf(),
            s == nbrs@,
            s == matrix@.neighbor_seq(x, y),
            forall|j: int| 0 <= j < s.len() ==> (#[trigger] s[j]).x < matrix.width && s[j].y < matrix.height,
            i <= s.len(),
            best is None ==> forall|j: int| 0 <= j < i ==> options(matrix@, #[trigger] s[j]) == 0,
            best matches Some(k) ==> {
                &&& k < i
                &&& best_len == options(matrix@, s[k as int])
                &&& first_fewest(matrix@, s.take(i as int), k as int)
            },
        decreases s.len() - i,
    {
        let c = nbrs[i];
        let pos = possibilities(matrix, c.x, c.y);
        let n = pos.len();
        proof {
            assert(s.take(i + 1)[i as int] == c);
            assert forall|j: int| 0 <= j < i implies #[trigger] s.take(i + 1)[j] == s.take(i as int)[j] by {}
        }
        if n > 0 && (best.is_none() || n < best_len) {
            best = Some(i);
            best_len = n;
        }
        i = i + 1;
    }
    assert(s.take(s.len() as int) =~= s);
    match best {
        Some(k) => Some(nbrs[k]),
        None => None,
    }
}

/// `a` comes before `b` when the grid is read row by row.
pub open spec fn before(a: Coord, b: Coord) -> bool {
    a.y < b.y || (a.y == b.y && a.x < b.x)
}

/// `c` is on the grid and still undecided.
pub open spec fn open_cell(m: GridView, c: Coord) -> bool {
    c.x < m.width && c.y < m.height && m.cell(c.x as int, c.y as int) == Category::Nada
}

/// `c` is an undecided cell with the fewest legal categories (possibly none),
/// and the first such cell row by row.
pub open spec fn fewest_open(m: GridView, c: Coord) -> bool {
    &&& open_cell(m, c)
    &&& forall|d: Coord| #[trigger] open_cell(m, d) ==> options(m, c) <= options(m, d)
    &&& forall|d: Coord| #[trigger] open_cell(m, d) && before(d, c) ==> options(m, c) < options(m, d)
}

/// Scans the whole grid for the undecided cell with the fewest legal
/// categories, the first one row by row on a tie. Returns `None` when no cell
/// is undecided.
pub fn fewest_open_cell(matrix: &Matrix) -> (r: Option<Coord>)
    requires
        matrix.wf(),
    ensures
        r is None <==> forall|d: Coord| !open_cell(matrix@, d),
        r matches Some(c) ==> fewest_open(matrix@, c),
{
    let mut best: Option<Coord> = None;
    let mut best_len: usize = 0;
    let mut y: usize = 0;
    while y < matrix.height
        invariant
            matrix.wf(),
            y <= matrix.height,
            best is None ==> forall|d: Coord| d.y < y ==> !#[trigger] open_cell(matrix@, d),
            best matches Some(b) ==> {
                &&& b.y < y
                &&& open_cell(matrix@, b)
                &&& best_len == options(matrix@, b)
                &&& forall|d: Coord| #[trigger] open_cell(matrix@, d) && d.y < y ==> options(matrix@, b) <= options(matrix@, d)
                &&& forall|d: Coord| #[trigger] open_cell(matrix@, d) && before(d, b) ==> options(matrix@, b) < options(matrix@, d)
            },
        decreases matrix.height - y,
    {
        let mut x: usize = 0;
        while x < matrix.width
            invariant
                matrix.wf(),
                y < matrix.height,
                x <= matrix.width,
                best is None ==> forall|d: Coord| before(d, Coord { x, y }) ==> !#[trigger] open_cell(matrix@, d),
                best matches Some(b) ==> {
                    &&& before(b, Coord { x, y })
                    &&& open_cell(matrix@, b)
                    &&& best_len == options(matrix@, b)
                    &&& forall|d: Coord| #[trigger] open_cell(matrix@, d) && before(d, Coord { x, y }) ==> options(matrix@, b) <= options(matrix@, d)
                    &&& forall|d: Coord| #[trigger] open_cell(matrix@, d) && before(d, b) ==> options(matrix@, b) < options(matrix@, d)
                },
            decreases matrix.width - x,
        {
            if matrix.get(x, y) == Category::Nada {
                let n = possibilities(matrix, x, y).len();
                if best.is_none() || n < best_len {
                    best = Some(Coord::new(x, y));
                    best_len = n;
                }
            }
            x = x + 1;
        }
        y = y + 1;
    }
    best
}

/// Whether no cell of the grid is undecided.
pub fn is_finished(matrix: &Matrix) -> (r: bool)
    requires
        matrix.wf(),
    ensures
        r == (forall|d: Coord| !open_cell(matrix@, d)),
{
    let mut y: usize = 0;
    while y < matrix.height
        invariant
            matrix.wf(),
            y <= matrix.height,
            forall|d: Coord| d.y < y ==> !#[trigger] open_cell(matrix@, d),
        decreases matrix.height - y,
    {
        let mut x: usize = 0;
        while x < matrix.width
            invariant
                matrix.wf(),
                y < matrix.height,
                x <= matrix.width,
                forall|d: Coord| before(d, Coord { x, y }) ==> !#[trigger] open_cell(matrix@, d),
            decreases matrix.width - x,
        {
            if matrix.get(x, y) == Category::Nada {
                assert(open_cell(matrix@, Coord { x, y }));
                return false;
            }
            x = x + 1;
        }
        y = y + 1;
    }
    true
}

} // verus!
