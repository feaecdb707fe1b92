use vstd::prelude::*;

use crate::category::{compatible, compatible_spec, terrain, terrains, Category};
use crate::category::lemma_compatible_symmetric;
use crate::grid::{
    adjacent, lemma_cell_index, lemma_cell_index_injective, lemma_neighbors_adjacent, Coord,
    GridView, Matrix,
};

verus! {

/// `c` is compatible with every neighbour of `(x, y)`. Undecided neighbours
/// never forbid anything.
pub open spec fn allowed(m: GridView, x: usize, y: usize, c: Category) -> bool {
    forall|i: int|
        0 <= i < m.neighbor_seq(x, y).len() ==> compatible_spec(
            c,
            m.cell(
                #[trigger] m.neighbor_seq(x, y)[i].x as int,
                m.neighbor_seq(x, y)[i].y as int,
            ),
        )
}

/// The categories that may be placed at `(x, y)`: none if the cell is
/// already decided, else the terrain kinds that every neighbour allows.
pub open spec fn legal(m: GridView, x: usize, y: usize) -> Seq<Category> {
    if m.cell(x as int, y as int) != Category::Nada {
        seq![]
    } else {
        terrains().filter(|c: Category| allowed(m, x, y, c))
    }
}

/// Whether `c` is compatible with each of `vals`.
fn fits_all(vals: &Vec<Category>, c: Category) -> (r: bool)
    ensures
        r == (forall|i: int| 0 <= i < vals@.len() ==> compatible_spec(c, #[trigger] vals@[i])),
{
    let mut i: usize = 0;
    while i < vals.len()
        invariant
            i <= vals@.len(),
            forall|j: int| 0 <= j < i ==> compatible_spec(c, #[trigger] vals@[j]),
        decreases vals@.len() - i,
    {
        if !compatible(c, vals[i]) {
            return false;
        }
        i = i + 1;
    }
    true
}

/// The categories that may legally be placed at `(x, y)`, in the order
/// Sand, Sea, Soil. An already decided cell has none.
pub fn possibilities(matrix: &Matrix, x: usize, y: usize) -> (r: Vec<Category>)
    requires
        matrix.wf(),
        x < matrix.width,
        y < matrix.height,
    ensures
        r@ == legal(matrix@, x, y),
{
    if matrix.get(x, y) != Category::Nada {
        return Vec::new();
    }
    let vals = matrix.neighbors_value(x, y);
    let ghost pred = |c: Category| allowed(matrix@, x, y, c);
    let mut pos: Vec<Category> = Vec::new();
    let mut i: usize = 0;
    while i < 3
        invariant
            matrix.wf(),
            x < matrix.width,
            y < matrix.height,
            i <= 3,
            vals@.len() == matrix@.neighbor_seq(x, y).len(),
            forall|k: int|
                0 <= k < vals@.len() ==> vals@[k] == matrix@.cell(
                    #[trigger] matrix@.neighbor_seq(x, y)[k].x as int,
                    matrix@.neighbor_seq(x, y)[k].y as int,
                ),
            pred == (|c: Category| allowed(matrix@, x, y, c)),
            pos@ == terrains().take(i as int).filter(pred),
        decreases 3 - i,
    {
        let c = terrain(i);
        let ok = fits_all(&vals, c);
        proof {
            if ok {
                assert forall|k: int| 0 <= k < matrix@.neighbor_seq(x, y).len() implies
                    compatible_spec(
                        c,
                        matrix@.cell(
                            #[trigger] matrix@.neighbor_seq(x, y)[k].x as int,
                            matrix@.neighbor_seq(x, y)[k].y as int,
                        ),
                    ) by {
                    assert(compatible_spec(c, vals@[k]));
                }
                assert(allowed(matrix@, x, y, c));
            } else {
                let k = choose|k: int| 0 <= k < vals@.len() && !compatible_spec(c, #[trigger] vals@[k]);
                let n = matrix@.neighbor_seq(x, y)[k];
                assert(vals@[k] == matrix@.cell(n.x as int, n.y as int));
                assert(!allowed(matrix@, x, y, c));
            }
            let t = terrains().take(i + 1);
            assert(t.drop_last() =~= terrains().take(i as int));
            assert(t.last() == c);
            reveal(Seq::filter);
            assert(pred(c) == ok);
            assert(t.filter(pred) == (if ok {
                terrains().take(i as int).filter(pred).push(c)
            } else {
                terrains().take(i as int).filter(pred)
            }));
        }
        if ok {
            pos.push(c);
        }
        i = i + 1;
    }
    assert(terrains().take(3) =~= terrains());
    pos
}

/// An already decided cell offers no legal category.
pub proof fn lemma_decided_cell_has_no_options(m: GridView, x: usize, y: usize)
    requires
        m.cell(x as int, y as int) != Category::Nada,
    ensures
        legal(m, x, y) == Seq::<Category>::empty(),
{
}

/// Every legal category at a cell is compatible with the category of each
/// decided neighbour of that cell.
pub proof fn lemma_legal_fits_neighbors(m: GridView, x: usize, y: usize, i: int, j: int)
    requires
        0 <= i < legal(m, x, y).len(),
        0 <= j < m.neighbor_seq(x, y).len(),
        m.cell(m.neighbor_seq(x, y)[j].x as int, m.neighbor_seq(x, y)[j].y as int)
            != Category::Nada,
    ensures
        compatible_spec(
            legal(m, x, y)[i],
            m.cell(m.neighbor_seq(x, y)[j].x as int, m.neighbor_seq(x, y)[j].y as int),
        ),
{
    let pred = |c: Category| allowed(m, x, y, c);
    terrains().lemma_filter_pred(pred, i);
}

/// Every legal category is a terrain kind, never the undecided marker, and
/// appears once.
pub proof fn lemma_legal_terrains(m: GridView, x: usize, y: usize)
    ensures
        legal(m, x, y).len() <= 3,
        forall|i: int| 0 <= i < legal(m, x, y).len() ==> #[trigger] legal(m, x, y)[i] != Category::Nada,
        legal(m, x, y).no_duplicates(),
{
    let pred = |c: Category| allowed(m, x, y, c);
    if m.cell(x as int, y as int) == Category::Nada {
        reveal_with_fuel(Seq::filter, 4);
        let t = terrains();
        assert(t.drop_last() =~= seq![Category::Sand, Category::Sea]);
        assert(t.drop_last().drop_last() =~= seq![Category::Sand]);
        assert(t.drop_last().drop_last().drop_last() =~= Seq::<Category>::empty());
    }
}

/// Every two adjacent decided cells hold compatible categories.
pub open spec fn consistent(g: GridView) -> bool {
    forall|p: Coord, q: Coord|
        #[trigger] adjacent(p, q) && g.in_bounds(p.x as int, p.y as int) && g.in_bounds(
            q.x as int,
            q.y as int,
        ) && g.cell(p.x as int, p.y as int) != Category::Nada && g.cell(q.x as int, q.y as int)
            != Category::Nada ==> compatible_spec(
            g.cell(p.x as int, p.y as int),
            g.cell(q.x as int, q.y as int),
        )
}

/// A grid in which no cell is decided is consistent.
pub proof fn lemma_undecided_grid_consistent(g: GridView)
    requires
        forall|i: int| 0 <= i < g.cells.len() ==> g.cells[i] == Category::Nada,
        g.cells.len() == g.width * g.height,
    ensures
        consistent(g),
{
    assert forall|p: Coord, q: Coord|
        #[trigger] adjacent(p, q) && g.in_bounds(p.x as int, p.y as int) && g.in_bounds(
            q.x as int,
            q.y as int,
        ) implies g.cell(p.x as int, p.y as int) == Category::Nada by {
        lemma_cell_index(g.width, g.height, p.x as int, p.y as int);
    }
}

/// Writing one of its legal categories into a cell keeps a consistent grid
/// consistent.
pub proof fn lemma_resolution_keeps_consistent(g: GridView, x: usize, y: usize, c: Category)
    requires
        g.cells.len() == g.width * g.height,
        x < g.width,
        y < g.height,
        consistent(g),
        legal(g, x, y).contains(c),
    ensures
        consistent(GridView { cells: g.cells.update(y * g.width + x, c), ..g }),
{
    let g2 = GridView { cells: g.cells.update(y * g.width + x, c), ..g };
    let t = Coord { x, y };
    let w = g.width;
    let h = g.height;
    let k = choose|k: int| 0 <= k < legal(g, x, y).len() && legal(g, x, y)[k] == c;
    let pred = |d: Category| allowed(g, x, y, d);
    terrains().lemma_filter_pred(pred, k);
    assert(allowed(g, x, y, c));
    lemma_cell_index(w, h, x as int, y as int);
    assert forall|p: Coord, q: Coord|
        #[trigger] adjacent(p, q) && g2.in_bounds(p.x as int, p.y as int) && g2.in_bounds(
            q.x as int,
            q.y as int,
        ) && g2.cell(p.x as int, p.y as int) != Category::Nada && g2.cell(q.x as int, q.y as int)
            != Category::Nada implies compatible_spec(
        g2.cell(p.x as int, p.y as int),
        g2.cell(q.x as int, q.y as int),
    ) by {
        lemma_cell_index(w, h, p.x as int, p.y as int);
        lemma_cell_index(w, h, q.x as int, q.y as int);
        if p.y * w + p.x == y * w + x {
            lemma_cell_index_injective(w, h, p, t);
        }
        if q.y * w + q.x == y * w + x {
            lemma_cell_index_injective(w, h, q, t);
        }
        if p == t {
            lemma_neighbors_adjacent(w, h, t, q);
            let j = choose|j: int| 0 <= j < g.neighbor_seq(x, y).len() && g.neighbor_seq(x, y)[j] == q;
            assert(g.neighbor_seq(x, y)[j].x == q.x);
        } else if q == t {
            assert(adjacent(t, p));
            lemma_neighbors_adjacent(w, h, t, p);
            let j = choose|j: int| 0 <= j < g.neighbor_seq(x, y).len() && g.neighbor_seq(x, y)[j] == p;
            assert(g.neighbor_seq(x, y)[j].x == p.x);
            lemma_compatible_symmetric(c, g.cell(p.x as int, p.y as int));
        }
    }
}

/// Sand is compatible with everything, so an undecided cell always has at
/// least one legal category.
pub proof fn lemma_undecided_cell_has_options(g: GridView, x: usize, y: usize)
    requires
        g.cell(x as int, y as int) == Category::Nada,
    ensures
        legal(g, x, y).contains(Category::Sand),
{
    let pred = |d: Category| allowed(g, x, y, d);
    assert(pred(terrains()[0]));
    terrains().lemma_filter_contains(pred, 0);
}

} // verus!
