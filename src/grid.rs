use vstd::prelude::*;

use crate::category::Category;

verus! {

/// A cell position: column `x`, row `y`.
#[derive(Clone, Copy, Debug, PartialEq, Eq, Structural)]
pub struct Coord {
    pub x: usize,
    pub y: usize,
}

impl Coord {
    pub fn new(x: usize, y: usize) -> (r: Coord)
        ensures
            r.x == x,
            r.y == y,
    {
        Coord { x, y }
    }
}

/// A `width` by `height` grid of categories, stored row after row.
#[derive(Clone, Debug, PartialEq, Eq)]
pub struct Matrix {
    pub width: usize,
    pub height: usize,
    pub data: Vec<Category>,
}

/// The up to four in-bounds neighbours of `(x, y)` on a `w` by `h` grid,
/// in the order left, right, up, down.
pub open spec fn neighbor_coords(w: usize, h: usize, x: usize, y: usize) -> Seq<Coord> {
    (if x > 0 { seq![Coord { x: (x - 1) as usize, y }] } else { seq![] })
        + (if x + 1 < w { seq![Coord { x: (x + 1) as usize, y }] } else { seq![] })
        + (if y > 0 { seq![Coord { x, y: (y - 1) as usize }] } else { seq![] })
        + (if y + 1 < h { seq![Coord { x, y: (y + 1) as usize }] } else { seq![] })
}

pub proof fn lemma_cell_index(w: usize, h: usize, x: int, y: int)
    requires
        0 <= x < w,
        0 <= y < h,
    ensures
        0 <= y * w,
        0 <= y * w + x < w * h,
{
    assert(0 <= y * w && y * w + x < w * h) by (nonlinear_arith)
        requires
            0 <= x < w,
            0 <= y < h,
    ;
}

/// Every neighbour lies on the grid.
pub proof fn lemma_neighbors_in_bounds(w: usize, h: usize, x: usize, y: usize)
    requires
        x < w,
        y < h,
    ensures
        forall|i: int|
            0 <= i < neighbor_coords(w, h, x, y).len() ==> (#[trigger] neighbor_coords(w, h, x, y)[i]).x
                < w && neighbor_coords(w, h, x, y)[i].y < h,
{
    let a = if x > 0 { seq![Coord { x: (x - 1) as usize, y }] } else { seq![] };
    let b = if x + 1 < w { seq![Coord { x: (x + 1) as usize, y }] } else { seq![] };
    let c = if y > 0 { seq![Coord { x, y: (y - 1) as usize }] } else { seq![] };
    let d = if y + 1 < h { seq![Coord { x, y: (y + 1) as usize }] } else { seq![] };
    let s = a + b + c + d;
    assert forall|i: int| 0 <= i < s.len() implies s[i].x < w && s[i].y < h by {
        if i < a.len() {
            assert(s[i] == a[i]);
        } else if i < a.len() + b.len() {
            assert(s[i] == b[i - a.len()]);
        } else if i < a.len() + b.len() + c.len() {
            assert(s[i] == c[i - a.len() - b.len()]);
        } else {
            assert(s[i] == d[i - a.len() - b.len() - c.len()]);
        }
    }
}

/// The mathematical grid: its dimensions and its cells, row after row.
pub struct GridView {
    pub width: usize,
    pub height: usize,
    pub cells: Seq<Category>,
}

impl GridView {
    pub open spec fn in_bounds(&self, x: int, y: int) -> bool {
        0 <= x < self.width && 0 <= y < self.height
    }

    /// The category stored at `(x, y)`.
    pub open spec fn cell(&self, x: int, y: int) -> Category {
        self.cells[y * self.width + x]
    }

    pub open spec fn neighbor_seq(&self, x: usize, y: usize) -> Seq<Coord> {
        neighbor_coords(self.width, self.height, x, y)
    }
}

impl View for Matrix {
    type V = GridView;

    open spec fn view(&self) -> GridView {
        GridView { width: self.width, height: self.height, cells: self.data@ }
    }
}

/// `p` and `q` are next to each other, horizontally or vertically.
pub open spec fn adjacent(p: Coord, q: Coord) -> bool {
    (p.y == q.y && (p.x + 1 == q.x || q.x + 1 == p.x)) || (p.x == q.x && (p.y + 1 == q.y || q.y
        + 1 == p.y))
}

/// The neighbours listed for `p` are exactly the cells of the grid adjacent
/// to it.
pub proof fn lemma_neighbors_adjacent(w: usize, h: usize, p: Coord, q: Coord)
    requires
        p.x < w,
        p.y < h,
        q.x < w,
        q.y < h,
    ensures
        neighbor_coords(w, h, p.x, p.y).contains(q) <==> adjacent(p, q),
{
    let x = p.x;
    let y = p.y;
    let a = if x > 0 { seq![Coord { x: (x - 1) as usize, y }] } else { seq![] };
    let b = if x + 1 < w { seq![Coord { x: (x + 1) as usize, y }] } else { seq![] };
    let c = if y > 0 { seq![Coord { x, y: (y - 1) as usize }] } else { seq![] };
    let d = if y + 1 < h { seq![Coord { x, y: (y + 1) as usize }] } else { seq![] };
    let s = a + b + c + d;
    assert(s == neighbor_coords(w, h, x, y));
    if s.contains(q) {
        let i = choose|i: int| 0 <= i < s.len() && s[i] == q;
        if i < a.len() {
            assert(s[i] == a[i]);
        } else if i < a.len() + b.len() {
            assert(s[i] == b[i - a.len()]);
        } else if i < a.len() + b.len() + c.len() {
            assert(s[i] == c[i - a.len() - b.len()]);
        } else {
            assert(s[i] == d[i - a.len() - b.len() - c.len()]);
        }
    }
    if adjacent(p, q) {
        if q.y == y && q.x + 1 == x {
            assert(s[0] == q);
        } else if q.y == y && x + 1 == q.x {
            assert(s[a.len() as int] == q);
        } else if q.x == x && q.y + 1 == y {
            assert(s[(a.len() + b.len()) as int] == q);
        } else {
            assert(s[(a.len() + b.len() + c.len()) as int] == q);
        }
    }
}

/// Distinct cells are stored at distinct places of the buffer.
pub proof fn lemma_cell_index_injective(w: usize, h: usize, p: Coord, q: Coord)
    requires
        p.x < w,
        p.y < h,
        q.x < w,
        q.y < h,
        p.y * w + p.x == q.y * w + q.x,
    ensures
        p == q,
{
    let (px, py, qx, qy) = (p.x as int, p.y as int, q.x as int, q.y as int);
    assert(py == qy) by (nonlinear_arith)
        requires
            0 <= px < w,
            0 <= qx < w,
            0 <= py,
            0 <= qy,
            py * w + px == qy * w + qx,
    {
        if py < qy {
            assert(py * w + w <= qy * w);
        } else if qy < py {
            assert(qy * w + w <= py * w);
        }
    }
}

impl Matrix {
    /// The buffer holds exactly one category per cell.
    pub open spec fn wf(&self) -> bool {
        self.data@.len() == self.width * self.height
    }

    /// A grid of `width` by `height` cells, each holding `default_value`.
    pub fn new(width: usize, height: usize, default_value: Category) -> (r: Matrix)
        requires
            width * height <= usize::MAX,
        ensures
            r.wf(),
            r.width == width,
            r.height == height,
            forall|i: int| 0 <= i < r.data@.len() ==> r.data@[i] == default_value,
    {
        let n: usize = width * height;
        let mut data: Vec<Category> = Vec::new();
        let mut i: usize = 0;
        while i < n
            invariant
                i <= n,
                data@.len() == i,
                forall|j: int| 0 <= j < i ==> data@[j] == default_value,
            decreases n - i,
        {
            data.push(default_value);
            i = i + 1;
        }
        Matrix { width, height, data }
    }

    pub fn get(&self, x: usize, y: usize) -> (r: Category)
        requires
            self.wf(),
            x < self.width,
            y < self.height,
        ensures
            r == self@.cell(x as int, y as int),
    {
        // The buffer's length fits in a usize and bounds the index.
        let len: usize = self.data.len();
        proof {
            lemma_cell_index(self.width, self.height, x as int, y as int);
        }
        self.data[y * self.width + x]
    }

    /// Overwrites the category at `(x, y)`; every other cell is kept.
    pub fn set(&mut self, x: usize, y: usize, v: Category)
        requires
            old(self).wf(),
            x < old(self).width,
            y < old(self).height,
        ensures
            final(self).wf(),
            final(self).width == old(self).width,
            final(self).height == old(self).height,
            final(self).data@ == old(self).data@.update(y * old(self).width + x, v),
    {
        // The buffer's length fits in a usize and bounds the index.
        let len: usize = self.data.len();
        proof {
            lemma_cell_index(self.width, self.height, x as int, y as int);
        }
        let i: usize = y * self.width + x;
        self.data.set(i, v);
    }

    /// The in-bounds neighbours of `(x, y)`: left, right, up, down.
    pub fn neighbors(&self, x: usize, y: usize) -> (r: Vec<Coord>)
        requires
            x < self.width,
            y < self.height,
        ensures
            r@ == self@.neighbor_seq(x, y),
    {
        let mut out: Vec<Coord> = Vec::new();
        let ghost w = self.width;
        let ghost h = self.height;
        if x > 0 {
            out.push(Coord::new(x - 1, y));
        }
        assert(out@ =~= (if x > 0 { seq![Coord { x: (x - 1) as usize, y }] } else { seq![] }));
        let ghost a = out@;
        if x + 1 < self.width {
            out.push(Coord::new(x + 1, y));
        }
        assert(out@ =~= a + (if x + 1 < w { seq![Coord { x: (x + 1) as usize, y }] } else { seq![] }));
        let ghost b = out@;
        if y > 0 {
            out.push(Coord::new(x, y - 1));
        }
        assert(out@ =~= b + (if y > 0 { seq![Coord { x, y: (y - 1) as usize }] } else { seq![] }));
        let ghost c = out@;
        if y + 1 < self.height {
            out.push(Coord::new(x, y + 1));
        }
        assert(out@ =~= c + (if y + 1 < h { seq![Coord { x, y: (y + 1) as usize }] } else { seq![] }));
        out
    }

    /// The categories of the in-bounds neighbours of `(x, y)`, in the order of
    /// `neighbors`.
    pub fn neighbors_value(&self, x: usize, y: usize) -> (r: Vec<Category>)
        requires
            self.wf(),
            x < self.width,
            y < self.height,
        ensures
            r@.len() == self@.neighbor_seq(x, y).len(),
            forall|i: int|
                0 <= i < r@.len() ==> r@[i] == self@.cell(
                    #[trigger] self@.neighbor_seq(x, y)[i].x as int,
                    self@.neighbor_seq(x, y)[i].y as int,
                ),
    {
        let coords = self.neighbors(x, y);
        let mut out: Vec<Category> = Vec::new();
        let mut i: usize = 0;
        while i < coords.len()
            invariant
                self.wf(),
                coords@ == self@.neighbor_seq(x, y),
                x < self.width,
                y < self.height,
                i <= coords@.len(),
                out@.len() == i,
                forall|j: int|
                    0 <= j < i ==> out@[j] == self@.cell(
                        #[trigger] coords@[j].x as int,
                        coords@[j].y as int,
                    ),
            decreases coords@.len() - i,
        {
            let c = coords[i];
            out.push(self.get(c.x, c.y));
            i = i + 1;
        }
        out
    }
}

} // verus!
