use vstd::prelude::*;

verus! {

/// The value of one cell: `Nada` while it is undecided, else a terrain kind.
#[derive(Clone, Copy, Debug, PartialEq, Eq, Structural)]
pub enum Category {
    Nada,
    Sea,
    Sand,
    Soil,
}

/// The adjacency table. Sea and Soil may not touch; every other pair may.
/// An undecided cell constrains nothing, so it is compatible with everything.
pub open spec fn compatible_spec(a: Category, b: Category) -> bool {
    !((a == Category::Sea && b == Category::Soil) || (a == Category::Soil && b == Category::Sea))
}

/// The terrain kinds a cell may be resolved to, in the order in which the
/// rule evaluator lists them.
pub open spec fn terrains() -> Seq<Category> {
    seq![Category::Sand, Category::Sea, Category::Soil]
}

/// Looks `a` and `b` up in the adjacency table.
pub fn compatible(a: Category, b: Category) -> (r: bool)
    ensures
        r == compatible_spec(a, b),
{
    match (a, b) {
        (Category::Sea, Category::Soil) => false,
        (Category::Soil, Category::Sea) => false,
        _ => true,
    }
}

/// The `i`-th terrain kind of `terrains()`.
pub fn terrain(i: usize) -> (r: Category)
    requires
        i < terrains().len(),
    ensures
        r == terrains()[i as int],
{
    if i == 0 {
        Category::Sand
    } else if i == 1 {
        Category::Sea
    } else {
        Category::Soil
    }
}

/// The adjacency table is symmetric.
pub proof fn lemma_compatible_symmetric(a: Category, b: Category)
    ensures
        compatible_spec(a, b) == compatible_spec(b, a),
{
}

} // verus!
