//! Geometry and counting over a board laid out as a flat sequence.
//!
//! A board has `dim` columns, `dim` rows and `layers` layers (one layer for a
//! flat board, `dim` for a cube). The cell at column `x`, row `y` and layer `z`
//! is stored at `x + dim * (y + dim * z)`.
use vstd::prelude::*;
use vstd::arithmetic::div_mod::lemma_fundamental_div_mod_converse;

verus! {

/// A grid position: column, row and layer.
#[derive(PartialEq, Eq, Structural, Copy, Clone, Debug)]
pub struct Coord {
    pub x: usize,
    pub y: usize,
    pub z: usize,
}

pub open spec fn in_grid(dim: int, layers: int, x: int, y: int, z: int) -> bool {
    0 <= x < dim && 0 <= y < dim && 0 <= z < layers
}

pub open spec fn coord_in_grid(dim: int, layers: int, c: Coord) -> bool {
    in_grid(dim, layers, c.x as int, c.y as int, c.z as int)
}

pub open spec fn index_of(dim: int, x: int, y: int, z: int) -> int {
    x + dim * (y + dim * z)
}

pub open spec fn coord_index(dim: int, c: Coord) -> int {
    index_of(dim, c.x as int, c.y as int, c.z as int)
}

/// The grid position stored at flat index `i`.
pub open spec fn coord_of(dim: int, i: int) -> Coord {
    Coord { x: (i % dim) as usize, y: ((i / dim) % dim) as usize, z: (i / dim / dim) as usize }
}

/// Storing and finding a grid position agree.
pub proof fn lemma_coord_of_index(dim: int, layers: int, c: Coord)
    requires
        coord_in_grid(dim, layers, c),
    ensures
        coord_of(dim, coord_index(dim, c)) == c,
{
    let w = c.y + dim * c.z;
    lemma_fundamental_div_mod_converse(coord_index(dim, c), dim, w, c.x as int);
    assert(w == c.z * dim + c.y) by (nonlinear_arith)
        requires
            w == c.y + dim * c.z,
    ;
    lemma_fundamental_div_mod_converse(w, dim, c.z as int, c.y as int);
}

/// The Moore neighbourhood: every other position at most one step away on
/// each axis.
pub open spec fn adjacent(a: Coord, b: Coord) -> bool {
    &&& a != b
    &&& a.x <= b.x + 1 && b.x <= a.x + 1
    &&& a.y <= b.y + 1 && b.y <= a.y + 1
    &&& a.z <= b.z + 1 && b.z <= a.z + 1
}

/// Whether a bomb lies at a position; positions off the grid hold none.
pub open spec fn bomb_at(dim: int, layers: int, bombs: Seq<bool>, x: int, y: int, z: int) -> int {
    if in_grid(dim, layers, x, y, z) && bombs[index_of(dim, x, y, z)] {
        1
    } else {
        0
    }
}

pub open spec fn row_bombs(dim: int, layers: int, bombs: Seq<bool>, x: int, y: int, z: int) -> int {
    bomb_at(dim, layers, bombs, x - 1, y, z) + bomb_at(dim, layers, bombs, x, y, z) + bomb_at(
        dim,
        layers,
        bombs,
        x + 1,
        y,
        z,
    )
}

pub open spec fn plane_bombs(dim: int, layers: int, bombs: Seq<bool>, x: int, y: int, z: int) -> int {
    row_bombs(dim, layers, bombs, x, y - 1, z) + row_bombs(dim, layers, bombs, x, y, z) + row_bombs(
        dim,
        layers,
        bombs,
        x,
        y + 1,
        z,
    )
}

/// Bombs in the 3x3x3 box centred on a position, the position included.
pub open spec fn box_bombs(dim: int, layers: int, bombs: Seq<bool>, x: int, y: int, z: int) -> int {
    plane_bombs(dim, layers, bombs, x, y, z - 1) + plane_bombs(dim, layers, bombs, x, y, z)
        + plane_bombs(dim, layers, bombs, x, y, z + 1)
}

/// Bombs among the neighbours of a position.
pub open spec fn neighbor_bombs(dim: int, layers: int, bombs: Seq<bool>, c: Coord) -> int {
    box_bombs(dim, layers, bombs, c.x as int, c.y as int, c.z as int) - bomb_at(
        dim,
        layers,
        bombs,
        c.x as int,
        c.y as int,
        c.z as int,
    )
}

/// How many entries of a sequence are set.
pub open spec fn count_true(s: Seq<bool>) -> nat
    decreases s.len(),
{
    if s.len() == 0 {
        0
    } else {
        count_true(s.drop_last()) + if s.last() {
            1nat
        } else {
            0nat
        }
    }
}

pub proof fn lemma_count_true_bound(s: Seq<bool>)
    ensures
        count_true(s) <= s.len(),
    decreases s.len(),
{
    if s.len() > 0 {
        lemma_count_true_bound(s.drop_last());
    }
}

/// Setting one entry changes the count by what that entry was and becomes.
pub proof fn lemma_count_true_update(s: Seq<bool>, i: int, b: bool)
    requires
        0 <= i < s.len(),
    ensures
        count_true(s.update(i, b)) + (if s[i] {
            1int
        } else {
            0int
        }) == count_true(s) + (if b {
            1int
        } else {
            0int
        }),
    decreases s.len(),
{
    let t = s.update(i, b);
    if i == s.len() - 1 {
        assert(t.drop_last() =~= s.drop_last());
    } else {
        assert(t.drop_last() =~= s.drop_last().update(i, b));
        lemma_count_true_update(s.drop_last(), i, b);
    }
}

/// A sequence with every entry set counts its full length.
pub proof fn lemma_count_true_all(s: Seq<bool>)
    requires
        forall|i: int| 0 <= i < s.len() ==> s[i],
    ensures
        count_true(s) == s.len(),
    decreases s.len(),
{
    if s.len() > 0 {
        lemma_count_true_all(s.drop_last());
    }
}

/// A sequence with no entry set counts zero.
pub proof fn lemma_count_true_none(s: Seq<bool>)
    requires
        forall|i: int| 0 <= i < s.len() ==> !s[i],
    ensures
        count_true(s) == 0,
    decreases s.len(),
{
    if s.len() > 0 {
        lemma_count_true_none(s.drop_last());
    }
}

/// The flat index of a position on the grid lies inside the board.
pub proof fn lemma_index_bounds(dim: int, layers: int, x: int, y: int, z: int)
    requires
        in_grid(dim, layers, x, y, z),
    ensures
        0 <= y + dim * z < dim * layers,
        dim * layers <= dim * dim * layers,
        0 <= dim * (y + dim * z) <= dim * (dim * layers) - dim,
        0 <= index_of(dim, x, y, z) < dim * dim * layers,
{
    assert(0 <= dim * z <= dim * (layers - 1)) by (nonlinear_arith)
        requires
            0 <= z < layers,
            0 < dim,
    ;
    assert(dim * (layers - 1) == dim * layers - dim) by (nonlinear_arith);
    let w = y + dim * z;
    assert(0 <= dim * w <= dim * (dim * layers - 1)) by (nonlinear_arith)
        requires
            0 <= w < dim * layers,
            0 < dim,
    ;
    assert(dim * (dim * layers - 1) == dim * (dim * layers) - dim) by (nonlinear_arith);
    assert(dim * (dim * layers) == dim * dim * layers) by (nonlinear_arith);
    assert(dim * layers <= dim * (dim * layers)) by (nonlinear_arith)
        requires
            0 < dim,
            0 < layers,
    ;
}

/// Distinct positions on the grid have distinct flat indices.
pub proof fn lemma_index_injective(dim: int, layers: int, a: Coord, b: Coord)
    requires
        coord_in_grid(dim, layers, a),
        coord_in_grid(dim, layers, b),
        coord_index(dim, a) == coord_index(dim, b),
    ensures
        a == b,
{
    let (ax, ay, az) = (a.x as int, a.y as int, a.z as int);
    let (bx, by, bz) = (b.x as int, b.y as int, b.z as int);
    let wa = ay + dim * az;
    let wb = by + dim * bz;
    assert(ax == bx && wa == wb) by (nonlinear_arith)
        requires
            ax + dim * wa == bx + dim * wb,
            0 <= ax < dim,
            0 <= bx < dim,
            0 <= wa,
            0 <= wb,
    ;
    assert(ay == by && az == bz) by (nonlinear_arith)
        requires
            ay + dim * az == by + dim * bz,
            0 <= ay < dim,
            0 <= by < dim,
            0 <= az,
            0 <= bz,
    ;
}

} // verus!
