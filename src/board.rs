//! The minesweeper board: a grid of cells with bombs and the numbers that
//! count them, generation, lookup by world position, and the reveal cascade.
use vstd::prelude::*;
use vstd::arithmetic::div_mod::lemma_fundamental_div_mod_converse;
use crate::random::gen_ratio;
use crate::common::{appearance, get_num_color, BlockKind, BlockPos, Cell, CellContent, CellState, SoundKind, WorldEffect};
use crate::grid::{
    adjacent, bomb_at, coord_in_grid, in_grid, coord_of, lemma_coord_of_index, coord_index, count_true, index_of,
    lemma_count_true_all, lemma_count_true_none, lemma_count_true_update, lemma_index_bounds, lemma_index_injective, neighbor_bombs,
    plane_bombs, row_bombs, Coord,
};

verus! {

/// A square (one layer) or cubic board of cells.
pub struct Board {
    dim: usize,
    layers: usize,
    spacing: i32,
    anchor: BlockPos,
    cells: Vec<Cell>,
}

/// The mathematical picture of a board.
pub struct BoardView {
    /// Columns and rows.
    pub dim: int,
    /// Layers: one for a flat board, `dim` for a cube.
    pub layers: int,
    /// World distance between neighbouring cells.
    pub spacing: int,
    /// World position of the cell at column, row and layer zero.
    pub anchor: BlockPos,
    /// The cells, laid out as `grid` describes.
    pub cells: Seq<Cell>,
}

/// Whether a board of this shape placed at `anchor` stays inside the world's
/// coordinate range.
pub open spec fn shape_fits(dim: int, layers: int, spacing: int, anchor: BlockPos) -> bool {
    &&& 0 < dim
    &&& 0 < layers
    &&& spacing == 1 || spacing == 3
    &&& anchor.x + spacing * (dim - 1) <= i32::MAX
    &&& anchor.y + spacing * (layers - 1) <= i32::MAX
    &&& anchor.z + spacing * (dim - 1) <= i32::MAX
}

/// World position of a grid position: columns run along x, rows along z and
/// layers upwards along y.
pub open spec fn world_pos(spacing: int, anchor: BlockPos, c: Coord) -> BlockPos {
    BlockPos {
        x: (anchor.x + spacing * c.x) as i32,
        y: (anchor.y + spacing * c.z) as i32,
        z: (anchor.z + spacing * c.y) as i32,
    }
}

/// The content that the bombs of a layout give to a position.
pub open spec fn content_for(dim: int, layers: int, bombs: Seq<bool>, c: Coord) -> CellContent {
    if bombs[coord_index(dim, c)] {
        CellContent::Bomb
    } else if neighbor_bombs(dim, layers, bombs, c) == 0 {
        CellContent::Empty
    } else {
        CellContent::Number(neighbor_bombs(dim, layers, bombs, c) as u8)
    }
}

impl BoardView {
    pub open spec fn total(self) -> int {
        self.dim * self.dim * self.layers
    }

    pub open spec fn contains(self, c: Coord) -> bool {
        coord_in_grid(self.dim, self.layers, c)
    }

    pub open spec fn index(self, c: Coord) -> int {
        coord_index(self.dim, c)
    }

    pub open spec fn cell(self, c: Coord) -> Cell {
        self.cells[self.index(c)]
    }

    pub open spec fn pos_of(self, c: Coord) -> BlockPos {
        world_pos(self.spacing, self.anchor, c)
    }

    /// Which cells hold a bomb.
    pub open spec fn bombs(self) -> Seq<bool> {
        Seq::new(self.cells.len(), |i: int| self.cells[i].content is Bomb)
    }

    /// How many cells hold a bomb.
    pub open spec fn bomb_total(self) -> nat {
        count_true(self.bombs())
    }

    /// The state of each cell.
    pub open spec fn states(self) -> Seq<CellState> {
        Seq::new(self.cells.len(), |i: int| self.cells[i].state)
    }

    /// The world position of each cell.
    pub open spec fn footprint(self) -> Seq<BlockPos> {
        Seq::new(self.cells.len(), |i: int| self.cells[i].pos)
    }

    /// Which cells are closed.
    pub open spec fn closed(self) -> Seq<bool> {
        Seq::new(self.cells.len(), |i: int| self.cells[i].state is Closed)
    }

    pub open spec fn all_closed(self) -> bool {
        forall|i: int| 0 <= i < self.cells.len() ==> self.cells[i].state is Closed
    }

    /// Every cell without a bomb is open.
    pub open spec fn all_safe_opened(self) -> bool {
        forall|i: int|
            0 <= i < self.cells.len() ==> (self.cells[i].state is Opened
                || self.cells[i].content is Bomb)
    }

    /// Every safe cell shows exactly how many of its neighbours hold a bomb.
    #[verifier::opaque]
    pub open spec fn numbers_correct(self) -> bool {
        forall|c: Coord|
            #![trigger self.cell(c)]
            self.contains(c) ==> self.cell(c).content == content_for(
                self.dim,
                self.layers,
                self.bombs(),
                c,
            )
    }

    pub open spec fn positions_correct(self) -> bool {
        forall|c: Coord| #![trigger self.cell(c)] self.contains(c) ==> self.cell(c).pos == self.pos_of(c)
    }

    /// Each stored cell sits at the world position of its grid position.
    pub open spec fn stored_positions_correct(self) -> bool {
        forall|i: int|
            #![trigger self.cells[i]]
            0 <= i < self.cells.len() ==> self.cells[i].pos == self.pos_of(coord_of(self.dim, i))
    }

    pub open spec fn wf(self) -> bool {
        &&& shape_fits(self.dim, self.layers, self.spacing, self.anchor)
        &&& self.cells.len() == self.total()
        &&& self.positions_correct()
        &&& self.stored_positions_correct()
        &&& self.numbers_correct()
    }

    /// Same shape, place and contents; only the states may differ.
    pub open spec fn same_layout(self, other: BoardView) -> bool {
        &&& self.dim == other.dim
        &&& self.layers == other.layers
        &&& self.spacing == other.spacing
        &&& self.anchor == other.anchor
        &&& self.cells.len() == other.cells.len()
        &&& forall|i: int|
            #![trigger other.cells[i]]
            0 <= i < self.cells.len() ==> self.cells[i].content == other.cells[i].content
                && self.cells[i].pos == other.cells[i].pos
    }
}

impl View for Board {
    type V = BoardView;

    closed spec fn view(&self) -> BoardView {
        BoardView {
            dim: self.dim as int,
            layers: self.layers as int,
            spacing: self.spacing as int,
            anchor: self.anchor,
            cells: self.cells@,
        }
    }
}

/// Whether the layout has a bomb at the position one step (`d` = 0, 1, 2 for
/// -1, 0, +1) away from `c` on each axis.
fn bomb_near(dim: usize, layers: usize, bombs: &Vec<bool>, c: Coord, dx: usize, dy: usize, dz: usize) -> (r: u8)
    requires
        coord_in_grid(dim as int, layers as int, c),
        bombs.len() == dim * dim * layers,
        dx <= 2,
        dy <= 2,
        dz <= 2,
    ensures
        r == bomb_at(dim as int, layers as int, bombs@, c.x + dx - 1, c.y + dy - 1, c.z + dz - 1),
{
    let x = if dx == 0 {
        if c.x == 0 {
            return 0;
        }
        c.x - 1
    } else if dx == 1 {
        c.x
    } else {
        if c.x + 1 >= dim {
            return 0;
        }
        c.x + 1
    };
    let y = if dy == 0 {
        if c.y == 0 {
            return 0;
        }
        c.y - 1
    } else if dy == 1 {
        c.y
    } else {
        if c.y + 1 >= dim {
            return 0;
        }
        c.y + 1
    };
    let z = if dz == 0 {
        if c.z == 0 {
            return 0;
        }
        c.z - 1
    } else if dz == 1 {
        c.z
    } else {
        if c.z + 1 >= layers {
            return 0;
        }
        c.z + 1
    };
    proof {
        lemma_index_bounds(dim as int, layers as int, x as int, y as int, z as int);
    }
    let i = x + dim * (y + dim * z);
    if bombs[i] {
        1
    } else {
        0
    }
}

fn row_count(dim: usize, layers: usize, bombs: &Vec<bool>, c: Coord, dy: usize, dz: usize) -> (r: u8)
    requires
        coord_in_grid(dim as int, layers as int, c),
        bombs.len() == dim * dim * layers,
        dy <= 2,
        dz <= 2,
    ensures
        r == row_bombs(dim as int, layers as int, bombs@, c.x as int, c.y + dy - 1, c.z + dz - 1),
        r <= 3,
{
    bomb_near(dim, layers, bombs, c, 0, dy, dz) + bomb_near(dim, layers, bombs, c, 1, dy, dz)
        + bomb_near(dim, layers, bombs, c, 2, dy, dz)
}

fn plane_count(dim: usize, layers: usize, bombs: &Vec<bool>, c: Coord, dz: usize) -> (r: u8)
    requires
        coord_in_grid(dim as int, layers as int, c),
        bombs.len() == dim * dim * layers,
        dz <= 2,
    ensures
        r == plane_bombs(dim as int, layers as int, bombs@, c.x as int, c.y as int, c.z + dz - 1),
        r <= 9,
{
    row_count(dim, layers, bombs, c, 0, dz) + row_count(dim, layers, bombs, c, 1, dz) + row_count(
        dim,
        layers,
        bombs,
        c,
        2,
        dz,
    )
}

/// Bombs of a layout among the neighbours of a position.
fn count_bombs(dim: usize, layers: usize, bombs: &Vec<bool>, c: Coord) -> (r: u8)
    requires
        coord_in_grid(dim as int, layers as int, c),
        bombs.len() == dim * dim * layers,
    ensures
        r == neighbor_bombs(dim as int, layers as int, bombs@, c),
{
    let all = plane_count(dim, layers, bombs, c, 0) + plane_count(dim, layers, bombs, c, 1)
        + plane_count(dim, layers, bombs, c, 2);
    let own = bomb_near(dim, layers, bombs, c, 1, 1, 1);
    all - own
}

/// World position of a grid position, computed.
fn position_of(spacing: i32, anchor: BlockPos, dim: usize, layers: usize, c: Coord) -> (r: BlockPos)
    requires
        shape_fits(dim as int, layers as int, spacing as int, anchor),
        coord_in_grid(dim as int, layers as int, c),
    ensures
        r == world_pos(spacing as int, anchor, c),
{
    proof {
        let k = spacing as int;
        assert(k * c.x <= k * (dim - 1) && k * c.y <= k * (dim - 1) && k * c.z <= k * (layers - 1)
            && 0 <= k * c.x && 0 <= k * c.y && 0 <= k * c.z) by (nonlinear_arith)
            requires
                k == 1 || k == 3,
                c.x < dim,
                c.y < dim,
                c.z < layers,
        ;
    }
    let s = spacing as i64;
    let x = anchor.x as i64 + s * (c.x as i64);
    let y = anchor.y as i64 + s * (c.z as i64);
    let z = anchor.z as i64 + s * (c.y as i64);
    BlockPos { x: x as i32, y: y as i32, z: z as i32 }
}

/// Sets every cell's block to `block`.
pub open spec fn cover_effects(cells: Seq<Cell>, block: BlockKind) -> Seq<WorldEffect> {
    Seq::new(cells.len(), |i: int| WorldEffect::SetBlock(cells[i].pos, block))
}

/// Shows every cell's content.
pub open spec fn reveal_effects(cells: Seq<Cell>) -> Seq<WorldEffect> {
    Seq::new(cells.len(), |i: int| WorldEffect::SetBlock(cells[i].pos, appearance(cells[i].content)))
}

/// For each of the first `n` cells, in order, whose state differs from
/// `before`: a step sound at the cell and its content shown.
pub open spec fn opened_effects(before: Seq<CellState>, after: Seq<Cell>, n: nat) -> Seq<WorldEffect>
    decreases n,
{
    if n == 0 {
        seq![]
    } else {
        let i = n - 1;
        opened_effects(before, after, (n - 1) as nat) + if before[i] != after[i].state {
            seq![
                WorldEffect::PlaySound(SoundKind::Step, after[i].pos),
                WorldEffect::SetBlock(after[i].pos, appearance(after[i].content)),
            ]
        } else {
            seq![]
        }
    }
}

/// Rounds of bomb placement before the remaining bombs go to the first free
/// cells.
pub const MAX_SWEEPS: u32 = 100000;

/// Chance, in hundredths, that one round marks a free cell as a bomb.
pub const BOMB_CHANCE_PERCENT: u32 = 1;

/// The positions of the grid at most one step from `c` on each axis, `c`
/// itself included.
pub open spec fn neighbourhood(dim: int, layers: int, c: Coord) -> Set<Coord> {
    Set::new(|w: Coord| coord_in_grid(dim, layers, w) && (w == c || adjacent(c, w)))
}

/// The 27 positions one step or less from `c` on each axis, as far as they
/// are positions at all.
pub open spec fn box_candidates(c: Coord) -> Seq<Coord> {
    Seq::new(
        27,
        |k: int|
            Coord {
                x: (c.x + k % 3 - 1) as usize,
                y: (c.y + (k / 3) % 3 - 1) as usize,
                z: (c.z + k / 9 - 1) as usize,
            },
    )
}

/// The neighbourhood of a position is a finite set.
pub proof fn lemma_neighbourhood_finite(dim: int, layers: int, c: Coord)
    ensures
        neighbourhood(dim, layers, c).finite(),
{
    let cand = box_candidates(c);
    assert forall|w: Coord| #[trigger] neighbourhood(dim, layers, c).contains(w) implies cand.to_set().contains(w) by {
        let dx = w.x - c.x + 1;
        let dy = w.y - c.y + 1;
        let dz = w.z - c.z + 1;
        let k = dx + 3 * dy + 9 * dz;
        lemma_fundamental_div_mod_converse(k, 3, dy + 3 * dz, dx);
        lemma_fundamental_div_mod_converse(dy + 3 * dz, 3, dz, dy);
        lemma_fundamental_div_mod_converse(k, 9, dz, dx + 3 * dy);
        assert(cand[k] == w);
    }
    vstd::seq_lib::seq_to_set_is_finite(cand);
    vstd::set_lib::lemma_len_subset(neighbourhood(dim, layers, c), cand.to_set());
}

/// `bomb_count` bombs over the cells of a board of this shape, in storage
/// order, leaving the neighbourhood of `c` free.
pub fn layout_clear_of(dim: usize, layers: usize, bomb_count: usize, c: Coord) -> (bombs: Vec<bool>)
    requires
        0 < dim,
        0 < layers,
        dim * dim * layers <= usize::MAX,
        coord_in_grid(dim as int, layers as int, c),
        bomb_count + neighbourhood(dim as int, layers as int, c).len() <= dim * dim * layers,
    ensures
        bombs.len() == dim * dim * layers,
        count_true(bombs@) == bomb_count,
        forall|w: Coord|
            #[trigger] neighbourhood(dim as int, layers as int, c).contains(w) ==> !bombs@[coord_index(
                dim as int,
                w,
            )],
{
    let ghost nb = neighbourhood(dim as int, layers as int, c);
    proof {
        lemma_neighbourhood_finite(dim as int, layers as int, c);
        lemma_index_bounds(dim as int, layers as int, 0, 0, 0);
        assert(dim * dim <= dim * dim * layers) by (nonlinear_arith)
            requires
                0 < layers,
                0 <= dim * dim,
        ;
    }
    let total = dim * dim * layers;
    let mut bombs: Vec<bool> = Vec::new();
    let mut placed: usize = 0;
    let ghost mut passed: Set<Coord> = Set::empty();
    let mut x: usize = 0;
    let mut y: usize = 0;
    let mut z: usize = 0;
    let mut i: usize = 0;
    while i < total
        invariant
            total == dim * dim * layers,
            0 < dim,
            0 < layers,
            coord_in_grid(dim as int, layers as int, c),
            nb == neighbourhood(dim as int, layers as int, c),
            nb.finite(),
            bomb_count + nb.len() <= total,
            bombs.len() == i,
            i <= total,
            i < total ==> coord_in_grid(dim as int, layers as int, Coord { x, y, z }),
            i < total ==> i == index_of(dim as int, x as int, y as int, z as int),
            count_true(bombs@) == placed,
            placed <= bomb_count,
            passed.finite(),
            passed.subset_of(nb),
            forall|w: Coord| #[trigger] passed.contains(w) ==> coord_index(dim as int, w) < i,
            placed < bomb_count ==> placed + passed.len() == i,
            forall|w: Coord|
                #[trigger] nb.contains(w) && coord_index(dim as int, w) < i ==> !bombs@[coord_index(
                    dim as int,
                    w,
                )],
        decreases total - i,
    {
        let cur = Coord { x, y, z };
        let near = x + 1 >= c.x && x <= c.x + 1 && y + 1 >= c.y && y <= c.y + 1 && z + 1 >= c.z
            && z <= c.z + 1;
        let put = !near && placed < bomb_count;
        let ghost before = bombs@;
        bombs.push(put);
        proof {
            assert(bombs@.drop_last() =~= before);
            assert(near <==> nb.contains(cur));
            if near {
                assert(!passed.contains(cur));
                passed = passed.insert(cur);
            }
            assert forall|w: Coord|
                #[trigger] nb.contains(w) && coord_index(dim as int, w) < i + 1 implies !bombs@[coord_index(
                    dim as int,
                    w,
                )] by {
                if coord_index(dim as int, w) == i {
                    lemma_index_injective(dim as int, layers as int, cur, w);
                } else {
                    assert(bombs@[coord_index(dim as int, w)] == before[coord_index(dim as int, w)]);
                }
            }
        }
        if put {
            placed = placed + 1;
        }
        i = i + 1;
        if x + 1 < dim {
            x = x + 1;
        } else if y + 1 < dim {
            assert(dim * (y + 1 + dim * z) == dim * (y + dim * z) + dim) by (nonlinear_arith);
            x = 0;
            y = y + 1;
        } else {
            assert(dim * (0 + dim * (z + 1)) == dim * (y + dim * z) + dim) by (nonlinear_arith)
                requires
                    y + 1 == dim,
            ;
            x = 0;
            y = 0;
            z = z + 1;
            if i < total {
                assert(z < layers) by (nonlinear_arith)
                    requires
                        i == dim * (dim * z),
                        i < dim * dim * layers,
                        0 < dim,
                ;
            }
        }
    }
    proof {
        vstd::set_lib::lemma_len_subset(passed, nb);
        assert forall|w: Coord| #[trigger] nb.contains(w) implies !bombs@[coord_index(dim as int, w)] by {
            lemma_index_bounds(dim as int, layers as int, w.x as int, w.y as int, w.z as int);
        }
    }
    bombs
}

/// With the neighbourhood of `c` free of bombs, `c` holds no bomb and has
/// none around it.
proof fn lemma_clear_box(dim: int, layers: int, bombs: Seq<bool>, c: Coord)
    requires
        coord_in_grid(dim, layers, c),
        dim <= usize::MAX,
        layers <= usize::MAX,
        forall|w: Coord|
            #[trigger] neighbourhood(dim, layers, c).contains(w) ==> !bombs[coord_index(dim, w)],
    ensures
        !bombs[coord_index(dim, c)],
        neighbor_bombs(dim, layers, bombs, c) == 0,
{
    assert forall|x: int, y: int, z: int|
        c.x - 1 <= x <= c.x + 1 && c.y - 1 <= y <= c.y + 1 && c.z - 1 <= z <= c.z + 1 implies #[trigger] bomb_at(dim, layers, bombs, x, y, z) == 0 by {
        if in_grid(dim, layers, x, y, z) {
            let w = Coord { x: x as usize, y: y as usize, z: z as usize };
            assert(neighbourhood(dim, layers, c).contains(w));
        }
    }
    assert(neighbourhood(dim, layers, c).contains(c));
}

/// A random layout of `bomb_count` bombs over `total` cells.
///
/// Rounds sweep over the cells and mark each free one as a bomb with a chance
/// of one in a hundred, until the count is reached. Should that take more than
/// `MAX_SWEEPS` rounds, the remaining bombs go to the first free cells, so the
/// count is always met.
pub fn random_layout(total: usize, bomb_count: usize) -> (bombs: Vec<bool>)
    requires
        bomb_count <= total,
    ensures
        bombs.len() == total,
        count_true(bombs@) == bomb_count,
{
    let mut bombs: Vec<bool> = Vec::new();
    let mut i: usize = 0;
    while i < total
        invariant
            i <= total,
            bombs.len() == i,
            forall|j: int| 0 <= j < i ==> !bombs@[j],
        decreases total - i,
    {
        bombs.push(false);
        i = i + 1;
    }
    proof {
        lemma_count_true_none(bombs@);
    }
    let mut placed: usize = 0;
    let mut sweeps: u32 = 0;
    while placed < bomb_count && sweeps < MAX_SWEEPS
        invariant
            bombs.len() == total,
            count_true(bombs@) == placed,
            placed <= bomb_count <= total,
        decreases MAX_SWEEPS - sweeps,
    {
        let mut i: usize = 0;
        while i < total && placed < bomb_count
            invariant
                bombs.len() == total,
                count_true(bombs@) == placed,
                placed <= bomb_count <= total,
                i <= total,
            decreases total - i,
        {
            if !bombs[i] && gen_ratio(BOMB_CHANCE_PERCENT, 100) {
                proof {
                    lemma_count_true_update(bombs@, i as int, true);
                }
                bombs.set(i, true);
                placed = placed + 1;
            }
            i = i + 1;
        }
        sweeps = sweeps + 1;
    }
    let mut i: usize = 0;
    while i < total && placed < bomb_count
        invariant
            bombs.len() == total,
            count_true(bombs@) == placed,
            placed <= bomb_count <= total,
            i <= total,
            placed < bomb_count ==> forall|j: int| 0 <= j < i ==> bombs@[j],
        decreases total - i,
    {
        if !bombs[i] {
            proof {
                lemma_count_true_update(bombs@, i as int, true);
            }
            bombs.set(i, true);
            placed = placed + 1;
        }
        i = i + 1;
    }
    proof {
        if placed < bomb_count {
            lemma_count_true_all(bombs@);
        }
    }
    bombs
}

/// The place of `w` among the 27 positions of the box around `c`, counted
/// column first, then row, then layer.
pub open spec fn offset_rank(c: Coord, w: Coord) -> int {
    (w.x + 1 - c.x) + 3 * (w.y + 1 - c.y) + 9 * (w.z + 1 - c.z)
}

/// One step of the reveal cascade on board `b`: from a cell without bombs
/// around it to a closed neighbour.
pub open spec fn cascade_step(b: BoardView, u: Coord, v: Coord) -> bool {
    &&& b.contains(u)
    &&& b.cell(u).content is Empty
    &&& adjacent(u, v)
    &&& b.contains(v)
    &&& b.cell(v).state is Closed
}

/// A path of cascade steps on board `b` that begins at `start`.
pub open spec fn is_cascade(b: BoardView, start: Coord, p: Seq<Coord>) -> bool {
    &&& p.len() > 0
    &&& p[0] == start
    &&& forall|i: int| #![trigger p[i]] 0 <= i < p.len() - 1 ==> cascade_step(b, p[i], p[i + 1])
}

/// The cells that opening `start` on board `b` opens: `start` itself and,
/// through cells without bombs around them, every closed cell connected to it.
#[verifier::opaque]
pub open spec fn in_region(b: BoardView, start: Coord, v: Coord) -> bool {
    exists|p: Seq<Coord>| #[trigger] is_cascade(b, start, p) && p.last() == v
}

/// Whether a cell changed its state between two boards.
pub open spec fn changed(before: BoardView, after: BoardView, v: Coord) -> bool {
    after.cell(v).state != before.cell(v).state
}

/// Each entry of the cascade's work list has a cascade path from `start`.
#[verifier::opaque]
pub open spec fn inv_paths(b0: BoardView, start: Coord, stack: Seq<Coord>, paths: Seq<Seq<Coord>>) -> bool {
    &&& paths.len() == stack.len()
    &&& forall|k: int|
        0 <= k < stack.len() ==> b0.contains(#[trigger] stack[k]) && is_cascade(b0, start, paths[k])
            && paths[k].last() == stack[k]
}

/// Every cell that changed was closed on `b0`, is open now and lies in the
/// region of `start`.
#[verifier::opaque]
pub open spec fn inv_changed(b0: BoardView, start: Coord, cur: BoardView) -> bool {
    forall|w: Coord|
        #![trigger cur.cell(w)]
        b0.contains(w) && changed(b0, cur, w) ==> b0.cell(w).state is Closed
            && cur.cell(w).state is Opened && in_region(b0, start, w)
}

/// Every closed neighbour of a changed cell without bombs around it is open
/// or waiting on the work list.
#[verifier::opaque]
pub open spec fn inv_closure(b0: BoardView, cur: BoardView, stack: Seq<Coord>) -> bool {
    forall|u: Coord, w: Coord|
        #![trigger cur.cell(u), adjacent(u, w)]
        b0.contains(u) && b0.contains(w) && changed(b0, cur, u) && b0.cell(u).content is Empty
            && adjacent(u, w) && b0.cell(w).state is Closed ==> cur.cell(w).state is Opened
            || stack.contains(w)
}

/// What holds between rounds of the cascade from `start`, begun on board
/// `b0`: `cur` is the board now, `stack` the work list and `paths` a cascade
/// path to each of its entries.
pub open spec fn cascade_inv(
    b0: BoardView,
    start: Coord,
    cur: BoardView,
    stack: Seq<Coord>,
    paths: Seq<Seq<Coord>>,
) -> bool {
    &&& cur.wf()
    &&& cur.same_layout(b0)
    &&& b0.wf()
    &&& b0.contains(start)
    &&& b0.cell(start).state is Closed
    &&& inv_paths(b0, start, stack, paths)
    &&& inv_changed(b0, start, cur)
    &&& inv_closure(b0, cur, stack)
    &&& changed(b0, cur, start) || stack.contains(start)
}

proof fn lemma_paths_pop(b0: BoardView, start: Coord, stack: Seq<Coord>, paths: Seq<Seq<Coord>>)
    requires
        inv_paths(b0, start, stack, paths),
        stack.len() > 0,
    ensures
        inv_paths(b0, start, stack.drop_last(), paths.drop_last()),
        b0.contains(stack.last()),
        is_cascade(b0, start, paths.last()),
        paths.last().last() == stack.last(),
{
    reveal(inv_paths);
    assert(stack[stack.len() - 1] == stack.last());
    let s2 = stack.drop_last();
    assert forall|k: int| 0 <= k < s2.len() implies b0.contains(#[trigger] s2[k]) && is_cascade(
        b0,
        start,
        paths.drop_last()[k],
    ) && paths.drop_last()[k].last() == s2[k] by {
        assert(stack[k] == s2[k]);
    }
}

/// A cell taken off the work list lies on a cascade path, so it was closed
/// on `b0`.
proof fn lemma_cascade_end_closed(b0: BoardView, start: Coord, p: Seq<Coord>)
    requires
        is_cascade(b0, start, p),
        b0.cell(start).state is Closed,
    ensures
        b0.cell(p.last()).state is Closed,
{
    if p.len() > 1 {
        assert(cascade_step(b0, p[p.len() - 2], p[p.len() - 1]));
    }
}

/// Opening a closed cell of the region keeps the changed cells accounted for.
proof fn lemma_changed_open(b0: BoardView, start: Coord, popped: BoardView, cur: BoardView, v: Coord)
    requires
        inv_changed(b0, start, popped),
        b0.contains(v),
        b0.cell(v).state is Closed,
        cur.cell(v).state is Opened,
        in_region(b0, start, v),
        forall|w: Coord| #![trigger cur.cell(w)] b0.contains(w) && w != v ==> cur.cell(w) == popped.cell(w),
    ensures
        inv_changed(b0, start, cur),
{
    reveal(inv_changed);
    assert forall|w: Coord|
        #![trigger cur.cell(w)]
        b0.contains(w) && changed(b0, cur, w) implies b0.cell(w).state is Closed
            && cur.cell(w).state is Opened && in_region(b0, start, w) by {
        if w != v {
            assert(popped.cell(w) == cur.cell(w));
        }
    }
}

/// Opening `v` and queueing its closed neighbours (when no bombs lie around
/// it) keeps every closed neighbour of a changed empty cell open or queued.
proof fn lemma_closure_open(
    b0: BoardView,
    start: Coord,
    popped: BoardView,
    cur: BoardView,
    v: Coord,
    old_stack: Seq<Coord>,
    new_stack: Seq<Coord>,
)
    requires
        inv_closure(b0, popped, old_stack),
        inv_changed(b0, start, cur),
        b0.contains(v),
        cur.cell(v).state is Opened,
        forall|w: Coord| #![trigger cur.cell(w)] b0.contains(w) && w != v ==> cur.cell(w) == popped.cell(w),
        forall|x: Coord| old_stack.contains(x) && x != v ==> new_stack.contains(x),
        b0.cell(v).content is Empty ==> forall|w: Coord|
            #![trigger cur.cell(w)]
            b0.contains(w) && adjacent(v, w) && cur.cell(w).state is Closed ==> new_stack.contains(w),
    ensures
        inv_closure(b0, cur, new_stack),
{
    reveal(inv_closure);
    reveal(inv_changed);
    assert forall|u: Coord, w: Coord|
        #![trigger cur.cell(u), adjacent(u, w)]
        b0.contains(u) && b0.contains(w) && changed(b0, cur, u) && b0.cell(u).content is Empty
            && adjacent(u, w) && b0.cell(w).state is Closed implies cur.cell(w).state is Opened
            || new_stack.contains(w) by {
        if w != v && u != v {
            assert(popped.cell(u) == cur.cell(u));
            assert(popped.cell(w) == cur.cell(w));
            assert(changed(b0, popped, u));
            assert(popped.cell(w).state is Opened || old_stack.contains(w));
        }
    }
}

/// Dropping a work-list entry that is no longer closed loses nothing.
proof fn lemma_closure_skip(b0: BoardView, cur: BoardView, v: Coord, old_stack: Seq<Coord>, new_stack: Seq<Coord>)
    requires
        inv_closure(b0, cur, old_stack),
        cur.cell(v).state is Opened,
        forall|x: Coord| old_stack.contains(x) && x != v ==> new_stack.contains(x),
    ensures
        inv_closure(b0, cur, new_stack),
{
    reveal(inv_closure);
}

/// Where the cells that changed were closed and are now open, and the cascade
/// went on from each of them that has no bombs around it, every cell on a
/// cascade path is open.
proof fn lemma_region_opened(before: BoardView, after: BoardView, start: Coord, p: Seq<Coord>)
    requires
        before.contains(start),
        before.cell(start).state is Closed,
        after.cell(start).state is Opened,
        forall|w: Coord|
            #![trigger after.cell(w)]
            before.contains(w) && changed(before, after, w) ==> before.cell(w).state is Closed
                && after.cell(w).state is Opened,
        forall|u: Coord, w: Coord|
            #![trigger after.cell(u), adjacent(u, w)]
            before.contains(u) && before.contains(w) && changed(before, after, u) && before.cell(
                u,
            ).content is Empty && adjacent(u, w) && before.cell(w).state is Closed
                ==> after.cell(w).state is Opened,
        is_cascade(before, start, p),
    ensures
        before.contains(p.last()),
        before.cell(p.last()).state is Closed,
        after.cell(p.last()).state is Opened,
    decreases p.len(),
{
    if p.len() > 1 {
        let q = p.drop_last();
        assert(is_cascade(before, start, q)) by {
            assert forall|i: int| #![trigger q[i]] 0 <= i < q.len() - 1 implies cascade_step(before, q[i], q[i + 1]) by {
                assert(p[i] == q[i]);
            }
        }
        lemma_region_opened(before, after, start, q);
        let u = q.last();
        assert(p[p.len() - 2] == u);
        assert(cascade_step(before, u, p.last()));
    }
}

/// Well-formed boards of one shape at one place cover the same coordinates,
/// in the same order.
pub proof fn lemma_footprint_by_shape(a: BoardView, b: BoardView)
    requires
        a.wf(),
        b.wf(),
        a.dim == b.dim,
        a.layers == b.layers,
        a.spacing == b.spacing,
        a.anchor == b.anchor,
    ensures
        a.footprint() == b.footprint(),
{
    assert forall|i: int| 0 <= i < a.cells.len() implies a.footprint()[i] == b.footprint()[i] by {
        assert(a.cells[i].pos == a.pos_of(coord_of(a.dim, i)));
        assert(b.cells[i].pos == b.pos_of(coord_of(b.dim, i)));
    }
    assert(a.footprint() =~= b.footprint());
}

/// Same layout, same shape and place, any states: such boards are equally
/// well formed.
pub proof fn lemma_same_layout_wf(a: BoardView, b: BoardView)
    requires
        a.wf(),
        b.same_layout(a),
    ensures
        b.wf(),
        b.bombs() == a.bombs(),
{
    reveal(BoardView::numbers_correct);
    assert(b.bombs() =~= a.bombs());
    assert forall|i: int| #![trigger b.cells[i]] 0 <= i < b.cells.len() implies b.cells[i].pos == b.pos_of(coord_of(b.dim, i)) by {
        assert(a.cells[i].pos == a.pos_of(coord_of(a.dim, i)));
    }
    assert forall|c: Coord| #![trigger b.cell(c)] b.contains(c) implies b.cell(c).content
        == content_for(b.dim, b.layers, b.bombs(), c) && b.cell(c).pos == b.pos_of(c) by {
        lemma_index_bounds(b.dim, b.layers, c.x as int, c.y as int, c.z as int);
        assert(a.cell(c) == a.cells[b.index(c)]);
    }
}

impl Board {
    /// A random board of `bomb_count` bombs, every cell closed.
    pub fn generate(dim: usize, layers: usize, spacing: i32, anchor: BlockPos, bomb_count: usize) -> (r: Board)
        requires
            shape_fits(dim as int, layers as int, spacing as int, anchor),
            dim * dim * layers <= usize::MAX,
            bomb_count <= dim * dim * layers,
        ensures
            r@.wf(),
            r@.dim == dim,
            r@.layers == layers,
            r@.spacing == spacing,
            r@.anchor == anchor,
            r@.bomb_total() == bomb_count,
            r@.all_closed(),
    {
        proof {
            lemma_index_bounds(dim as int, layers as int, 0, 0, 0);
            assert(dim * dim <= dim * dim * layers) by (nonlinear_arith)
                requires
                    0 < layers,
                    0 <= dim * dim,
            ;
        }
        let total = dim * dim * layers;
        let bombs = random_layout(total, bomb_count);
        Board::from_layout(dim, layers, spacing, anchor, &bombs)
    }

    /// A board of `bomb_count` bombs placed in storage order, keeping `c`
    /// and its neighbours free of bombs.
    pub fn with_clear_cell(dim: usize, layers: usize, spacing: i32, anchor: BlockPos, bomb_count: usize, c: Coord) -> (r: Board)
        requires
            shape_fits(dim as int, layers as int, spacing as int, anchor),
            dim * dim * layers <= usize::MAX,
            coord_in_grid(dim as int, layers as int, c),
            bomb_count + neighbourhood(dim as int, layers as int, c).len() <= dim * dim * layers,
        ensures
            r@.wf(),
            r@.dim == dim,
            r@.layers == layers,
            r@.spacing == spacing,
            r@.anchor == anchor,
            r@.bomb_total() == bomb_count,
            r@.all_closed(),
            r@.cell(c).content is Empty,
    {
        let bombs = layout_clear_of(dim, layers, bomb_count, c);
        let b = Board::from_layout(dim, layers, spacing, anchor, &bombs);
        proof {
            lemma_clear_box(dim as int, layers as int, bombs@, c);
            reveal(BoardView::numbers_correct);
            assert(b@.cell(c).content == content_for(dim as int, layers as int, b@.bombs(), c));
        }
        b
    }

    /// How many positions the neighbourhood of `c` has (`c` included).
    pub fn neighbourhood_size(&self, c: Coord) -> (r: usize)
        requires
            self@.wf(),
            self@.contains(c),
        ensures
            r == neighbourhood(self@.dim, self@.layers, c).len(),
    {
        let nbrs = self.neighbors(c);
        proof {
            let nb = neighbourhood(self@.dim, self@.layers, c);
            lemma_neighbourhood_finite(self@.dim, self@.layers, c);
            nbrs@.unique_seq_to_set();
            vstd::seq_lib::seq_to_set_is_finite(nbrs@);
            assert(!nbrs@.to_set().contains(c));
            assert(nb =~= nbrs@.to_set().insert(c));
        }
        nbrs.len() + 1
    }

    pub fn dim(&self) -> (r: usize)
        ensures
            r == self@.dim,
    {
        self.dim
    }

    pub fn layers(&self) -> (r: usize)
        ensures
            r == self@.layers,
    {
        self.layers
    }

    pub fn anchor(&self) -> (r: BlockPos)
        ensures
            r == self@.anchor,
    {
        self.anchor
    }

    pub fn len(&self) -> (r: usize)
        ensures
            r == self@.cells.len(),
    {
        self.cells.len()
    }

    /// The cell stored at a flat index.
    pub fn cell_at(&self, i: usize) -> (r: Cell)
        requires
            i < self@.cells.len(),
        ensures
            r == self@.cells[i as int],
    {
        self.cells[i]
    }

    /// The flat index of a grid position.
    pub fn index(&self, c: Coord) -> (r: usize)
        requires
            self@.wf(),
            self@.contains(c),
        ensures
            r == self@.index(c),
            r < self@.cells.len(),
    {
        proof {
            lemma_index_bounds(self.dim as int, self.layers as int, c.x as int, c.y as int, c.z as int);
            assert(self.cells.len() == self.dim * self.dim * self.layers);
        }
        c.x + self.dim * (c.y + self.dim * c.z)
    }

    /// The cell at a grid position.
    pub fn cell(&self, c: Coord) -> (r: Cell)
        requires
            self@.wf(),
            self@.contains(c),
        ensures
            r == self@.cell(c),
    {
        let i = self.index(c);
        self.cells[i]
    }

    /// Puts a cell into a new state; nothing else changes.
    pub fn set_state(&mut self, c: Coord, state: CellState)
        requires
            old(self)@.wf(),
            old(self)@.contains(c),
        ensures
            final(self)@.wf(),
            final(self)@.same_layout(old(self)@),
            final(self)@.cells == old(self)@.cells.update(
                old(self)@.index(c),
                Cell { state, ..old(self)@.cell(c) },
            ),
            final(self)@.cell(c) == (Cell { state, ..old(self)@.cell(c) }),
            final(self)@.bombs() == old(self)@.bombs(),
            forall|w: Coord|
                #![trigger final(self)@.cell(w)]
                old(self)@.contains(w) && w != c ==> final(self)@.cell(w) == old(self)@.cell(w),
            old(self)@.cell(c).state is Closed && !(state is Closed) ==> count_true(
                final(self)@.closed(),
            ) + 1 == count_true(old(self)@.closed()),
    {
        let i = self.index(c);
        let cell = self.cells[i];
        self.cells.set(i, Cell { state, ..cell });
        proof {
            lemma_same_layout_wf(old(self)@, self@);
            let b = old(self)@;
            assert forall|w: Coord|
                #![trigger self@.cell(w)]
                b.contains(w) && w != c implies self@.cell(w) == b.cell(w) by {
                lemma_index_bounds(b.dim, b.layers, w.x as int, w.y as int, w.z as int);
                if b.index(w) == b.index(c) {
                    lemma_index_injective(b.dim, b.layers, c, w);
                }
            }
            assert(self@.closed() =~= b.closed().update(i as int, state is Closed));
            lemma_count_true_update(b.closed(), i as int, state is Closed);
        }
    }

    /// The grid positions next to `c` (its Moore neighbourhood, clipped to
    /// the board).
    pub fn neighbors(&self, c: Coord) -> (r: Vec<Coord>)
        requires
            self@.wf(),
            self@.contains(c),
        ensures
            forall|k: int| 0 <= k < r.len() ==> self@.contains(r@[k]) && adjacent(c, r@[k]),
            forall|w: Coord| self@.contains(w) && adjacent(c, w) ==> r@.contains(w),
            r@.no_duplicates(),
            r.len() <= 27,
    {
        let mut r: Vec<Coord> = Vec::new();
        let mut dz: usize = 0;
        while dz < 3
            invariant
                self@.wf(),
                self@.contains(c),
                dz <= 3,
                forall|k: int| 0 <= k < r.len() ==> self@.contains(r@[k]) && adjacent(c, r@[k]),
                forall|w: Coord|
                    self@.contains(w) && adjacent(c, w) && w.z + 1 < c.z + dz ==> r@.contains(w),
                r@.no_duplicates(),
                forall|k: int| 0 <= k < r.len() ==> offset_rank(c, #[trigger] r@[k]) < 9 * dz,
                r.len() <= 9 * dz,
            decreases 3 - dz,
        {
            let mut dy: usize = 0;
            while dy < 3
                invariant
                    self@.wf(),
                    self@.contains(c),
                    dz < 3,
                    dy <= 3,
                    forall|k: int| 0 <= k < r.len() ==> self@.contains(r@[k]) && adjacent(c, r@[k]),
                    forall|w: Coord|
                        self@.contains(w) && adjacent(c, w) && (w.z + 1 < c.z + dz || (w.z + 1 == c.z
                            + dz && w.y + 1 < c.y + dy)) ==> r@.contains(w),
                    r@.no_duplicates(),
                    forall|k: int| 0 <= k < r.len() ==> offset_rank(c, #[trigger] r@[k]) < 9 * dz + 3 * dy,
                    r.len() <= 9 * dz + 3 * dy,
                decreases 3 - dy,
            {
                let mut dx: usize = 0;
                while dx < 3
                    invariant
                        self@.wf(),
                        self@.contains(c),
                        dz < 3,
                        dy < 3,
                        dx <= 3,
                        forall|k: int| 0 <= k < r.len() ==> self@.contains(r@[k]) && adjacent(c, r@[k]),
                        forall|w: Coord|
                            self@.contains(w) && adjacent(c, w) && (w.z + 1 < c.z + dz || (w.z + 1 == c.z
                                + dz && w.y + 1 < c.y + dy) || (w.z + 1 == c.z + dz && w.y + 1 == c.y
                                + dy && w.x + 1 < c.x + dx)) ==> r@.contains(w),
                        r@.no_duplicates(),
                        forall|k: int| 0 <= k < r.len() ==> offset_rank(c, #[trigger] r@[k]) < 9 * dz + 3 * dy + dx,
                        r.len() <= 9 * dz + 3 * dy + dx,
                    decreases 3 - dx,
                {
                    if (dx >= 1 || c.x >= 1) && dx <= self.dim - c.x && (dy >= 1 || c.y >= 1) && dy
                        <= self.dim - c.y && (dz >= 1 || c.z >= 1) && dz <= self.layers - c.z && !(dx
                        == 1 && dy == 1 && dz == 1) {
                        let w = Coord {
                            x: if dx == 0 {
                                c.x - 1
                            } else {
                                c.x + (dx - 1)
                            },
                            y: if dy == 0 {
                                c.y - 1
                            } else {
                                c.y + (dy - 1)
                            },
                            z: if dz == 0 {
                                c.z - 1
                            } else {
                                c.z + (dz - 1)
                            },
                        };
                        let ghost before = r@;
                        assert(offset_rank(c, w) == 9 * dz + 3 * dy + dx);
                        assert(!before.contains(w));
                        r.push(w);
                        proof {
                            assert forall|v: Coord| before.contains(v) implies r@.contains(v) by {
                                let k = choose|k: int| 0 <= k < before.len() && before[k] == v;
                                assert(r@[k] == v);
                            }
                            assert(r@[r.len() - 1] == w);
                        }
                    }
                    dx = dx + 1;
                }
                dy = dy + 1;
            }
            dz = dz + 1;
        }
        r
    }

    /// Pushes every closed neighbour of `v` onto the work list of the
    /// cascade, extending `v`'s cascade path to each of them.
    fn push_closed_neighbors(
        &self,
        v: Coord,
        stack: &mut Vec<Coord>,
        Ghost(b0): Ghost<BoardView>,
        Ghost(start): Ghost<Coord>,
        Ghost(pv): Ghost<Seq<Coord>>,
        Ghost(paths): Ghost<Seq<Seq<Coord>>>,
    ) -> (new_paths: Ghost<Seq<Seq<Coord>>>)
        requires
            self@.wf(),
            self@.same_layout(b0),
            b0.contains(v),
            b0.cell(v).content is Empty,
            is_cascade(b0, start, pv),
            pv.last() == v,
            forall|w: Coord|
                #![trigger self@.cell(w)]
                b0.contains(w) && self@.cell(w).state is Closed ==> b0.cell(w).state is Closed,
            inv_paths(b0, start, old(stack)@, paths),
        ensures
            inv_paths(b0, start, final(stack)@, new_paths@),
            forall|x: Coord| old(stack)@.contains(x) ==> final(stack)@.contains(x),
            forall|w: Coord|
                #![trigger self@.cell(w)]
                b0.contains(w) && adjacent(v, w) && self@.cell(w).state is Closed
                    ==> final(stack)@.contains(w),
    {
        let ghost mut paths = paths;
        let ghost first = stack@;
        proof {
            reveal(inv_paths);
        }
        let nbrs = self.neighbors(v);
        let mut k: usize = 0;
        while k < nbrs.len()
            invariant
                self@.wf(),
                self@.same_layout(b0),
                b0.contains(v),
                b0.cell(v).content is Empty,
                is_cascade(b0, start, pv),
                pv.last() == v,
                forall|w: Coord|
                    #![trigger self@.cell(w)]
                    b0.contains(w) && self@.cell(w).state is Closed ==> b0.cell(w).state is Closed,
                k <= nbrs.len(),
                forall|j: int|
                    0 <= j < nbrs.len() ==> self@.contains(#[trigger] nbrs@[j]) && adjacent(v, nbrs@[j]),
                forall|w: Coord| self@.contains(w) && adjacent(v, w) ==> nbrs@.contains(w),
                paths.len() == stack.len(),
                forall|j: int|
                    0 <= j < stack.len() ==> b0.contains(#[trigger] stack@[j]) && is_cascade(
                        b0,
                        start,
                        paths[j],
                    ) && paths[j].last() == stack@[j],
                forall|x: Coord| first.contains(x) ==> stack@.contains(x),
                forall|w: Coord|
                    #![trigger self@.cell(w)]
                    b0.contains(w) && adjacent(v, w) && self@.cell(w).state is Closed
                        && nbrs@.subrange(0, k as int).contains(w) ==> stack@.contains(w),
            decreases nbrs.len() - k,
        {
            let w = nbrs[k];
            let ghost before_stack = stack@;
            if self.cell(w).state == CellState::Closed {
                stack.push(w);
                proof {
                    let pw = pv.push(w);
                    assert(cascade_step(b0, v, w));
                    assert(is_cascade(b0, start, pw)) by {
                        assert forall|i: int| #![trigger pw[i]] 0 <= i < pw.len() - 1 implies cascade_step(b0, pw[i], pw[i + 1]) by {
                            if i < pw.len() - 2 {
                                assert(pv[i] == pw[i]);
                            }
                        }
                    }
                    paths = paths.push(pw);
                    assert forall|x: Coord| before_stack.contains(x) implies stack@.contains(x) by {
                        let j = choose|j: int| 0 <= j < before_stack.len() && before_stack[j] == x;
                        assert(stack@[j] == x);
                    }
                    assert(stack@[stack.len() - 1] == w);
                }
            }
            proof {
                assert forall|x: Coord|
                    #[trigger] nbrs@.subrange(0, k + 1).contains(x) implies nbrs@.subrange(0, k as int).contains(x) || x == w by {
                    let j = choose|j: int| 0 <= j < k + 1 && #[trigger] nbrs@.subrange(0, k + 1)[j] == x;
                    if j < k {
                        assert(nbrs@.subrange(0, k as int)[j] == x);
                    }
                }
            }
            k = k + 1;
        }
        proof {
            assert(nbrs@.subrange(0, nbrs.len() as int) =~= nbrs@);
            reveal(inv_paths);
        }
        Ghost(paths)
    }

    /// One round of the cascade on a closed cell `v` just taken from the work
    /// list: opens it and, when no bombs lie around it, queues its closed
    /// neighbours.
    fn cascade_open(
        &mut self,
        v: Coord,
        stack: &mut Vec<Coord>,
        Ghost(b0): Ghost<BoardView>,
        Ghost(start): Ghost<Coord>,
        Ghost(old_stack): Ghost<Seq<Coord>>,
        Ghost(paths): Ghost<Seq<Seq<Coord>>>,
    ) -> (new_paths: Ghost<Seq<Seq<Coord>>>)
        requires
            cascade_inv(b0, start, old(self)@, old_stack, paths),
            old_stack.len() > 0,
            old_stack.last() == v,
            old(stack)@ == old_stack.drop_last(),
            old(self)@.contains(v),
            old(self)@.cell(v).state is Closed,
        ensures
            cascade_inv(b0, start, final(self)@, final(stack)@, new_paths@),
            count_true(final(self)@.closed()) < count_true(old(self)@.closed()),
    {
        let ghost popped = self@;
        let ghost pv = paths.last();
        proof {
            lemma_paths_pop(b0, start, old_stack, paths);
            lemma_cascade_end_closed(b0, start, pv);
            assert(old_stack[old_stack.len() - 1] == v);
            assert forall|x: Coord| old_stack.contains(x) && x != v implies stack@.contains(x) by {
                let j = choose|j: int| 0 <= j < old_stack.len() && old_stack[j] == x;
                assert(stack@[j] == x);
            }
        }
        let ghost paths = paths.drop_last();
        let ghost mid_stack = stack@;
        let cell = self.cell(v);
        self.set_state(v, CellState::Opened);
        proof {
            assert(self@.cell(v).state is Opened);
            assert(in_region(b0, start, v)) by {
                reveal(in_region);
            }
            lemma_changed_open(b0, start, popped, self@, v);
        }
        let ghost mut paths = paths;
        proof {
            lemma_index_bounds(b0.dim, b0.layers, v.x as int, v.y as int, v.z as int);
            assert(b0.cells[b0.index(v)].content == popped.cells[b0.index(v)].content);
            assert forall|w: Coord|
                #![trigger self@.cell(w)]
                b0.contains(w) && self@.cell(w).state is Closed implies b0.cell(w).state is Closed by {
                reveal(inv_changed);
            }
        }
        if cell.content == CellContent::Empty {
            let Ghost(new_paths) = self.push_closed_neighbors(
                v,
                stack,
                Ghost(b0),
                Ghost(start),
                Ghost(pv),
                Ghost(paths),
            );
            proof {
                paths = new_paths;
            }
        }
        proof {
            lemma_closure_open(b0, start, popped, self@, v, old_stack, stack@);
            if v != start {
                assert(popped.cell(start) == self@.cell(start));
            }
        }
        Ghost(paths)
    }

    /// Opens `start` and cascades: every closed neighbour of an opened cell
    /// without bombs around it is opened in turn. Exactly the cells of the
    /// region change; they become open.
    pub fn open_region(&mut self, start: Coord)
        requires
            old(self)@.wf(),
            old(self)@.contains(start),
            old(self)@.cell(start).state is Closed,
        ensures
            final(self)@.wf(),
            final(self)@.same_layout(old(self)@),
            final(self)@.bombs() == old(self)@.bombs(),
            final(self)@.cell(start).state is Opened,
            forall|v: Coord|
                #![trigger final(self)@.cell(v)]
                final(self)@.contains(v) ==> if in_region(old(self)@, start, v) {
                    final(self)@.cell(v).state is Opened
                } else {
                    final(self)@.cell(v).state == old(self)@.cell(v).state
                },
    {
        let ghost b0 = self@;
        let mut stack: Vec<Coord> = Vec::new();
        stack.push(start);
        let ghost mut paths: Seq<Seq<Coord>> = seq![seq![start]];
        proof {
            reveal(inv_paths);
            reveal(inv_changed);
            reveal(inv_closure);
            assert(is_cascade(b0, start, seq![start]));
            assert(stack@[0] == start);
        }
        while stack.len() > 0
            invariant
                cascade_inv(b0, start, self@, stack@, paths),
            decreases count_true(self@.closed()), stack.len(),
        {
            let ghost old_stack = stack@;
            let ghost old_paths = paths;
            let v = stack.pop().unwrap();
            proof {
                assert(old_stack[old_stack.len() - 1] == v);
                lemma_paths_pop(b0, start, old_stack, old_paths);
            }
            let cell = self.cell(v);
            if cell.state == CellState::Closed {
                let Ghost(new_paths) = self.cascade_open(
                    v,
                    &mut stack,
                    Ghost(b0),
                    Ghost(start),
                    Ghost(old_stack),
                    Ghost(old_paths),
                );
                proof {
                    paths = new_paths;
                }
            } else {
                proof {
                    paths = paths.drop_last();
                    assert forall|x: Coord| old_stack.contains(x) && x != v implies stack@.contains(x) by {
                        let j = choose|j: int| 0 <= j < old_stack.len() && old_stack[j] == x;
                        assert(stack@[j] == x);
                    }
                    lemma_cascade_end_closed(b0, start, old_paths.last());
                    assert(self@.cell(v).state is Opened) by {
                        reveal(inv_changed);
                    }
                    lemma_closure_skip(b0, self@, v, old_stack, stack@);
                }
            }
        }
        proof {
            assert(in_region(b0, start, start)) by {
                reveal(in_region);
                assert(is_cascade(b0, start, seq![start]));
            }
            lemma_same_layout_wf(b0, self@);
            reveal(inv_changed);
            reveal(inv_closure);
            assert forall|v: Coord|
                #![trigger self@.cell(v)]
                self@.contains(v) implies if in_region(b0, start, v) {
                    self@.cell(v).state is Opened
                } else {
                    self@.cell(v).state == b0.cell(v).state
                } by {
                if in_region(b0, start, v) {
                    reveal(in_region);
                    let p = choose|p: Seq<Coord>| #[trigger] is_cascade(b0, start, p) && p.last() == v;
                    lemma_region_opened(b0, self@, start, p);
                }
            }
        }
    }

    /// The state of each cell.
    pub fn states(&self) -> (r: Vec<CellState>)
        ensures
            r@ == self@.states(),
    {
        let mut r: Vec<CellState> = Vec::new();
        let mut i: usize = 0;
        while i < self.cells.len()
            invariant
                i <= self.cells.len(),
                r@ == self@.states().take(i as int),
            decreases self.cells.len() - i,
        {
            r.push(self.cells[i].state);
            i = i + 1;
            assert(r@ =~= self@.states().take(i as int));
        }
        assert(r@ =~= self@.states());
        r
    }

    /// The world position of each cell.
    pub fn footprint(&self) -> (r: Vec<BlockPos>)
        ensures
            r@ == self@.footprint(),
    {
        let mut r: Vec<BlockPos> = Vec::new();
        let mut i: usize = 0;
        while i < self.cells.len()
            invariant
                i <= self.cells.len(),
                r@ == self@.footprint().take(i as int),
            decreases self.cells.len() - i,
        {
            r.push(self.cells[i].pos);
            i = i + 1;
            assert(r@ =~= self@.footprint().take(i as int));
        }
        assert(r@ =~= self@.footprint());
        r
    }

    /// Sets every cell's block to `block`.
    pub fn cover(&self, block: BlockKind) -> (r: Vec<WorldEffect>)
        ensures
            r@ == cover_effects(self@.cells, block),
    {
        let mut r: Vec<WorldEffect> = Vec::new();
        let mut i: usize = 0;
        while i < self.cells.len()
            invariant
                i <= self.cells.len(),
                r@ == cover_effects(self@.cells, block).take(i as int),
            decreases self.cells.len() - i,
        {
            r.push(WorldEffect::SetBlock(self.cells[i].pos, block));
            i = i + 1;
            assert(r@ =~= cover_effects(self@.cells, block).take(i as int));
        }
        assert(r@ =~= cover_effects(self@.cells, block));
        r
    }

    /// Shows every cell's content.
    pub fn reveal_all(&self) -> (r: Vec<WorldEffect>)
        ensures
            r@ == reveal_effects(self@.cells),
    {
        let mut r: Vec<WorldEffect> = Vec::new();
        let mut i: usize = 0;
        while i < self.cells.len()
            invariant
                i <= self.cells.len(),
                r@ == reveal_effects(self@.cells).take(i as int),
            decreases self.cells.len() - i,
        {
            let cell = self.cells[i];
            r.push(WorldEffect::SetBlock(cell.pos, get_num_color(cell.content)));
            i = i + 1;
            assert(r@ =~= reveal_effects(self@.cells).take(i as int));
        }
        assert(r@ =~= reveal_effects(self@.cells));
        r
    }

    /// A step sound and the shown content for each cell, in order, whose
    /// state differs from `before`.
    pub fn opened_since(&self, before: &Vec<CellState>) -> (r: Vec<WorldEffect>)
        requires
            before.len() == self@.cells.len(),
        ensures
            r@ == opened_effects(before@, self@.cells, self@.cells.len()),
    {
        let mut r: Vec<WorldEffect> = Vec::new();
        let mut i: usize = 0;
        while i < self.cells.len()
            invariant
                i <= self.cells.len(),
                before.len() == self@.cells.len(),
                r@ == opened_effects(before@, self@.cells, i as nat),
            decreases self.cells.len() - i,
        {
            let cell = self.cells[i];
            if before[i] != cell.state {
                r.push(WorldEffect::PlaySound(SoundKind::Step, cell.pos));
                r.push(WorldEffect::SetBlock(cell.pos, get_num_color(cell.content)));
            }
            i = i + 1;
            assert(r@ =~= opened_effects(before@, self@.cells, i as nat));
        }
        r
    }

    /// Whether every cell is closed.
    pub fn all_closed(&self) -> (r: bool)
        ensures
            r == self@.all_closed(),
    {
        let mut i: usize = 0;
        while i < self.cells.len()
            invariant
                i <= self.cells.len(),
                forall|j: int| 0 <= j < i ==> self@.cells[j].state is Closed,
            decreases self.cells.len() - i,
        {
            if self.cells[i].state != CellState::Closed {
                return false;
            }
            i = i + 1;
        }
        true
    }

    /// Whether every cell without a bomb is open.
    pub fn all_safe_opened(&self) -> (r: bool)
        ensures
            r == self@.all_safe_opened(),
    {
        let mut i: usize = 0;
        while i < self.cells.len()
            invariant
                i <= self.cells.len(),
                forall|j: int|
                    0 <= j < i ==> (self@.cells[j].state is Opened || self@.cells[j].content is Bomb),
            decreases self.cells.len() - i,
        {
            let cell = self.cells[i];
            if cell.state != CellState::Opened && cell.content != CellContent::Bomb {
                return false;
            }
            i = i + 1;
        }
        true
    }

    /// The grid position whose cell lies at a world position, if any.
    pub fn locate(&self, pos: BlockPos) -> (r: Option<Coord>)
        requires
            self@.wf(),
        ensures
            r matches Some(c) ==> self@.contains(c) && self@.cell(c).pos == pos,
            r is None ==> forall|c: Coord| #![trigger self@.cell(c)] self@.contains(c) ==> self@.cell(c).pos != pos,
    {
        let total = self.cells.len();
        let dim = self.dim;
        let layers = self.layers;
        let mut x: usize = 0;
        let mut y: usize = 0;
        let mut z: usize = 0;
        let mut i: usize = 0;
        while i < total
            invariant
                self@.wf(),
                total == self@.cells.len(),
                dim == self@.dim,
                layers == self@.layers,
                i <= total,
                i < total ==> coord_in_grid(dim as int, layers as int, Coord { x, y, z }),
                i < total ==> i == index_of(dim as int, x as int, y as int, z as int),
                forall|c: Coord|
                    #![trigger self@.cell(c)]
                    self@.contains(c) && self@.index(c) < i ==> self@.cell(c).pos != pos,
            decreases total - i,
        {
            let c = Coord { x, y, z };
            if self.cells[i].pos == pos {
                return Some(c);
            }
            proof {
                assert forall|c2: Coord|
                    #![trigger self@.cell(c2)]
                    self@.contains(c2) && self@.index(c2) < i + 1 implies self@.cell(c2).pos != pos by {
                    if self@.index(c2) == i {
                        lemma_index_injective(dim as int, layers as int, c, c2);
                    }
                }
            }
            i = i + 1;
            if x + 1 < dim {
                x = x + 1;
            } else if y + 1 < dim {
                assert(dim * (y + 1 + dim * z) == dim * (y + dim * z) + dim) by (nonlinear_arith);
                x = 0;
                y = y + 1;
            } else {
                assert(dim * (0 + dim * (z + 1)) == dim * (y + dim * z) + dim) by (nonlinear_arith)
                    requires
                        y + 1 == dim,
                ;
                x = 0;
                y = 0;
                z = z + 1;
                if i < total {
                    assert(z < layers) by (nonlinear_arith)
                        requires
                            i == dim * (dim * z),
                            i < dim * dim * layers,
                            0 < dim,
                    ;
                }
            }
        }
        proof {
            assert forall|c: Coord| #![trigger self@.cell(c)] self@.contains(c) implies self@.cell(c).pos != pos by {
                lemma_index_bounds(dim as int, layers as int, c.x as int, c.y as int, c.z as int);
            }
        }
        None
    }

    /// Builds the board that a bomb layout gives: every cell closed, bombs
    /// where the layout says, and every other cell counting its neighbours.
    pub fn from_layout(dim: usize, layers: usize, spacing: i32, anchor: BlockPos, bombs: &Vec<bool>) -> (r: Board)
        requires
            shape_fits(dim as int, layers as int, spacing as int, anchor),
            bombs.len() == dim * dim * layers,
        ensures
            r@.wf(),
            r@.dim == dim,
            r@.layers == layers,
            r@.spacing == spacing,
            r@.anchor == anchor,
            r@.bombs() == bombs@,
            r@.all_closed(),
    {
        let total = bombs.len();
        let mut cells: Vec<Cell> = Vec::new();
        let mut x: usize = 0;
        let mut y: usize = 0;
        let mut z: usize = 0;
        let mut i: usize = 0;
        while i < total
            invariant
                shape_fits(dim as int, layers as int, spacing as int, anchor),
                total == bombs.len() == dim * dim * layers,
                cells.len() == i,
                i <= total,
                i < total ==> coord_in_grid(dim as int, layers as int, Coord { x, y, z }),
                i < total ==> i == index_of(dim as int, x as int, y as int, z as int),
                forall|j: int| 0 <= j < i ==> cells@[j].state is Closed,
                forall|j: int| 0 <= j < i ==> (cells@[j].content is Bomb <==> bombs@[j]),
                forall|j: int|
                    0 <= j < i ==> cells@[j].pos == world_pos(spacing as int, anchor, coord_of(dim as int, j)),
                forall|c: Coord|
                    coord_in_grid(dim as int, layers as int, c) && coord_index(dim as int, c) < i
                        ==> cells@[coord_index(dim as int, c)].content == content_for(
                        dim as int,
                        layers as int,
                        bombs@,
                        c,
                    ) && cells@[coord_index(dim as int, c)].pos == world_pos(
                        spacing as int,
                        anchor,
                        c,
                    ),
            decreases total - i,
        {
            let c = Coord { x, y, z };
            proof {
                lemma_index_bounds(dim as int, layers as int, x as int, y as int, z as int);
            }
            let content = if bombs[i] {
                CellContent::Bomb
            } else {
                let n = count_bombs(dim, layers, bombs, c);
                if n == 0 {
                    CellContent::Empty
                } else {
                    CellContent::Number(n)
                }
            };
            let pos = position_of(spacing, anchor, dim, layers, c);
            cells.push(Cell { content, state: CellState::Closed, pos });
            proof {
                lemma_coord_of_index(dim as int, layers as int, c);
                assert forall|c2: Coord|
                    coord_in_grid(dim as int, layers as int, c2) && coord_index(dim as int, c2) < i
                        + 1 implies cells@[coord_index(dim as int, c2)].content == content_for(
                    dim as int,
                    layers as int,
                    bombs@,
                    c2,
                ) && cells@[coord_index(dim as int, c2)].pos == world_pos(
                    spacing as int,
                    anchor,
                    c2,
                ) by {
                    if coord_index(dim as int, c2) == i {
                        lemma_index_injective(dim as int, layers as int, c, c2);
                    }
                }
            }
            i = i + 1;
            if x + 1 < dim {
                x = x + 1;
            } else if y + 1 < dim {
                assert(dim * (y + 1 + dim * z) == dim * (y + dim * z) + dim) by (nonlinear_arith);
                x = 0;
                y = y + 1;
            } else {
                assert(dim * (0 + dim * (z + 1)) == dim * (y + dim * z) + dim) by (nonlinear_arith)
                    requires
                        y + 1 == dim,
                ;
                x = 0;
                y = 0;
                z = z + 1;
                if i < total {
                    assert(z < layers) by (nonlinear_arith)
                        requires
                            i == dim * (dim * z),
                            i < dim * dim * layers,
                            0 < dim,
                    ;
                }
            }
        }
        let b = Board { dim, layers, spacing, anchor, cells };
        proof {
            reveal(BoardView::numbers_correct);
            assert(b@.cells == cells@);
            assert forall|j: int| 0 <= j < total implies b@.bombs()[j] == bombs@[j] by {
                assert(cells@[j].content is Bomb <==> bombs@[j]);
            }
            assert(b@.bombs() =~= bombs@);
            assert forall|c: Coord| #![trigger b@.cell(c)] b@.contains(c) implies b@.cell(c).content
                == content_for(dim as int, layers as int, b@.bombs(), c) && b@.cell(c).pos
                == b@.pos_of(c) by {
                lemma_index_bounds(dim as int, layers as int, c.x as int, c.y as int, c.z as int);
            }
        }
        b
    }
}

} // verus!
