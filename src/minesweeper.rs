//! The minesweeper game engine: a board together with the game's flags,
//! reacting to clicks and ticks and telling the world what to show.
use vstd::prelude::*;
use crate::board::{
    cover_effects, in_region, lemma_footprint_by_shape, neighbourhood, opened_effects, reveal_effects, shape_fits,
    Board, BoardView,
};
use crate::common::{BlockKind, BlockPos, Cell, CellContent, CellState, SoundKind, WorldEffect};
use crate::grid::{count_true, lemma_count_true_bound, lemma_index_bounds, Coord};

verus! {

/// Who started a game: the entity that stands for them in the world and
/// their account's unique id.
#[derive(PartialEq, Eq, Structural, Copy, Clone, Debug)]
pub struct Player {
    pub entity: u64,
    pub uuid: u128,
}

/// Why a game could not be built.
#[derive(PartialEq, Eq, Structural, Copy, Clone, Debug)]
pub enum BuildGameError {
    /// Some coordinate the game needs is already taken by a block.
    BlocksInTheWay,
}

impl BuildGameError {
    /// The text shown to the player whose game could not be built.
    pub fn message(&self) -> (r: String)
        ensures
            r@ == "Error! There are Blocks in the Way"@,
    {
        "Error! There are Blocks in the Way".to_owned()
    }
}

/// The result of a won minesweeper game, as it is stored.
#[derive(PartialEq, Eq, Structural, Copy, Clone, Debug)]
pub struct MinesweeperRecord {
    /// Columns (and rows) of the board.
    pub size: usize,
    /// 2 for a flat board, 3 for a cube.
    pub dimension: u8,
    /// Ticks from the start until the board was cleared.
    pub comp_time: usize,
    pub bomb_amt: usize,
    /// The player's unique id.
    pub player: u128,
}

/// What a finished game stores: a record for a won game, nothing else.
pub open spec fn won_record(g: MinesweeperView) -> Option<MinesweeperRecord> {
    if g.is_won {
        Some(
            MinesweeperRecord {
                size: g.board.dim as usize,
                dimension: g.dimensions as u8,
                comp_time: g.comp_time as usize,
                bomb_amt: g.bomb_amt as usize,
                player: g.player.uuid,
            },
        )
    } else {
        None
    }
}

/// Ticks during which flag input is ignored after a flag was toggled.
pub const FLAG_COOLDOWN: u8 = 4;

/// Fresh boards tried, at most, to honour a first click.
pub const MAX_REGENERATIONS: u32 = 10000;

/// Layers of a board with this many dimensions and this side length.
pub open spec fn layers_for(dimensions: int, dim: int) -> int {
    if dimensions == 2 {
        1
    } else {
        dim
    }
}

/// World distance between neighbouring cells of a board with this many
/// dimensions: the rooms of a cube are three blocks apart.
pub open spec fn spacing_for(dimensions: int) -> int {
    if dimensions == 2 {
        1
    } else {
        3
    }
}

/// Whether a board of this kind fits the world and memory.
pub open spec fn game_fits(dimensions: int, dim: int, anchor: BlockPos, bomb_amt: int) -> bool {
    &&& dimensions == 2 || dimensions == 3
    &&& shape_fits(dim, layers_for(dimensions, dim), spacing_for(dimensions), anchor)
    &&& dim * dim * layers_for(dimensions, dim) <= usize::MAX
    &&& bomb_amt <= dim * dim * layers_for(dimensions, dim)
}

/// Whether a board leaves room for a first click on `c`: the bombs fit
/// outside the neighbourhood of `c` (`c` and the cells around it).
pub open spec fn first_click_room(b: BoardView, c: Coord, bomb_amt: int) -> bool {
    bomb_amt + neighbourhood(b.dim, b.layers, c).len() <= b.total()
}

/// A game that has just been created at `anchor` for `player`: every cell
/// closed, not built, not finished, no cooldown and no time played.
pub open spec fn fresh_game(g: MinesweeperView, anchor: BlockPos, player: Player) -> bool {
    &&& g.wf()
    &&& g.board.anchor == anchor
    &&& g.board.all_closed()
    &&& g.player == player
    &&& !g.is_build
    &&& !g.should_despawn
    &&& !g.is_over
    &&& !g.is_won
    &&& g.flag_lock == 0
    &&& g.comp_time == 0
}

/// The cell at `c` lies at world position `pos`.
pub open spec fn at_pos(b: BoardView, pos: BlockPos, c: Coord) -> bool {
    b.contains(c) && b.cell(c).pos == pos
}

/// No cell lies at world position `pos`.
pub open spec fn no_cell_at(b: BoardView, pos: BlockPos) -> bool {
    forall|c: Coord| #![trigger b.cell(c)] b.contains(c) ==> b.cell(c).pos != pos
}

/// The cell a victory is announced at.
pub open spec fn center(b: BoardView) -> Coord {
    Coord { x: (b.dim / 2) as usize, y: (b.dim / 2) as usize, z: (b.layers / 2) as usize }
}

/// `after` is `before` with the region of `start` opened and nothing else
/// changed.
pub open spec fn opened_from(before: BoardView, start: Coord, after: BoardView) -> bool {
    &&& after.wf()
    &&& after.same_layout(before)
    &&& forall|v: Coord|
        #![trigger after.cell(v)]
        after.contains(v) ==> if in_region(before, start, v) {
            after.cell(v).state is Opened
        } else {
            after.cell(v).state == before.cell(v).state
        }
}

/// The same board with every cell closed.
pub open spec fn closed_copy(b: BoardView) -> BoardView {
    BoardView {
        cells: Seq::new(b.cells.len(), |i: int| Cell { state: CellState::Closed, ..b.cells[i] }),
        ..b
    }
}

/// A game of minesweeper on a flat or cubic board.
pub struct Minesweeper {
    board: Board,
    dimensions: u8,
    bomb_amt: usize,
    player: Player,
    is_build: bool,
    should_despawn: bool,
    is_over: bool,
    is_won: bool,
    flag_lock: u8,
    comp_time: usize,
}

/// The mathematical picture of a game.
pub struct MinesweeperView {
    pub board: BoardView,
    /// 2 for a flat board, 3 for a cube.
    pub dimensions: int,
    pub bomb_amt: nat,
    pub player: Player,
    pub is_build: bool,
    pub should_despawn: bool,
    pub is_over: bool,
    pub is_won: bool,
    /// Ticks left during which flag input is ignored.
    pub flag_lock: int,
    /// Ticks played while the game was not over.
    pub comp_time: int,
}

impl MinesweeperView {
    pub open spec fn wf(self) -> bool {
        &&& self.board.wf()
        &&& self.dimensions == 2 || self.dimensions == 3
        &&& self.board.layers == layers_for(self.dimensions, self.board.dim)
        &&& self.board.spacing == spacing_for(self.dimensions)
        &&& self.board.bomb_total() == self.bomb_amt
        &&& self.is_won ==> self.is_over && self.board.all_safe_opened()
        &&& 0 <= self.flag_lock <= FLAG_COOLDOWN
    }

    /// Everything but the board, the over and won flags is as in `o`.
    pub open spec fn same_setup(self, o: MinesweeperView) -> bool {
        &&& self.dimensions == o.dimensions
        &&& self.bomb_amt == o.bomb_amt
        &&& self.player == o.player
        &&& self.is_build == o.is_build
        &&& self.should_despawn == o.should_despawn
        &&& self.flag_lock == o.flag_lock
        &&& self.comp_time == o.comp_time
    }

    /// How a click ends, once its cell is handled: the board is `b1`, the
    /// game was lost or not, and the world got `e1`. Unless lost, a board
    /// with every safe cell open is won, with a fanfare at its centre.
    pub open spec fn settles(
        self,
        o: MinesweeperView,
        b1: BoardView,
        lost: bool,
        e1: Seq<WorldEffect>,
        e: Seq<WorldEffect>,
    ) -> bool {
        &&& self.same_setup(o)
        &&& self.board == b1
        &&& if !lost && b1.all_safe_opened() {
            &&& self.is_over
            &&& self.is_won
            &&& e == e1.push(WorldEffect::PlaySound(SoundKind::Victory, b1.pos_of(center(b1))))
        } else {
            &&& self.is_over == lost
            &&& !self.is_won
            &&& e == e1
        }
    }
}

/// A tick of a game in state `o`: the clock runs while the game is not
/// over, and the flag cooldown counts down.
pub open spec fn tick_result(o: MinesweeperView) -> MinesweeperView {
    MinesweeperView {
        comp_time: if !o.is_over && o.comp_time < usize::MAX {
            o.comp_time + 1
        } else {
            o.comp_time
        },
        flag_lock: if o.flag_lock > 0 {
            o.flag_lock - 1
        } else {
            0
        },
        ..o
    }
}

/// What a flag input at `pos` does to a game in state `o`: the game becomes
/// `f` and the world gets `effects`.
pub open spec fn right_click_outcome(
    o: MinesweeperView,
    f: MinesweeperView,
    pos: BlockPos,
    effects: Seq<WorldEffect>,
) -> bool {
    &&& o.flag_lock != 0 || no_cell_at(o.board, pos) ==> f == o && effects.len() == 0
    &&& forall|c: Coord|
        #![trigger o.board.cell(c)]
        o.flag_lock == 0 && at_pos(o.board, pos, c) ==> {
            let s = o.board.cell(c).state;
            if s is Opened {
                f == o && effects.len() == 0
            } else {
                let next = if s is Closed {
                    CellState::Flagged
                } else {
                    CellState::Closed
                };
                let shown = if s is Closed {
                    BlockKind::Flagged
                } else {
                    BlockKind::Unopened
                };
                &&& f == MinesweeperView { board: f.board, flag_lock: FLAG_COOLDOWN as int, ..o }
                &&& f.board.same_layout(o.board)
                &&& f.board.cells == o.board.cells.update(
                    o.board.index(c),
                    Cell { state: next, ..o.board.cell(c) },
                )
                &&& effects == seq![WorldEffect::SetBlock(pos, shown)]
            }
        }
}

/// What a reveal input at `pos` does to a game in state `o`: the game
/// becomes `f` and the world gets `effects`.
pub open spec fn left_click_outcome(
    o: MinesweeperView,
    f: MinesweeperView,
    pos: BlockPos,
    effects: Seq<WorldEffect>,
) -> bool {
    &&& o.is_over && !no_cell_at(o.board, pos) ==> f == (MinesweeperView {
        should_despawn: true,
        ..o
    }) && effects.len() == 0
    &&& o.is_over && no_cell_at(o.board, pos) ==> f == o && effects.len() == 0
    &&& !o.is_over && no_cell_at(o.board, pos) ==> f == o && effects.len() == 0
    &&& forall|c: Coord|
        #![trigger o.board.cell(c)]
        !o.is_over && at_pos(o.board, pos, c) ==> {
            let cell = o.board.cell(c);
            let n = o.board.cells.len();
            if !(cell.state is Closed) {
                f.settles(o, o.board, false, seq![], effects)
            } else if o.board.all_closed() && !(cell.content is Empty) {
                &&& f.board.dim == o.board.dim
                &&& f.board.anchor == o.board.anchor
                &&& f.board.cell(c).content is Empty || f.board.all_closed()
                &&& first_click_room(o.board, c, o.bomb_amt as int) ==> f.board.cell(c).content is Empty
                &&& f.board.cell(c).content is Empty ==> {
                    &&& f.board.cell(c).state is Opened
                    &&& opened_from(closed_copy(f.board), c, f.board)
                    &&& f.settles(
                        o,
                        f.board,
                        false,
                        opened_effects(closed_copy(f.board).states(), f.board.cells, n),
                        effects,
                    )
                }
                &&& !(f.board.cell(c).content is Empty) ==> {
                    &&& f.board.all_closed()
                    &&& f.settles(o, f.board, false, seq![], effects)
                }
            } else if cell.content is Bomb {
                f.settles(
                    o,
                    o.board,
                    true,
                    seq![WorldEffect::PlaySound(SoundKind::Explosion, pos)] + reveal_effects(o.board.cells),
                    effects,
                )
            } else {
                &&& f.board.cell(c).state is Opened
                &&& opened_from(o.board, c, f.board)
                &&& f.settles(o, f.board, false, opened_effects(o.board.states(), f.board.cells, n), effects)
            }
        }
}

/// Two positions of a well-formed board with the same world position are
/// the same position.
pub proof fn lemma_pos_unique(b: BoardView, pos: BlockPos, c1: Coord, c2: Coord)
    requires
        b.wf(),
        at_pos(b, pos, c1),
        at_pos(b, pos, c2),
    ensures
        c1 == c2,
{
    assert(b.cell(c1).pos == b.pos_of(c1));
    assert(b.cell(c2).pos == b.pos_of(c2));
    let k = b.spacing;
    assert(k * c1.x <= k * (b.dim - 1) && k * c2.x <= k * (b.dim - 1) && k * c1.y <= k * (b.dim
        - 1) && k * c2.y <= k * (b.dim - 1) && k * c1.z <= k * (b.layers - 1) && k * c2.z <= k * (
    b.layers - 1)) by (nonlinear_arith)
        requires
            k == 1 || k == 3,
            c1.x < b.dim,
            c2.x < b.dim,
            c1.y < b.dim,
            c2.y < b.dim,
            c1.z < b.layers,
            c2.z < b.layers,
    ;
}

/// A click that does not lose ends in a win exactly when every cell without
/// a bomb is open afterwards.
pub proof fn lemma_won_iff_all_safe_opened(
    o: MinesweeperView,
    f: MinesweeperView,
    b1: BoardView,
    e1: Seq<WorldEffect>,
    e: Seq<WorldEffect>,
)
    requires
        !o.is_over,
        f.settles(o, b1, false, e1, e),
    ensures
        f.is_won <==> f.board.all_safe_opened(),
        f.is_over == f.is_won,
{
}

impl View for Minesweeper {
    type V = MinesweeperView;

    closed spec fn view(&self) -> MinesweeperView {
        MinesweeperView {
            board: self.board@,
            dimensions: self.dimensions as int,
            bomb_amt: self.bomb_amt as nat,
            player: self.player,
            is_build: self.is_build,
            should_despawn: self.should_despawn,
            is_over: self.is_over,
            is_won: self.is_won,
            flag_lock: self.flag_lock as int,
            comp_time: self.comp_time as int,
        }
    }
}

/// Whether any entry is set.
fn any_set(v: &Vec<bool>) -> (r: bool)
    ensures
        r == exists|i: int| 0 <= i < v.len() && v@[i],
{
    let mut i: usize = 0;
    while i < v.len()
        invariant
            i <= v.len(),
            forall|j: int| 0 <= j < i ==> !v@[j],
        decreases v.len() - i,
    {
        if v[i] {
            return true;
        }
        i = i + 1;
    }
    false
}

impl Minesweeper {
    /// The board dimensions of this kind of game.
    fn shape(dimensions: u8, dim: usize) -> (r: (usize, i32))
        requires
            dimensions == 2 || dimensions == 3,
        ensures
            r.0 == layers_for(dimensions as int, dim as int),
            r.1 == spacing_for(dimensions as int),
    {
        if dimensions == 2 {
            (1, 1)
        } else {
            (dim, 3)
        }
    }

    /// A new game on a random board of `bomb_amt` bombs placed at `anchor`.
    pub fn generate(dimensions: u8, dim: usize, anchor: BlockPos, bomb_amt: usize, player: Player) -> (r: Minesweeper)
        requires
            game_fits(dimensions as int, dim as int, anchor, bomb_amt as int),
        ensures
            r@.wf(),
            r@.board.dim == dim,
            r@.board.anchor == anchor,
            r@.board.all_closed(),
            r@.dimensions == dimensions,
            r@.bomb_amt == bomb_amt,
            r@.player == player,
            !r@.is_build && !r@.should_despawn && !r@.is_over && !r@.is_won,
            r@.flag_lock == 0 && r@.comp_time == 0,
    {
        let (layers, spacing) = Self::shape(dimensions, dim);
        let board = Board::generate(dim, layers, spacing, anchor, bomb_amt);
        Minesweeper {
            board,
            dimensions,
            bomb_amt,
            player,
            is_build: false,
            should_despawn: false,
            is_over: false,
            is_won: false,
            flag_lock: 0,
            comp_time: 0,
        }
    }

    /// A new game on the board that a bomb layout gives (`bombs[i]` for the
    /// cell stored at index `i`).
    pub fn with_layout(dimensions: u8, dim: usize, anchor: BlockPos, bombs: &Vec<bool>, player: Player) -> (r: Minesweeper)
        requires
            game_fits(dimensions as int, dim as int, anchor, 0),
            bombs.len() == dim * dim * layers_for(dimensions as int, dim as int),
        ensures
            r@.wf(),
            r@.board.dim == dim,
            r@.board.anchor == anchor,
            r@.board.bombs() == bombs@,
            r@.board.all_closed(),
            r@.dimensions == dimensions,
            r@.bomb_amt == count_true(bombs@),
            r@.player == player,
            !r@.is_build && !r@.should_despawn && !r@.is_over && !r@.is_won,
            r@.flag_lock == 0 && r@.comp_time == 0,
    {
        let (layers, spacing) = Self::shape(dimensions, dim);
        let board = Board::from_layout(dim, layers, spacing, anchor, bombs);
        let mut bomb_amt: usize = 0;
        let mut i: usize = 0;
        while i < bombs.len()
            invariant
                i <= bombs.len(),
                bomb_amt == count_true(bombs@.take(i as int)),
                bomb_amt <= i,
            decreases bombs.len() - i,
        {
            proof {
                assert(bombs@.take(i + 1).drop_last() =~= bombs@.take(i as int));
            }
            if bombs[i] {
                bomb_amt = bomb_amt + 1;
            }
            i = i + 1;
        }
        proof {
            assert(bombs@.take(i as int) =~= bombs@);
        }
        Minesweeper {
            board,
            dimensions,
            bomb_amt,
            player,
            is_build: false,
            should_despawn: false,
            is_over: false,
            is_won: false,
            flag_lock: 0,
            comp_time: 0,
        }
    }

    /// The world position of each cell, in storage order.
    pub fn footprint(&self) -> (r: Vec<BlockPos>)
        ensures
            r@ == self@.board.footprint(),
    {
        self.board.footprint()
    }

    /// Builds the board into the world: fails without changing anything when
    /// any of its coordinates is taken (`occupied[i]` tells whether the
    /// coordinate `footprint()[i]` holds a block), else covers every cell.
    pub fn build_blocks(&mut self, occupied: &Vec<bool>) -> (r: Result<Vec<WorldEffect>, BuildGameError>)
        requires
            old(self)@.wf(),
            occupied.len() == old(self)@.board.cells.len(),
        ensures
            final(self)@.wf(),
            (exists|i: int| 0 <= i < occupied.len() && occupied@[i]) ==> r == Err::<
                Vec<WorldEffect>,
                BuildGameError,
            >(BuildGameError::BlocksInTheWay) && final(self)@ == old(self)@,
            (forall|i: int| 0 <= i < occupied.len() ==> !occupied@[i]) ==> (r matches Ok(e) && e@
                == cover_effects(old(self)@.board.cells, BlockKind::Unopened) && e@ == Seq::new(
                old(self)@.board.footprint().len(),
                |i: int| WorldEffect::SetBlock(old(self)@.board.footprint()[i], BlockKind::Unopened),
            ) && final(self)@ == (MinesweeperView { is_build: true, ..old(self)@ })),
    {
        if any_set(occupied) {
            return Err(BuildGameError::BlocksInTheWay);
        }
        let effects = self.board.cover(BlockKind::Unopened);
        assert(effects@ =~= Seq::new(
            self@.board.footprint().len(),
            |i: int| WorldEffect::SetBlock(self@.board.footprint()[i], BlockKind::Unopened),
        ));
        self.is_build = true;
        Ok(effects)
    }

    /// One server tick: the clock runs while the game is not over and the
    /// flag cooldown counts down.
    pub fn tick(&mut self)
        requires
            old(self)@.wf(),
        ensures
            final(self)@ == tick_result(old(self)@),
            final(self)@.wf(),
    {
        if !self.is_over && self.comp_time < usize::MAX {
            self.comp_time = self.comp_time + 1;
        }
        if self.flag_lock > 0 {
            self.flag_lock = self.flag_lock - 1;
        }
    }

    /// The flag input: while the cooldown runs nothing happens; otherwise a
    /// closed cell at `pos` gets a flag, a flagged one loses it, and any cell
    /// at `pos` restarts the cooldown.
    pub fn click_right(&mut self, pos: BlockPos) -> (effects: Vec<WorldEffect>)
        requires
            old(self)@.wf(),
        ensures
            final(self)@.wf(),
            final(self)@.board.footprint() == old(self)@.board.footprint(),
            right_click_outcome(old(self)@, final(self)@, pos, effects@),
    {
        let mut effects: Vec<WorldEffect> = Vec::new();
        if self.flag_lock != 0 {
            return effects;
        }
        match self.board.locate(pos) {
            None => effects,
            Some(c) => {
                proof {
                    assert forall|c2: Coord| #![trigger self@.board.cell(c2)] at_pos(self@.board, pos, c2) implies c2 == c by {
                        lemma_pos_unique(self@.board, pos, c, c2);
                    }
                }
                let cell = self.board.cell(c);
                if cell.state == CellState::Closed {
                    self.flag_lock = FLAG_COOLDOWN;
                    self.board.set_state(c, CellState::Flagged);
                    effects.push(WorldEffect::SetBlock(pos, BlockKind::Flagged));
                } else if cell.state == CellState::Flagged {
                    self.flag_lock = FLAG_COOLDOWN;
                    self.board.set_state(c, CellState::Closed);
                    effects.push(WorldEffect::SetBlock(pos, BlockKind::Unopened));
                }
                proof {
                    assert(self@.board.footprint() =~= old(self)@.board.footprint());
                    if self.is_won {
                        assert(self@.board.all_safe_opened()) by {
                            let o = old(self)@.board;
                            lemma_index_bounds(o.dim, o.layers, c.x as int, c.y as int, c.z as int);
                            assert forall|i: int| 0 <= i < self@.board.cells.len() implies (self@.board.cells[i].state is Opened
                                || self@.board.cells[i].content is Bomb) by {
                                assert(o.cells[i].state is Opened || o.cells[i].content is Bomb);
                            }
                        }
                    }
                }
                effects
            },
        }
    }

    /// Tries fresh random boards until the one at hand has no bombs around
    /// `c`. After `MAX_REGENERATIONS` boards it places the bombs in storage
    /// order outside the neighbourhood of `c` instead, where the board
    /// leaves room for that;
    /// reports whether `c` ends without bombs around it.
    fn regenerate_around(&mut self, c: Coord) -> (found: bool)
        requires
            old(self)@.wf(),
            !old(self)@.is_won,
            old(self)@.board.contains(c),
        ensures
            final(self)@.wf(),
            final(self)@.board.all_closed(),
            final(self)@.board.dim == old(self)@.board.dim,
            final(self)@.board.anchor == old(self)@.board.anchor,
            final(self)@ == (MinesweeperView { board: final(self)@.board, ..old(self)@ }),
            found <==> final(self)@.board.cell(c).content is Empty,
            first_click_room(old(self)@.board, c, old(self)@.bomb_amt as int) ==> found,
    {
        let dim = self.board.dim();
        let layers = self.board.layers();
        let anchor = self.board.anchor();
        let (l, spacing) = Self::shape(self.dimensions, dim);
        let total = self.board.len();
        proof {
            let b = self@.board;
            lemma_count_true_bound(b.bombs());
            lemma_index_bounds(b.dim, b.layers, 0, 0, 0);
        }
        let mut attempts: u32 = 0;
        let mut board = Board::generate(dim, layers, spacing, anchor, self.bomb_amt);
        while board.cell(c).content != CellContent::Empty && attempts < MAX_REGENERATIONS
            invariant
                board@.wf(),
                board@.all_closed(),
                board@.dim == dim,
                board@.layers == layers,
                board@.spacing == spacing,
                board@.anchor == anchor,
                board@.bomb_total() == self.bomb_amt,
                board@.contains(c),
                shape_fits(dim as int, layers as int, spacing as int, anchor),
                dim * dim * layers <= usize::MAX,
                self.bomb_amt <= dim * dim * layers,
            decreases MAX_REGENERATIONS - attempts,
        {
            board = Board::generate(dim, layers, spacing, anchor, self.bomb_amt);
            attempts = attempts + 1;
        }
        if board.cell(c).content != CellContent::Empty && self.has_room(c, total) {
            board = Board::with_clear_cell(dim, layers, spacing, anchor, self.bomb_amt, c);
        }
        let found = board.cell(c).content == CellContent::Empty;
        self.board = board;
        found
    }

    /// Whether the board leaves room for a first click.
    fn has_room(&self, c: Coord, total: usize) -> (r: bool)
        requires
            self@.wf(),
            self@.board.contains(c),
            total == self@.board.cells.len(),
        ensures
            r == first_click_room(self@.board, c, self@.bomb_amt as int),
    {
        let size = self.board.neighbourhood_size(c);
        self.bomb_amt <= total && size <= total - self.bomb_amt
    }

    /// The reveal input. On a finished game it asks for the game to be
    /// removed. Otherwise, on the cell at `pos`: a bomb loses the game and
    /// shows every cell; any other closed cell opens with its region. The
    /// first click of a game (every cell closed) on a cell with bombs around
    /// it is not taken: the board is generated afresh until that cell has
    /// none, and the click then opens its region. Should `MAX_REGENERATIONS`
    /// random boards all have bombs around it, the bombs are placed in
    /// storage order outside its neighbourhood, which a board with room for
    /// that (`first_click_room`) always allows; on a board without room the
    /// last random board stays, closed. A click that leaves every safe cell
    /// open wins.
    #[verifier::rlimit(100)]
    #[verifier::spinoff_prover]
    pub fn click_left(&mut self, pos: BlockPos) -> (effects: Vec<WorldEffect>)
        requires
            old(self)@.wf(),
        ensures
            final(self)@.wf(),
            final(self)@.board.footprint() == old(self)@.board.footprint(),
            left_click_outcome(old(self)@, final(self)@, pos, effects@),
    {
        let loc = self.board.locate(pos);
        if self.is_over {
            if loc.is_some() {
                self.should_despawn = true;
            }
            return Vec::new();
        }
        let c = match loc {
            None => {
                return Vec::new();
            },
            Some(c) => c,
        };
        proof {
            assert forall|c2: Coord| #![trigger self@.board.cell(c2)] at_pos(self@.board, pos, c2) implies c2 == c by {
                lemma_pos_unique(self@.board, pos, c, c2);
            }
        }
        let ghost o = self@;
        let cell = self.board.cell(c);
        let mut effects: Vec<WorldEffect> = Vec::new();
        if cell.state == CellState::Closed {
            if cell.content != CellContent::Empty && self.board.all_closed() {
                let found = self.regenerate_around(c);
                proof {
                    lemma_footprint_by_shape(o.board, self@.board);
                }
                if found {
                let ghost fresh = self@.board;
                proof {
                    lemma_index_bounds(fresh.dim, fresh.layers, c.x as int, c.y as int, c.z as int);
                    assert(fresh.cells[fresh.index(c)].state is Closed);
                }
                let before = self.board.states();
                self.board.open_region(c);
                effects = self.board.opened_since(&before);
                proof {
                    let f = self@.board;
                    assert(closed_copy(f).cells =~= fresh.cells) by {
                        assert forall|i: int| 0 <= i < fresh.cells.len() implies closed_copy(f).cells[i] == fresh.cells[i] by {
                            assert(f.cells[i].content == fresh.cells[i].content);
                        }
                    }
                    assert(closed_copy(f) == fresh);
                    assert(before@ == fresh.states());
                    lemma_index_bounds(f.dim, f.layers, c.x as int, c.y as int, c.z as int);
                    assert(f.cells[f.index(c)].content == fresh.cells[f.index(c)].content);
                }
                }
            } else if cell.content == CellContent::Bomb {
                effects.push(WorldEffect::PlaySound(SoundKind::Explosion, pos));
                let mut shown = self.board.reveal_all();
                effects.append(&mut shown);
                self.is_over = true;
                return effects;
            } else {
                let before = self.board.states();
                self.board.open_region(c);
                effects = self.board.opened_since(&before);
            }
        }
        proof {
            assert(self@.board.footprint() =~= o.board.footprint());
        }
        proof {
            if self.is_won {
                assert(o.board.all_safe_opened());
                assert(self@.board.all_safe_opened()) by {
                    let f = self@.board;
                    assert forall|i: int| 0 <= i < f.cells.len() implies (f.cells[i].state is Opened
                        || f.cells[i].content is Bomb) by {
                        assert(o.board.cells[i].state is Opened || o.board.cells[i].content is Bomb);
                    }
                }
            }
        }
        if !self.is_over && self.board.all_safe_opened() {
            let dim = self.board.dim();
            let layers = self.board.layers();
            let mid = Coord { x: dim / 2, y: dim / 2, z: layers / 2 };
            let middle = self.board.cell(mid);
            effects.push(WorldEffect::PlaySound(SoundKind::Victory, middle.pos));
            self.is_over = true;
            self.is_won = true;
        }
        effects
    }

    /// Tears the game down: clears every cell's coordinate and, for a won
    /// game, gives the record to store.
    pub fn reset(&self) -> (r: (Vec<WorldEffect>, Option<MinesweeperRecord>))
        requires
            self@.wf(),
        ensures
            r.0@ == cover_effects(self@.board.cells, BlockKind::Air),
            r.0@ == Seq::new(
                self@.board.footprint().len(),
                |i: int| WorldEffect::SetBlock(self@.board.footprint()[i], BlockKind::Air),
            ),
            r.1 == won_record(self@),
    {
        let effects = self.board.cover(BlockKind::Air);
        assert(effects@ =~= Seq::new(
            self@.board.footprint().len(),
            |i: int| WorldEffect::SetBlock(self@.board.footprint()[i], BlockKind::Air),
        ));
        let record = if self.is_won {
            Some(
                MinesweeperRecord {
                    size: self.board.dim(),
                    dimension: self.dimensions,
                    comp_time: self.comp_time,
                    bomb_amt: self.bomb_amt,
                    player: self.player.uuid,
                },
            )
        } else {
            None
        };
        (effects, record)
    }

    pub fn should_despawn(&self) -> (r: bool)
        ensures
            r == self@.should_despawn,
    {
        self.should_despawn
    }

    pub fn is_built(&self) -> (r: bool)
        ensures
            r == self@.is_build,
    {
        self.is_build
    }

    pub fn get_player(&self) -> (r: Player)
        ensures
            r == self@.player,
    {
        self.player
    }

    pub fn is_over(&self) -> (r: bool)
        ensures
            r == self@.is_over,
    {
        self.is_over
    }

    pub fn is_won(&self) -> (r: bool)
        ensures
            r == self@.is_won,
    {
        self.is_won
    }

    pub fn comp_time(&self) -> (r: usize)
        ensures
            r == self@.comp_time,
    {
        self.comp_time
    }

    pub fn flag_lock(&self) -> (r: u8)
        ensures
            r == self@.flag_lock,
    {
        self.flag_lock
    }

    pub fn board(&self) -> (r: &Board)
        ensures
            r@ == self@.board,
    {
        &self.board
    }
}

} // verus!
