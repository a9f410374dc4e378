//! The lifecycle every minigame follows, the two minesweeper games, and the
//! closed set of games a server runs.
use vstd::prelude::*;
use crate::common::{BlockKind, BlockPos, WorldEffect};
use crate::minesweeper::{
    fresh_game, game_fits, left_click_outcome, right_click_outcome, tick_result, won_record, BuildGameError,
    Minesweeper, MinesweeperRecord, MinesweeperView, Player,
};
use crate::repeat_sequence::{
    RsgView, rsg_build_effects, rsg_click_outcome, rsg_tick_outcome, RepeatSequenceGame, RsgRecord,
};

verus! {

/// Clears every coordinate of a footprint.
pub open spec fn clear_effects(footprint: Seq<BlockPos>) -> Seq<WorldEffect> {
    Seq::new(footprint.len(), |i: int| WorldEffect::SetBlock(footprint[i], BlockKind::Air))
}

/// Covers every coordinate of a footprint with unopened blocks.
pub open spec fn build_effects(footprint: Seq<BlockPos>) -> Seq<WorldEffect> {
    Seq::new(footprint.len(), |i: int| WorldEffect::SetBlock(footprint[i], BlockKind::Unopened))
}

/// What a finished game stores.
#[derive(PartialEq, Eq, Structural, Copy, Clone, Debug)]
pub enum GameRecord {
    Minesweeper(MinesweeperRecord),
    RepeatSequence(RsgRecord),
}

/// A minesweeper record, as a game record.
pub open spec fn as_game_record(r: Option<MinesweeperRecord>) -> Option<GameRecord> {
    match r {
        Some(rec) => Some(GameRecord::Minesweeper(rec)),
        None => None,
    }
}

/// The capabilities of a minigame: it is built into the world, ticked,
/// clicked, and finally torn down.
pub trait CustomGame: Sized {
    /// The game's own invariant.
    spec fn inv(&self) -> bool;

    /// The world coordinates the game occupies.
    spec fn footprint_view(&self) -> Seq<BlockPos>;

    /// Whether the game asks to be removed.
    spec fn despawn_view(&self) -> bool;

    /// Whether the game stands in the world.
    spec fn built_view(&self) -> bool;

    /// Who started the game.
    spec fn player_view(&self) -> Player;

    /// What tearing the game down stores.
    spec fn record_view(&self) -> Option<GameRecord>;

    /// What building the game writes into the world.
    spec fn build_view(&self) -> Seq<WorldEffect>;

    /// Building took the game to `after`: unchanged when refused (`built`
    /// false), otherwise the same game, now standing in the world.
    spec fn build_post(&self, after: Self, built: bool) -> bool;

    /// A tick takes the game to `after` and asks the world for `effects`.
    spec fn tick_post(&self, after: Self, effects: Seq<WorldEffect>) -> bool;

    /// A primary click at `pos` by `player` takes the game to `after` and
    /// asks the world for `effects`.
    spec fn left_click_post(&self, after: Self, pos: BlockPos, player: u64, effects: Seq<WorldEffect>) -> bool;

    /// A secondary click at `pos` by `player` takes the game to `after` and
    /// asks the world for `effects`.
    spec fn right_click_post(&self, after: Self, pos: BlockPos, player: u64, effects: Seq<WorldEffect>) -> bool;

    /// Builds the game into the world: refuses, changing nothing, when any
    /// coordinate is taken (`occupied[i]` for `footprint()[i]`).
    fn build_blocks(&mut self, occupied: &Vec<bool>) -> (r: Result<Vec<WorldEffect>, BuildGameError>)
        requires
            old(self).inv(),
            occupied.len() == old(self).footprint_view().len(),
        ensures
            final(self).inv(),
            final(self).footprint_view() == old(self).footprint_view(),
            final(self).player_view() == old(self).player_view(),
            final(self).despawn_view() == old(self).despawn_view(),
            (exists|i: int| 0 <= i < occupied.len() && occupied@[i]) ==> r == Err::<
                Vec<WorldEffect>,
                BuildGameError,
            >(BuildGameError::BlocksInTheWay) && final(self).built_view() == old(
                self,
            ).built_view(),
            (forall|i: int| 0 <= i < occupied.len() ==> !occupied@[i]) ==> (r matches Ok(e) && e@
                == old(self).build_view() && final(self).built_view()),
            old(self).build_post(*final(self), r is Ok),
    ;

    /// One server tick; returns what the game asks of the world.
    fn tick(&mut self) -> (effects: Vec<WorldEffect>)
        requires
            old(self).inv(),
        ensures
            final(self).inv(),
            old(self).tick_post(*final(self), effects@),
            final(self).footprint_view() == old(self).footprint_view(),
            final(self).player_view() == old(self).player_view(),
            final(self).built_view() == old(self).built_view(),
    ;

    /// The secondary ("right click") input at a world position.
    fn click_right(&mut self, click_pos: BlockPos, player: u64) -> (effects: Vec<WorldEffect>)
        requires
            old(self).inv(),
        ensures
            final(self).inv(),
            old(self).right_click_post(*final(self), click_pos, player, effects@),
            final(self).footprint_view() == old(self).footprint_view(),
            final(self).player_view() == old(self).player_view(),
            final(self).built_view() == old(self).built_view(),
    ;

    /// The primary ("left click") input at a world position.
    fn click_left(&mut self, click_pos: BlockPos, player: u64) -> (effects: Vec<WorldEffect>)
        requires
            old(self).inv(),
        ensures
            final(self).inv(),
            old(self).left_click_post(*final(self), click_pos, player, effects@),
            final(self).footprint_view() == old(self).footprint_view(),
            final(self).player_view() == old(self).player_view(),
            final(self).built_view() == old(self).built_view(),
    ;

    /// Tears the game down: clears its footprint and hands over what to
    /// store.
    fn reset(&self) -> (r: (Vec<WorldEffect>, Option<GameRecord>))
        requires
            self.inv(),
        ensures
            r.0@ == clear_effects(self.footprint_view()),
            r.1 == self.record_view(),
    ;

    fn should_despawn(&self) -> (r: bool)
        ensures
            r == self.despawn_view(),
    ;

    fn is_built(&self) -> (r: bool)
        ensures
            r == self.built_view(),
    ;

    fn get_player(&self) -> (r: Player)
        ensures
            r == self.player_view(),
    ;

    fn footprint(&self) -> (r: Vec<BlockPos>)
        ensures
            r@ == self.footprint_view(),
    ;
}

/// Bombs on a flat board.
pub const BOMB_AMT: usize = 40;

/// Bombs in a cube.
pub const BOMB_AMT_3D: usize = 130;

/// Minesweeper on a flat `DIM` by `DIM` board.
pub struct MineSweeperGame<const DIM: usize> {
    /// The engine; `inv` ties it to a flat `DIM` by `DIM` board.
    pub game: Minesweeper,
}

/// Minesweeper in a `DIM` by `DIM` by `DIM` cube.
pub struct MineSweeperGame3d<const DIM: usize> {
    /// The engine; `inv` ties it to a `DIM` cube.
    pub game: Minesweeper,
}

impl<const DIM: usize> MineSweeperGame<DIM> {
    /// The engine's picture of the game.
    pub open spec fn engine_view(&self) -> MinesweeperView {
        self.game@
    }

    pub open spec fn fits(pos: BlockPos, bomb_amt: int) -> bool {
        game_fits(2, DIM as int, pos, bomb_amt)
    }

    /// A new game at `pos` with the usual number of bombs.
    pub fn new(pos: BlockPos, player: Player) -> (r: Self)
        requires
            Self::fits(pos, BOMB_AMT as int),
        ensures
            r.inv(),
            fresh_game(r.engine_view(), pos, player),
            r.engine_view().bomb_amt == BOMB_AMT,
            r.engine_view().board.bomb_total() == BOMB_AMT,
    {
        Self::with_bombs(pos, player, BOMB_AMT)
    }

    /// A new game at `pos` with `bomb_amt` bombs.
    pub fn with_bombs(pos: BlockPos, player: Player, bomb_amt: usize) -> (r: Self)
        requires
            Self::fits(pos, bomb_amt as int),
        ensures
            r.inv(),
            fresh_game(r.engine_view(), pos, player),
            r.engine_view().bomb_amt == bomb_amt,
            r.engine_view().board.bomb_total() == bomb_amt,
    {
        MineSweeperGame { game: Minesweeper::generate(2, DIM, pos, bomb_amt, player) }
    }

    /// A new game at `pos` with bombs where `bombs` says (`bombs[x + DIM * y]`
    /// for column `x`, row `y`).
    pub fn with_layout(pos: BlockPos, player: Player, bombs: &Vec<bool>) -> (r: Self)
        requires
            Self::fits(pos, 0),
            bombs.len() == DIM * DIM,
        ensures
            r.inv(),
            fresh_game(r.engine_view(), pos, player),
            r.engine_view().board.bombs() == bombs@,
    {
        MineSweeperGame { game: Minesweeper::with_layout(2, DIM, pos, bombs, player) }
    }

    /// The game engine underneath.
    pub fn engine(&self) -> (r: &Minesweeper)
        ensures
            r@ == self.engine_view(),
    {
        &self.game
    }
}

impl<const DIM: usize> MineSweeperGame3d<DIM> {
    /// The engine's picture of the game.
    pub open spec fn engine_view(&self) -> MinesweeperView {
        self.game@
    }

    pub open spec fn fits(pos: BlockPos, bomb_amt: int) -> bool {
        game_fits(3, DIM as int, pos, bomb_amt)
    }

    /// A new game at `pos` with the usual number of bombs.
    pub fn new(pos: BlockPos, player: Player) -> (r: Self)
        requires
            Self::fits(pos, BOMB_AMT_3D as int),
        ensures
            r.inv(),
            fresh_game(r.engine_view(), pos, player),
            r.engine_view().bomb_amt == BOMB_AMT_3D,
            r.engine_view().board.bomb_total() == BOMB_AMT_3D,
    {
        Self::with_bombs(pos, player, BOMB_AMT_3D)
    }

    /// A new game at `pos` with `bomb_amt` bombs.
    pub fn with_bombs(pos: BlockPos, player: Player, bomb_amt: usize) -> (r: Self)
        requires
            Self::fits(pos, bomb_amt as int),
        ensures
            r.inv(),
            fresh_game(r.engine_view(), pos, player),
            r.engine_view().bomb_amt == bomb_amt,
            r.engine_view().board.bomb_total() == bomb_amt,
    {
        MineSweeperGame3d { game: Minesweeper::generate(3, DIM, pos, bomb_amt, player) }
    }

    /// A new game at `pos` with bombs where `bombs` says (`bombs[x + DIM * (y
    /// + DIM * z)]` for column `x`, row `y`, layer `z`).
    pub fn with_layout(pos: BlockPos, player: Player, bombs: &Vec<bool>) -> (r: Self)
        requires
            Self::fits(pos, 0),
            bombs.len() == DIM * DIM * DIM,
        ensures
            r.inv(),
            fresh_game(r.engine_view(), pos, player),
            r.engine_view().board.bombs() == bombs@,
    {
        MineSweeperGame3d { game: Minesweeper::with_layout(3, DIM, pos, bombs, player) }
    }

    /// The game engine underneath.
    pub fn engine(&self) -> (r: &Minesweeper)
        ensures
            r@ == self.engine_view(),
    {
        &self.game
    }
}


impl<const DIM: usize> CustomGame for MineSweeperGame<DIM> {
    open spec fn build_post(&self, after: Self, built: bool) -> bool {
        after.game@ == if built {
            MinesweeperView { is_build: true, ..self.game@ }
        } else {
            self.game@
        }
    }

    open spec fn tick_post(&self, after: Self, effects: Seq<WorldEffect>) -> bool {
        after.game@ == tick_result(self.game@) && effects.len() == 0
    }

    open spec fn left_click_post(&self, after: Self, pos: BlockPos, player: u64, effects: Seq<WorldEffect>) -> bool {
        left_click_outcome(self.game@, after.game@, pos, effects)
    }

    open spec fn right_click_post(&self, after: Self, pos: BlockPos, player: u64, effects: Seq<WorldEffect>) -> bool {
        right_click_outcome(self.game@, after.game@, pos, effects)
    }

    open spec fn inv(&self) -> bool {
        &&& self.game@.wf()
        &&& self.game@.dimensions == 2
        &&& self.game@.board.dim == DIM
    }

    open spec fn footprint_view(&self) -> Seq<BlockPos> {
        self.game@.board.footprint()
    }

    open spec fn despawn_view(&self) -> bool {
        self.game@.should_despawn
    }

    open spec fn built_view(&self) -> bool {
        self.game@.is_build
    }

    open spec fn player_view(&self) -> Player {
        self.game@.player
    }

    open spec fn record_view(&self) -> Option<GameRecord> {
        as_game_record(won_record(self.game@))
    }

    open spec fn build_view(&self) -> Seq<WorldEffect> {
        build_effects(self.game@.board.footprint())
    }

    fn build_blocks(&mut self, occupied: &Vec<bool>) -> (r: Result<Vec<WorldEffect>, BuildGameError>) {
        self.game.build_blocks(occupied)
    }

    fn tick(&mut self) -> (effects: Vec<WorldEffect>) {
        self.game.tick();
        Vec::new()
    }

    fn click_right(&mut self, click_pos: BlockPos, player: u64) -> (effects: Vec<WorldEffect>) {
        self.game.click_right(click_pos)
    }

    fn click_left(&mut self, click_pos: BlockPos, player: u64) -> (effects: Vec<WorldEffect>) {
        self.game.click_left(click_pos)
    }

    fn reset(&self) -> (r: (Vec<WorldEffect>, Option<GameRecord>)) {
        let (effects, record) = self.game.reset();
        let record = match record {
            Some(rec) => Some(GameRecord::Minesweeper(rec)),
            None => None,
        };
        (effects, record)
    }

    fn should_despawn(&self) -> (r: bool) {
        self.game.should_despawn()
    }

    fn is_built(&self) -> (r: bool) {
        self.game.is_built()
    }

    fn get_player(&self) -> (r: Player) {
        self.game.get_player()
    }

    fn footprint(&self) -> (r: Vec<BlockPos>) {
        self.game.footprint()
    }
}

impl<const DIM: usize> CustomGame for MineSweeperGame3d<DIM> {
    open spec fn build_post(&self, after: Self, built: bool) -> bool {
        after.game@ == if built {
            MinesweeperView { is_build: true, ..self.game@ }
        } else {
            self.game@
        }
    }

    open spec fn tick_post(&self, after: Self, effects: Seq<WorldEffect>) -> bool {
        after.game@ == tick_result(self.game@) && effects.len() == 0
    }

    open spec fn left_click_post(&self, after: Self, pos: BlockPos, player: u64, effects: Seq<WorldEffect>) -> bool {
        left_click_outcome(self.game@, after.game@, pos, effects)
    }

    open spec fn right_click_post(&self, after: Self, pos: BlockPos, player: u64, effects: Seq<WorldEffect>) -> bool {
        right_click_outcome(self.game@, after.game@, pos, effects)
    }

    open spec fn inv(&self) -> bool {
        &&& self.game@.wf()
        &&& self.game@.dimensions == 3
        &&& self.game@.board.dim == DIM
    }

    open spec fn footprint_view(&self) -> Seq<BlockPos> {
        self.game@.board.footprint()
    }

    open spec fn despawn_view(&self) -> bool {
        self.game@.should_despawn
    }

    open spec fn built_view(&self) -> bool {
        self.game@.is_build
    }

    open spec fn player_view(&self) -> Player {
        self.game@.player
    }

    open spec fn record_view(&self) -> Option<GameRecord> {
        as_game_record(won_record(self.game@))
    }

    open spec fn build_view(&self) -> Seq<WorldEffect> {
        build_effects(self.game@.board.footprint())
    }

    fn build_blocks(&mut self, occupied: &Vec<bool>) -> (r: Result<Vec<WorldEffect>, BuildGameError>) {
        self.game.build_blocks(occupied)
    }

    fn tick(&mut self) -> (effects: Vec<WorldEffect>) {
        self.game.tick();
        Vec::new()
    }

    fn click_right(&mut self, click_pos: BlockPos, player: u64) -> (effects: Vec<WorldEffect>) {
        self.game.click_right(click_pos)
    }

    fn click_left(&mut self, click_pos: BlockPos, player: u64) -> (effects: Vec<WorldEffect>) {
        self.game.click_left(click_pos)
    }

    fn reset(&self) -> (r: (Vec<WorldEffect>, Option<GameRecord>)) {
        let (effects, record) = self.game.reset();
        let record = match record {
            Some(rec) => Some(GameRecord::Minesweeper(rec)),
            None => None,
        };
        (effects, record)
    }

    fn should_despawn(&self) -> (r: bool) {
        self.game.should_despawn()
    }

    fn is_built(&self) -> (r: bool) {
        self.game.is_built()
    }

    fn get_player(&self) -> (r: Player) {
        self.game.get_player()
    }

    fn footprint(&self) -> (r: Vec<BlockPos>) {
        self.game.footprint()
    }
}


impl<const DIM: usize> CustomGame for RepeatSequenceGame<DIM> {
    open spec fn build_post(&self, after: Self, built: bool) -> bool {
        after@ == if built {
            RsgView { is_build: true, ..self@ }
        } else {
            self@
        }
    }

    open spec fn tick_post(&self, after: Self, effects: Seq<WorldEffect>) -> bool {
        rsg_tick_outcome(DIM as int, self@, after@, effects)
    }

    open spec fn left_click_post(&self, after: Self, pos: BlockPos, player: u64, effects: Seq<WorldEffect>) -> bool {
        after@ == self@ && effects.len() == 0
    }

    open spec fn right_click_post(&self, after: Self, pos: BlockPos, player: u64, effects: Seq<WorldEffect>) -> bool {
        rsg_click_outcome(self@, after@, pos, player, effects)
    }

    open spec fn inv(&self) -> bool {
        self@.wf(DIM as int)
    }

    open spec fn footprint_view(&self) -> Seq<BlockPos> {
        self@.walls + self@.buttons
    }

    open spec fn despawn_view(&self) -> bool {
        self@.should_despawn
    }

    open spec fn built_view(&self) -> bool {
        self@.is_build
    }

    open spec fn player_view(&self) -> Player {
        self@.player
    }

    open spec fn record_view(&self) -> Option<GameRecord> {
        Some(
            GameRecord::RepeatSequence(
                RsgRecord {
                    size: DIM,
                    streak: self@.sequence.len() as usize,
                    player: self@.player.uuid,
                },
            ),
        )
    }

    open spec fn build_view(&self) -> Seq<WorldEffect> {
        rsg_build_effects(self@)
    }

    fn build_blocks(&mut self, occupied: &Vec<bool>) -> (r: Result<Vec<WorldEffect>, BuildGameError>) {
        RepeatSequenceGame::build_blocks(self, occupied)
    }

    fn tick(&mut self) -> (effects: Vec<WorldEffect>) {
        RepeatSequenceGame::tick(self)
    }

    fn click_right(&mut self, click_pos: BlockPos, player: u64) -> (effects: Vec<WorldEffect>) {
        self.click(click_pos, player)
    }

    fn click_left(&mut self, click_pos: BlockPos, player: u64) -> (effects: Vec<WorldEffect>) {
        Vec::new()
    }

    fn reset(&self) -> (r: (Vec<WorldEffect>, Option<GameRecord>)) {
        let (effects, record) = RepeatSequenceGame::reset(self);
        proof {
            assert(effects@ =~= clear_effects(self@.walls + self@.buttons));
        }
        (effects, Some(GameRecord::RepeatSequence(record)))
    }

    fn should_despawn(&self) -> (r: bool) {
        RepeatSequenceGame::should_despawn(self)
    }

    fn is_built(&self) -> (r: bool) {
        RepeatSequenceGame::is_built(self)
    }

    fn get_player(&self) -> (r: Player) {
        RepeatSequenceGame::get_player(self)
    }

    fn footprint(&self) -> (r: Vec<BlockPos>) {
        RepeatSequenceGame::footprint(self)
    }
}

/// The games a server runs: a closed set, one variant per kind.
pub enum CustomGameContainer {
    /// Flat minesweeper on a board of twenty by twenty.
    Minesweeper(MineSweeperGame<20>),
    /// Cubic minesweeper on a board of ten by ten by ten.
    Minesweeper3d(MineSweeperGame3d<10>),
    /// Repeat-sequence on a wall of five by five.
    RepeatSequence5(RepeatSequenceGame<5>),
    /// Repeat-sequence on a wall of seven by seven.
    RepeatSequence7(RepeatSequenceGame<7>),
}

impl CustomGame for CustomGameContainer {
    open spec fn build_post(&self, after: Self, built: bool) -> bool {
        match (self, after) {
            (CustomGameContainer::Minesweeper(g), CustomGameContainer::Minesweeper(h)) => g.build_post(h, built),
            (CustomGameContainer::Minesweeper3d(g), CustomGameContainer::Minesweeper3d(h)) => g.build_post(h, built),
            (CustomGameContainer::RepeatSequence5(g), CustomGameContainer::RepeatSequence5(h)) => g.build_post(h, built),
            (CustomGameContainer::RepeatSequence7(g), CustomGameContainer::RepeatSequence7(h)) => g.build_post(h, built),
            _ => false,
        }
    }

    open spec fn tick_post(&self, after: Self, effects: Seq<WorldEffect>) -> bool {
        match (self, after) {
            (CustomGameContainer::Minesweeper(g), CustomGameContainer::Minesweeper(h)) => g.tick_post(h, effects),
            (CustomGameContainer::Minesweeper3d(g), CustomGameContainer::Minesweeper3d(h)) => g.tick_post(h, effects),
            (CustomGameContainer::RepeatSequence5(g), CustomGameContainer::RepeatSequence5(h)) => g.tick_post(h, effects),
            (CustomGameContainer::RepeatSequence7(g), CustomGameContainer::RepeatSequence7(h)) => g.tick_post(h, effects),
            _ => false,
        }
    }

    open spec fn left_click_post(&self, after: Self, pos: BlockPos, player: u64, effects: Seq<WorldEffect>) -> bool {
        match (self, after) {
            (CustomGameContainer::Minesweeper(g), CustomGameContainer::Minesweeper(h)) => g.left_click_post(h, pos, player, effects),
            (CustomGameContainer::Minesweeper3d(g), CustomGameContainer::Minesweeper3d(h)) => g.left_click_post(h, pos, player, effects),
            (CustomGameContainer::RepeatSequence5(g), CustomGameContainer::RepeatSequence5(h)) => g.left_click_post(h, pos, player, effects),
            (CustomGameContainer::RepeatSequence7(g), CustomGameContainer::RepeatSequence7(h)) => g.left_click_post(h, pos, player, effects),
            _ => false,
        }
    }

    open spec fn right_click_post(&self, after: Self, pos: BlockPos, player: u64, effects: Seq<WorldEffect>) -> bool {
        match (self, after) {
            (CustomGameContainer::Minesweeper(g), CustomGameContainer::Minesweeper(h)) => g.right_click_post(h, pos, player, effects),
            (CustomGameContainer::Minesweeper3d(g), CustomGameContainer::Minesweeper3d(h)) => g.right_click_post(h, pos, player, effects),
            (CustomGameContainer::RepeatSequence5(g), CustomGameContainer::RepeatSequence5(h)) => g.right_click_post(h, pos, player, effects),
            (CustomGameContainer::RepeatSequence7(g), CustomGameContainer::RepeatSequence7(h)) => g.right_click_post(h, pos, player, effects),
            _ => false,
        }
    }

    open spec fn build_view(&self) -> Seq<WorldEffect> {
        match self {
            CustomGameContainer::Minesweeper(g) => g.build_view(),
            CustomGameContainer::RepeatSequence5(g) => g.build_view(),
            CustomGameContainer::RepeatSequence7(g) => g.build_view(),
            CustomGameContainer::Minesweeper3d(g) => g.build_view(),
        }
    }

    open spec fn inv(&self) -> bool {
        match self {
            CustomGameContainer::Minesweeper(g) => g.inv(),
            CustomGameContainer::RepeatSequence5(g) => g.inv(),
            CustomGameContainer::RepeatSequence7(g) => g.inv(),
            CustomGameContainer::Minesweeper3d(g) => g.inv(),
        }
    }

    open spec fn footprint_view(&self) -> Seq<BlockPos> {
        match self {
            CustomGameContainer::Minesweeper(g) => g.footprint_view(),
            CustomGameContainer::RepeatSequence5(g) => g.footprint_view(),
            CustomGameContainer::RepeatSequence7(g) => g.footprint_view(),
            CustomGameContainer::Minesweeper3d(g) => g.footprint_view(),
        }
    }

    open spec fn despawn_view(&self) -> bool {
        match self {
            CustomGameContainer::Minesweeper(g) => g.despawn_view(),
            CustomGameContainer::RepeatSequence5(g) => g.despawn_view(),
            CustomGameContainer::RepeatSequence7(g) => g.despawn_view(),
            CustomGameContainer::Minesweeper3d(g) => g.despawn_view(),
        }
    }

    open spec fn built_view(&self) -> bool {
        match self {
            CustomGameContainer::Minesweeper(g) => g.built_view(),
            CustomGameContainer::RepeatSequence5(g) => g.built_view(),
            CustomGameContainer::RepeatSequence7(g) => g.built_view(),
            CustomGameContainer::Minesweeper3d(g) => g.built_view(),
        }
    }

    open spec fn player_view(&self) -> Player {
        match self {
            CustomGameContainer::Minesweeper(g) => g.player_view(),
            CustomGameContainer::RepeatSequence5(g) => g.player_view(),
            CustomGameContainer::RepeatSequence7(g) => g.player_view(),
            CustomGameContainer::Minesweeper3d(g) => g.player_view(),
        }
    }

    open spec fn record_view(&self) -> Option<GameRecord> {
        match self {
            CustomGameContainer::Minesweeper(g) => g.record_view(),
            CustomGameContainer::RepeatSequence5(g) => g.record_view(),
            CustomGameContainer::RepeatSequence7(g) => g.record_view(),
            CustomGameContainer::Minesweeper3d(g) => g.record_view(),
        }
    }

    fn build_blocks(&mut self, occupied: &Vec<bool>) -> (r: Result<Vec<WorldEffect>, BuildGameError>) {
        match self {
            CustomGameContainer::Minesweeper(g) => CustomGame::build_blocks(g, occupied),
            CustomGameContainer::RepeatSequence5(g) => CustomGame::build_blocks(g, occupied),
            CustomGameContainer::RepeatSequence7(g) => CustomGame::build_blocks(g, occupied),
            CustomGameContainer::Minesweeper3d(g) => CustomGame::build_blocks(g, occupied),
        }
    }

    fn tick(&mut self) -> (effects: Vec<WorldEffect>) {
        match self {
            CustomGameContainer::Minesweeper(g) => CustomGame::tick(g),
            CustomGameContainer::RepeatSequence5(g) => CustomGame::tick(g),
            CustomGameContainer::RepeatSequence7(g) => CustomGame::tick(g),
            CustomGameContainer::Minesweeper3d(g) => CustomGame::tick(g),
        }
    }

    fn click_right(&mut self, click_pos: BlockPos, player: u64) -> (effects: Vec<WorldEffect>) {
        match self {
            CustomGameContainer::Minesweeper(g) => CustomGame::click_right(g, click_pos, player),
            CustomGameContainer::RepeatSequence5(g) => CustomGame::click_right(g, click_pos, player),
            CustomGameContainer::RepeatSequence7(g) => CustomGame::click_right(g, click_pos, player),
            CustomGameContainer::Minesweeper3d(g) => CustomGame::click_right(g, click_pos, player),
        }
    }

    fn click_left(&mut self, click_pos: BlockPos, player: u64) -> (effects: Vec<WorldEffect>) {
        match self {
            CustomGameContainer::Minesweeper(g) => CustomGame::click_left(g, click_pos, player),
            CustomGameContainer::RepeatSequence5(g) => CustomGame::click_left(g, click_pos, player),
            CustomGameContainer::RepeatSequence7(g) => CustomGame::click_left(g, click_pos, player),
            CustomGameContainer::Minesweeper3d(g) => CustomGame::click_left(g, click_pos, player),
        }
    }

    fn reset(&self) -> (r: (Vec<WorldEffect>, Option<GameRecord>)) {
        match self {
            CustomGameContainer::Minesweeper(g) => CustomGame::reset(g),
            CustomGameContainer::RepeatSequence5(g) => CustomGame::reset(g),
            CustomGameContainer::RepeatSequence7(g) => CustomGame::reset(g),
            CustomGameContainer::Minesweeper3d(g) => CustomGame::reset(g),
        }
    }

    fn should_despawn(&self) -> (r: bool) {
        match self {
            CustomGameContainer::Minesweeper(g) => CustomGame::should_despawn(g),
            CustomGameContainer::RepeatSequence5(g) => CustomGame::should_despawn(g),
            CustomGameContainer::RepeatSequence7(g) => CustomGame::should_despawn(g),
            CustomGameContainer::Minesweeper3d(g) => CustomGame::should_despawn(g),
        }
    }

    fn is_built(&self) -> (r: bool) {
        match self {
            CustomGameContainer::Minesweeper(g) => CustomGame::is_built(g),
            CustomGameContainer::RepeatSequence5(g) => CustomGame::is_built(g),
            CustomGameContainer::RepeatSequence7(g) => CustomGame::is_built(g),
            CustomGameContainer::Minesweeper3d(g) => CustomGame::is_built(g),
        }
    }

    fn get_player(&self) -> (r: Player) {
        match self {
            CustomGameContainer::Minesweeper(g) => CustomGame::get_player(g),
            CustomGameContainer::RepeatSequence5(g) => CustomGame::get_player(g),
            CustomGameContainer::RepeatSequence7(g) => CustomGame::get_player(g),
            CustomGameContainer::Minesweeper3d(g) => CustomGame::get_player(g),
        }
    }

    fn footprint(&self) -> (r: Vec<BlockPos>) {
        match self {
            CustomGameContainer::Minesweeper(g) => CustomGame::footprint(g),
            CustomGameContainer::RepeatSequence5(g) => CustomGame::footprint(g),
            CustomGameContainer::RepeatSequence7(g) => CustomGame::footprint(g),
            CustomGameContainer::Minesweeper3d(g) => CustomGame::footprint(g),
        }
    }
}

} // verus!
