//! The repeat-sequence game: a wall of blocks shows a growing sequence, and
//! the player repeats it on the buttons in front of the wall.
use vstd::prelude::*;
use vstd::arithmetic::div_mod::lemma_fundamental_div_mod_converse;
use crate::common::{BlockKind, BlockPos, Direction, SoundKind, WorldEffect};
use crate::minesweeper::{BuildGameError, Player};
use crate::random::gen_index;

verus! {

/// Where a sequence game stands in its round.
#[derive(PartialEq, Eq, Structural, Copy, Clone, Debug)]
pub enum GameState {
    /// Waiting before the next step is added and shown.
    Idle,
    /// Showing the sequence, one step every `STEP_TICKS` ticks.
    Displaying,
    /// Waiting for the player to repeat the sequence.
    WaitForInput,
}

/// The result of a sequence game, as it is stored.
#[derive(PartialEq, Eq, Structural, Copy, Clone, Debug)]
pub struct RsgRecord {
    /// Columns (and rows) of the wall.
    pub size: usize,
    /// Length of the sequence reached.
    pub streak: usize,
    /// The player's unique id.
    pub player: u128,
}

/// Ticks each step of the sequence is shown, and the pause before a round.
pub const STEP_TICKS: usize = 20;

/// Ticks the player has to repeat the sequence.
pub const INPUT_TICKS: usize = 200;

/// Wrong presses that end the game.
pub const MAX_MISSES: usize = 3;

/// Fresh draws, at most, for a step that differs from the one before.
pub const MAX_DRAWS: u32 = 1000;

/// Bound on the coordinates a sequence game may be placed at.
pub const COORD_LIMIT: i32 = 1000000000;

/// Largest wall side.
pub const MAX_DIM: usize = 1000;

pub open spec fn horizontal(d: Direction) -> bool {
    d is North || d is South || d is East || d is West
}

pub open spec fn opposite(d: Direction) -> Direction {
    match d {
        Direction::South => Direction::North,
        Direction::North => Direction::South,
        Direction::Up => Direction::Down,
        Direction::Down => Direction::Up,
        Direction::West => Direction::East,
        Direction::East => Direction::West,
    }
}

/// The facing a button property takes for a direction.
pub open spec fn facing_of(d: Direction) -> Direction {
    match d {
        Direction::West => Direction::West,
        Direction::South => Direction::North,
        Direction::North => Direction::South,
        Direction::Up => Direction::Down,
        Direction::Down => Direction::Up,
        Direction::East => Direction::East,
    }
}

pub open spec fn shift(p: BlockPos, dx: int, dy: int, dz: int) -> BlockPos {
    BlockPos { x: (p.x + dx) as i32, y: (p.y + dy) as i32, z: (p.z + dz) as i32 }
}

/// The neighbouring block in a direction.
pub open spec fn step(p: BlockPos, d: Direction) -> BlockPos {
    match d {
        Direction::Down => shift(p, 0, -1, 0),
        Direction::Up => shift(p, 0, 1, 0),
        Direction::North => shift(p, 0, 0, -1),
        Direction::South => shift(p, 0, 0, 1),
        Direction::West => shift(p, -1, 0, 0),
        Direction::East => shift(p, 1, 0, 0),
    }
}

pub open spec fn near_origin(p: BlockPos) -> bool {
    -COORD_LIMIT <= p.x <= COORD_LIMIT && -COORD_LIMIT <= p.y <= COORD_LIMIT && -COORD_LIMIT <= p.z
        <= COORD_LIMIT
}

/// Whether a wall may start at `bl`: every block of it and of its buttons
/// then has a coordinate near the origin.
pub open spec fn wall_fits(bl: BlockPos) -> bool {
    -COORD_LIMIT - 1000 <= bl.x <= COORD_LIMIT + 1000 && -COORD_LIMIT - 1000 <= bl.y <= COORD_LIMIT
        + 1000 && -COORD_LIMIT - 1000 <= bl.z <= COORD_LIMIT + 1000
}

/// The wall block in column `xorz` and row `y` of a wall facing `dir`.
pub open spec fn wall_at(dir: Direction, bl: BlockPos, xorz: int, y: int) -> BlockPos {
    if dir is North || dir is South {
        shift(bl, xorz, y, 0)
    } else {
        shift(bl, 0, y, xorz)
    }
}

/// The button in front of that wall block.
pub open spec fn button_at(dir: Direction, bl: BlockPos, xorz: int, y: int) -> BlockPos {
    step(wall_at(dir, bl, xorz, y), opposite(dir))
}

/// The bottom left block of the wall for a player standing at `pos` and
/// looking towards `dir`: four blocks ahead, centred on the player.
pub open spec fn bottom_left_of(pos: BlockPos, dir: Direction, dim: int) -> BlockPos {
    let ahead = step(step(step(step(pos, dir), dir), dir), dir);
    let off = -(dim / 2) - 1;
    if dir is North || dir is South {
        shift(ahead, off, 0, 0)
    } else {
        shift(ahead, 0, 0, off)
    }
}

/// The button whose step the next step must differ from.
pub open spec fn last_button(sequence: Seq<(BlockPos, BlockPos)>) -> BlockPos {
    if sequence.len() == 0 {
        BlockPos { x: 0, y: 0, z: 0 }
    } else {
        sequence.last().0
    }
}

/// A sequence game that has just been created with its wall at `bl`,
/// facing `dir`, for `player`: no steps yet, idle, not built.
pub open spec fn fresh_rsg(g: RsgView, bl: BlockPos, dir: Direction, player: Player) -> bool {
    &&& g.bottom_left == bl
    &&& g.dir == dir
    &&& g.player == player
    &&& g.sequence.len() == 0
    &&& g.state is Idle
    &&& g.ticks == 0
    &&& g.input_progres == 0
    &&& g.missed_clicks == 0
    &&& !g.should_despawn
    &&& !g.is_build
}

pub open spec fn sat_inc(n: int) -> int {
    if n < usize::MAX {
        n + 1
    } else {
        n
    }
}

fn opposite_dir(dir: &Direction) -> (r: Direction)
    ensures
        r == opposite(*dir),
{
    match dir {
        Direction::South => Direction::North,
        Direction::North => Direction::South,
        Direction::Up => Direction::Down,
        Direction::Down => Direction::Up,
        Direction::West => Direction::East,
        Direction::East => Direction::West,
    }
}

fn dir_to_prop_value(dir: &Direction) -> (r: Direction)
    ensures
        r == facing_of(*dir),
{
    match dir {
        Direction::West => Direction::West,
        Direction::South => Direction::North,
        Direction::North => Direction::South,
        Direction::Up => Direction::Down,
        Direction::Down => Direction::Up,
        Direction::East => Direction::East,
    }
}

fn get_in_direction(p: BlockPos, d: Direction) -> (r: BlockPos)
    requires
        -COORD_LIMIT - 2000 <= p.x <= COORD_LIMIT + 2000,
        -COORD_LIMIT - 2000 <= p.y <= COORD_LIMIT + 2000,
        -COORD_LIMIT - 2000 <= p.z <= COORD_LIMIT + 2000,
    ensures
        r == step(p, d),
{
    match d {
        Direction::Down => BlockPos { x: p.x, y: p.y - 1, z: p.z },
        Direction::Up => BlockPos { x: p.x, y: p.y + 1, z: p.z },
        Direction::North => BlockPos { x: p.x, y: p.y, z: p.z - 1 },
        Direction::South => BlockPos { x: p.x, y: p.y, z: p.z + 1 },
        Direction::West => BlockPos { x: p.x - 1, y: p.y, z: p.z },
        Direction::East => BlockPos { x: p.x + 1, y: p.y, z: p.z },
    }
}

/// A repeat-sequence game on a `DIM` by `DIM` wall.
pub struct RepeatSequenceGame<const DIM: usize> {
    dir: Direction,
    bottom_left: BlockPos,
    wall_blocks: Vec<BlockPos>,
    button_blocks: Vec<BlockPos>,
    sequence: Vec<(BlockPos, BlockPos)>,
    player: Player,
    state: GameState,
    ticks: usize,
    input_progres: usize,
    should_despawn: bool,
    missed_clicks: usize,
    is_build: bool,
}

/// The mathematical picture of a sequence game.
pub struct RsgView {
    pub dir: Direction,
    pub bottom_left: BlockPos,
    /// Wall block of column `xorz`, row `y` at `xorz * DIM + y`.
    pub walls: Seq<BlockPos>,
    /// The buttons, laid out as the walls.
    pub buttons: Seq<BlockPos>,
    /// The steps so far: a button and its wall block.
    pub sequence: Seq<(BlockPos, BlockPos)>,
    pub player: Player,
    pub state: GameState,
    pub ticks: int,
    /// Steps repeated so far in this round.
    pub input_progres: int,
    pub should_despawn: bool,
    pub missed_clicks: int,
    pub is_build: bool,
}

impl RsgView {
    /// Step `k` of the layout: the button and wall block at index `k`.
    pub open spec fn pair(self, k: int) -> (BlockPos, BlockPos) {
        (self.buttons[k], self.walls[k])
    }

    pub open spec fn wf(self, dim: int) -> bool {
        &&& 2 <= dim <= MAX_DIM
        &&& horizontal(self.dir)
        &&& wall_fits(self.bottom_left)
        &&& self.walls.len() == dim * dim
        &&& self.buttons.len() == dim * dim
        &&& forall|k: int|
            #![trigger self.walls[k]]
            0 <= k < dim * dim ==> self.walls[k] == wall_at(self.dir, self.bottom_left, k / dim, k % dim)
        &&& forall|k: int|
            #![trigger self.buttons[k]]
            0 <= k < dim * dim ==> self.buttons[k] == button_at(
                self.dir,
                self.bottom_left,
                k / dim,
                k % dim,
            )
        &&& self.state is WaitForInput ==> 0 <= self.input_progres < self.sequence.len()
        &&& self.state is Displaying ==> 0 < self.sequence.len() && self.ticks <= STEP_TICKS
            * self.sequence.len()
        &&& 0 <= self.ticks <= usize::MAX
        &&& 0 <= self.missed_clicks <= usize::MAX
        &&& self.sequence.len() < usize::MAX
    }

    /// Same wall, player and buttons.
    pub open spec fn same_wall(self, o: RsgView) -> bool {
        &&& self.dir == o.dir
        &&& self.bottom_left == o.bottom_left
        &&& self.walls == o.walls
        &&& self.buttons == o.buttons
        &&& self.player == o.player
        &&& self.is_build == o.is_build
    }
}

/// What a tick does to a game with a wall of side `dim` in state `o`: the
/// game becomes `f` and the world gets `effects`.
pub open spec fn rsg_tick_outcome(dim: int, o: RsgView, f: RsgView, effects: Seq<WorldEffect>) -> bool {
    let t = sat_inc(o.ticks);
    let s = t / STEP_TICKS as int;
    &&& o.state is Idle && t > STEP_TICKS && o.sequence.len() + 2 < usize::MAX ==> {
        &&& f == RsgView { state: GameState::Displaying, ticks: 0, sequence: f.sequence, ..o }
        &&& f.sequence.drop_last() == o.sequence
        &&& f.sequence.len() == o.sequence.len() + 1
        &&& exists|k: int| 0 <= k < dim * dim && f.sequence.last() == #[trigger] o.pair(k)
        &&& f.sequence.last().0 != last_button(o.sequence)
        &&& effects.len() == 0
    }
    &&& o.state is Idle && !(t > STEP_TICKS && o.sequence.len() + 2 < usize::MAX) ==> f
        == RsgView { ticks: t, ..o } && effects.len() == 0
    &&& o.state is Displaying && t % STEP_TICKS as int != 1 ==> f == RsgView { ticks: t, ..o }
        && effects.len() == 0
    &&& o.state is Displaying && t % STEP_TICKS as int == 1 ==> {
        let cleared = if s != 0 {
            seq![WorldEffect::SetBlock(o.sequence[s - 1].1, BlockKind::Wall)]
        } else {
            seq![]
        };
        if s >= o.sequence.len() {
            &&& f == RsgView { state: GameState::WaitForInput, ticks: 0, input_progres: 0, ..o }
            &&& effects == cleared
        } else {
            &&& f == RsgView { ticks: t, ..o }
            &&& effects == cleared.push(WorldEffect::SetBlock(o.sequence[s].1, BlockKind::Lit))
        }
    }
    &&& o.state is WaitForInput ==> f == RsgView {
        ticks: t,
        should_despawn: o.should_despawn || t > INPUT_TICKS,
        ..o
    } && effects.len() == 0
}

/// What a press at `click_pos` by `player` does to a game in state `o`: the
/// game becomes `f` and the world gets `effects`.
pub open spec fn rsg_click_outcome(
    o: RsgView,
    f: RsgView,
    click_pos: BlockPos,
    player: u64,
    effects: Seq<WorldEffect>,
) -> bool {
    let taken = player == o.player.entity && o.state is WaitForInput && o.buttons.contains(
        click_pos,
    );
    &&& !taken ==> f == o && effects.len() == 0
    &&& taken && o.sequence[o.input_progres].0 == click_pos ==> if o.input_progres + 1
        == o.sequence.len() {
        &&& f == RsgView { state: GameState::Idle, input_progres: 0, ..o }
        &&& effects == seq![
            WorldEffect::PlaySound(SoundKind::Correct, click_pos),
            WorldEffect::PlaySound(SoundKind::SequenceDone, click_pos),
        ]
    } else {
        &&& f == RsgView { input_progres: o.input_progres + 1, ..o }
        &&& effects == seq![WorldEffect::PlaySound(SoundKind::Correct, click_pos)]
    }
    &&& taken && o.sequence[o.input_progres].0 != click_pos ==> {
        &&& f == RsgView {
            missed_clicks: sat_inc(o.missed_clicks),
            should_despawn: o.should_despawn || sat_inc(o.missed_clicks) >= MAX_MISSES,
            ..o
        }
        &&& effects == seq![WorldEffect::PlaySound(SoundKind::Miss, click_pos)]
    }
}

impl<const DIM: usize> View for RepeatSequenceGame<DIM> {
    type V = RsgView;

    closed spec fn view(&self) -> RsgView {
        RsgView {
            dir: self.dir,
            bottom_left: self.bottom_left,
            walls: self.wall_blocks@,
            buttons: self.button_blocks@,
            sequence: self.sequence@,
            player: self.player,
            state: self.state,
            ticks: self.ticks as int,
            input_progres: self.input_progres as int,
            should_despawn: self.should_despawn,
            missed_clicks: self.missed_clicks as int,
            is_build: self.is_build,
        }
    }
}

impl<const DIM: usize> RepeatSequenceGame<DIM> {
    /// A game for a player standing at `pos` and looking towards `dir`.
    pub fn new(pos: BlockPos, dir: Direction, player: Player) -> (r: Self)
        requires
            2 <= DIM <= MAX_DIM,
            horizontal(dir),
            near_origin(pos),
        ensures
            r@.wf(DIM as int),
            fresh_rsg(r@, bottom_left_of(pos, dir, DIM as int), dir, player),
    {
        let bottom_left = Self::player_pos_to_bottom_left(pos, dir);
        Self::new_with_bottom_left(bottom_left, dir, player)
    }

    /// The bottom left block of the wall for a player at `pos` looking
    /// towards `dir`.
    fn player_pos_to_bottom_left(pos: BlockPos, dir: Direction) -> (r: BlockPos)
        requires
            2 <= DIM <= MAX_DIM,
            horizontal(dir),
            near_origin(pos),
        ensures
            r == bottom_left_of(pos, dir, DIM as int),
    {
        let mut p = get_in_direction(pos, dir);
        p = get_in_direction(p, dir);
        p = get_in_direction(p, dir);
        p = get_in_direction(p, dir);
        let offset: i32 = -((DIM / 2) as i32) - 1;
        if dir == Direction::North || dir == Direction::South {
            BlockPos { x: p.x + offset, y: p.y, z: p.z }
        } else {
            BlockPos { x: p.x, y: p.y, z: p.z + offset }
        }
    }

    /// A game whose wall starts at `bottom_left` and faces `dir`.
    pub fn new_with_bottom_left(bottom_left: BlockPos, dir: Direction, player: Player) -> (r: Self)
        requires
            2 <= DIM <= MAX_DIM,
            horizontal(dir),
            wall_fits(bottom_left),
        ensures
            r@.wf(DIM as int),
            fresh_rsg(r@, bottom_left, dir, player),
    {
        let (wall_blocks, button_blocks) = Self::get_block_positions(&dir, &bottom_left);
        RepeatSequenceGame {
            dir,
            bottom_left,
            wall_blocks,
            button_blocks,
            sequence: Vec::new(),
            player,
            state: GameState::Idle,
            ticks: 0,
            input_progres: 0,
            should_despawn: false,
            missed_clicks: 0,
            is_build: false,
        }
    }

    /// The wall blocks and the buttons in front of them, column by column.
    fn get_block_positions(dir: &Direction, bottom_left: &BlockPos) -> (r: (Vec<BlockPos>, Vec<BlockPos>))
        requires
            2 <= DIM <= MAX_DIM,
            horizontal(*dir),
            wall_fits(*bottom_left),
        ensures
            r.0@.len() == DIM * DIM,
            r.1@.len() == DIM * DIM,
            forall|k: int|
                #![trigger r.0@[k]]
                0 <= k < DIM * DIM ==> r.0@[k] == wall_at(*dir, *bottom_left, k / DIM as int, k % DIM as int),
            forall|k: int|
                #![trigger r.1@[k]]
                0 <= k < DIM * DIM ==> r.1@[k] == button_at(*dir, *bottom_left, k / DIM as int, k % DIM as int),
    {
        let opp_dir = opposite_dir(dir);
        let mut wall: Vec<BlockPos> = Vec::new();
        let mut buttons: Vec<BlockPos> = Vec::new();
        assert(DIM * DIM <= 1000000) by (nonlinear_arith)
            requires
                DIM <= 1000,
        ;
        let n = DIM * DIM;
        let mut xorz: usize = 0;
        while xorz < DIM
            invariant
                2 <= DIM <= MAX_DIM,
                n == DIM * DIM,
                horizontal(*dir),
                opp_dir == opposite(*dir),
                wall_fits(*bottom_left),
                xorz <= DIM,
                wall.len() == xorz * DIM,
                buttons.len() == xorz * DIM,
                forall|k: int|
                    #![trigger wall@[k]]
                    0 <= k < wall.len() ==> wall@[k] == wall_at(*dir, *bottom_left, k / DIM as int, k % DIM as int),
                forall|k: int|
                    #![trigger buttons@[k]]
                    0 <= k < buttons.len() ==> buttons@[k] == button_at(*dir, *bottom_left, k / DIM as int, k % DIM as int),
            decreases DIM - xorz,
        {
            let mut y: usize = 0;
            while y < DIM
                invariant
                    2 <= DIM <= MAX_DIM,
                    n == DIM * DIM,
                    horizontal(*dir),
                    opp_dir == opposite(*dir),
                    wall_fits(*bottom_left),
                    xorz < DIM,
                    y <= DIM,
                    wall.len() == xorz * DIM + y,
                    buttons.len() == xorz * DIM + y,
                    forall|k: int|
                        #![trigger wall@[k]]
                        0 <= k < wall.len() ==> wall@[k] == wall_at(*dir, *bottom_left, k / DIM as int, k % DIM as int),
                    forall|k: int|
                        #![trigger buttons@[k]]
                        0 <= k < buttons.len() ==> buttons@[k] == button_at(*dir, *bottom_left, k / DIM as int, k % DIM as int),
                decreases DIM - y,
            {
                let w = if *dir == Direction::North || *dir == Direction::South {
                    BlockPos { x: bottom_left.x + xorz as i32, y: bottom_left.y + y as i32, z: bottom_left.z }
                } else {
                    BlockPos { x: bottom_left.x, y: bottom_left.y + y as i32, z: bottom_left.z + xorz as i32 }
                };
                let b = get_in_direction(w, opp_dir);
                proof {
                    let k = xorz * DIM + y;
                    lemma_fundamental_div_mod_converse(k as int, DIM as int, xorz as int, y as int);
                }
                wall.push(w);
                buttons.push(b);
                y = y + 1;
            }
            proof {
                assert((xorz + 1) * DIM == xorz * DIM + DIM) by (nonlinear_arith);
            }
            xorz = xorz + 1;
        }
        (wall, buttons)
    }

    /// Adds a random step to the sequence, one whose button differs from the
    /// last step's (from the origin, for the first step).
    fn generate_sequence(&mut self)
        requires
            old(self)@.wf(DIM as int),
            old(self)@.sequence.len() + 1 < usize::MAX,
        ensures
            final(self)@ == (RsgView { sequence: final(self)@.sequence, ..old(self)@ }),
            final(self)@.sequence.drop_last() == old(self)@.sequence,
            final(self)@.sequence.len() == old(self)@.sequence.len() + 1,
            exists|k: int|
                0 <= k < DIM * DIM && final(self)@.sequence.last() == #[trigger] old(self)@.pair(k),
            final(self)@.sequence.last().0 != last_button(old(self)@.sequence),
    {
        let len = self.sequence.len();
        let prev = if len > 0 {
            self.sequence[len - 1].0
        } else {
            BlockPos { x: 0, y: 0, z: 0 }
        };
        proof {
            assert(DIM * DIM <= 1000000) by (nonlinear_arith)
                requires
                    DIM <= 1000,
            ;
        }
        let mut k = Self::draw_index();
        let mut draws: u32 = 1;
        while self.button_blocks[k] == prev && draws < MAX_DRAWS
            invariant
                self@ == old(self)@,
                self@.wf(DIM as int),
                k < DIM * DIM,
            decreases MAX_DRAWS - draws,
        {
            k = Self::draw_index();
            draws = draws + 1;
        }
        if self.button_blocks[k] == prev {
            proof {
                assert(DIM * DIM >= 4) by (nonlinear_arith)
                    requires
                        DIM >= 2,
                ;
                lemma_fundamental_div_mod_converse(0, DIM as int, 0, 0);
                lemma_fundamental_div_mod_converse(1, DIM as int, 0, 1);
                let b = self@;
                assert(b.buttons[0] == button_at(b.dir, b.bottom_left, 0, 0));
                assert(b.buttons[1] == button_at(b.dir, b.bottom_left, 0, 1));
                assert(self@.buttons[0] != self@.buttons[1]);
            }
            k = if self.button_blocks[0] == prev {
                1
            } else {
                0
            };
        }
        let step = (self.button_blocks[k], self.wall_blocks[k]);
        self.sequence.push(step);
        proof {
            assert(self@.sequence.drop_last() =~= old(self)@.sequence);
            assert(self@.sequence.last() == old(self)@.pair(k as int));
        }
    }

    /// A random index of the wall: a column and a row drawn apart.
    fn draw_index() -> (k: usize)
        requires
            2 <= DIM <= MAX_DIM,
        ensures
            k < DIM * DIM,
    {
        let xcoord = gen_index(DIM);
        let ycoord = gen_index(DIM);
        proof {
            assert(DIM * DIM <= 1000000) by (nonlinear_arith)
                requires
                    DIM <= 1000,
            ;
            assert(xcoord * DIM + ycoord < DIM * DIM) by (nonlinear_arith)
                requires
                    xcoord < DIM,
                    ycoord < DIM,
            ;
        }
        xcoord * DIM + ycoord
    }

    /// One server tick: after a pause a step is added and the sequence is
    /// shown, one step every `STEP_TICKS` ticks; then the player has
    /// `INPUT_TICKS` ticks to repeat it before the game asks to be removed.
    pub fn tick(&mut self) -> (effects: Vec<WorldEffect>)
        requires
            old(self)@.wf(DIM as int),
        ensures
            final(self)@.wf(DIM as int),
            final(self)@.same_wall(old(self)@),
            rsg_tick_outcome(DIM as int, old(self)@, final(self)@, effects@),
    {
        let mut effects: Vec<WorldEffect> = Vec::new();
        if self.ticks < usize::MAX {
            self.ticks = self.ticks + 1;
        }
        if self.state == GameState::Idle {
            if self.ticks > STEP_TICKS && self.sequence.len() < usize::MAX - 2 {
                let ghost mid = self@;
                self.generate_sequence();
                proof {
                    let k = choose|k: int|
                        0 <= k < DIM * DIM && self@.sequence.last() == #[trigger] mid.pair(k);
                    assert(old(self)@.pair(k) == mid.pair(k));
                }
                self.state = GameState::Displaying;
                self.ticks = 0;
            }
        } else if self.state == GameState::Displaying {
            let display_step = self.ticks / STEP_TICKS;
            if self.ticks % STEP_TICKS == 1 {
                proof {
                    assert(display_step <= self.sequence.len()) by (nonlinear_arith)
                        requires
                            self.ticks <= STEP_TICKS * self.sequence.len() + 1,
                            self.ticks % 20 == 1,
                            display_step == self.ticks / 20,
                    ;
                }
                if display_step != 0 {
                    effects.push(WorldEffect::SetBlock(self.sequence[display_step - 1].1, BlockKind::Wall));
                }
                if display_step >= self.sequence.len() {
                    self.state = GameState::WaitForInput;
                    self.ticks = 0;
                    self.input_progres = 0;
                    return effects;
                }
                effects.push(WorldEffect::SetBlock(self.sequence[display_step].1, BlockKind::Lit));
            }
            proof {
                assert(self.ticks <= STEP_TICKS * self.sequence.len()) by (nonlinear_arith)
                    requires
                        self.ticks <= STEP_TICKS * self.sequence.len() + 1,
                        self.ticks == STEP_TICKS * self.sequence.len() + 1 ==> self.ticks / 20 >= self.sequence.len() && self.ticks % 20 == 1,
                        display_step == self.ticks / 20,
                        self.ticks % 20 == 1 ==> display_step < self.sequence.len(),
                ;
            }
        } else {
            if self.ticks > INPUT_TICKS {
                self.should_despawn = true;
            }
        }
        effects
    }

    /// A press of the player's on a button: in turn, it advances the round
    /// (a finished round starts the next); out of turn, it counts as a miss,
    /// and the third miss ends the game. Presses by others, presses off the
    /// buttons, and presses outside the input phase do nothing.
    pub fn click(&mut self, click_pos: BlockPos, player: u64) -> (effects: Vec<WorldEffect>)
        requires
            old(self)@.wf(DIM as int),
        ensures
            final(self)@.wf(DIM as int),
            final(self)@.same_wall(old(self)@),
            rsg_click_outcome(old(self)@, final(self)@, click_pos, player, effects@),
    {
        let mut effects: Vec<WorldEffect> = Vec::new();
        if player == self.player.entity && self.state == GameState::WaitForInput && contains_pos(
            &self.button_blocks,
            click_pos,
        ) {
            if self.sequence[self.input_progres].0 == click_pos {
                effects.push(WorldEffect::PlaySound(SoundKind::Correct, click_pos));
                self.input_progres = self.input_progres + 1;
                if self.input_progres == self.sequence.len() {
                    self.state = GameState::Idle;
                    self.input_progres = 0;
                    effects.push(WorldEffect::PlaySound(SoundKind::SequenceDone, click_pos));
                    assert(effects@ =~= seq![
                        WorldEffect::PlaySound(SoundKind::Correct, click_pos),
                        WorldEffect::PlaySound(SoundKind::SequenceDone, click_pos),
                    ]);
                }
            } else {
                effects.push(WorldEffect::PlaySound(SoundKind::Miss, click_pos));
                if self.missed_clicks < usize::MAX {
                    self.missed_clicks = self.missed_clicks + 1;
                }
                if self.missed_clicks >= MAX_MISSES {
                    self.should_despawn = true;
                }
            }
        }
        effects
    }

    /// The blocks the game occupies: the wall, then the buttons.
    pub fn footprint(&self) -> (r: Vec<BlockPos>)
        ensures
            r@ == self@.walls + self@.buttons,
    {
        let mut r: Vec<BlockPos> = Vec::new();
        let mut i: usize = 0;
        while i < self.wall_blocks.len()
            invariant
                i <= self.wall_blocks.len(),
                r@ == self@.walls.take(i as int),
            decreases self.wall_blocks.len() - i,
        {
            r.push(self.wall_blocks[i]);
            i = i + 1;
            assert(r@ =~= self@.walls.take(i as int));
        }
        let mut j: usize = 0;
        while j < self.button_blocks.len()
            invariant
                j <= self.button_blocks.len(),
                i == self.wall_blocks.len(),
                r@ == self@.walls + self@.buttons.take(j as int),
            decreases self.button_blocks.len() - j,
        {
            r.push(self.button_blocks[j]);
            j = j + 1;
            assert(r@ =~= self@.walls + self@.buttons.take(j as int));
        }
        assert(self@.walls.take(i as int) =~= self@.walls);
        assert(self@.buttons.take(j as int) =~= self@.buttons);
        r
    }
}

/// The facing of the buttons of a wall that faces `dir`.
pub open spec fn button_facing(dir: Direction) -> Direction {
    if dir is North || dir is South {
        facing_of(dir)
    } else {
        facing_of(opposite(dir))
    }
}

/// What building a sequence game writes: the wall, then a button in front
/// of each wall block.
pub open spec fn rsg_build_effects(g: RsgView) -> Seq<WorldEffect> {
    Seq::new(g.walls.len(), |i: int| WorldEffect::SetBlock(g.walls[i], BlockKind::Wall)) + Seq::new(
        g.buttons.len(),
        |i: int| WorldEffect::SetBlock(g.buttons[i], BlockKind::Button(button_facing(g.dir))),
    )
}

/// Every coordinate of `ps` set to `block`.
pub open spec fn paint(ps: Seq<BlockPos>, block: BlockKind) -> Seq<WorldEffect> {
    Seq::new(ps.len(), |i: int| WorldEffect::SetBlock(ps[i], block))
}

fn paint_all(ps: &Vec<BlockPos>, block: BlockKind) -> (r: Vec<WorldEffect>)
    ensures
        r@ == paint(ps@, block),
{
    let mut r: Vec<WorldEffect> = Vec::new();
    let mut i: usize = 0;
    while i < ps.len()
        invariant
            i <= ps.len(),
            r@ == paint(ps@, block).take(i as int),
        decreases ps.len() - i,
    {
        r.push(WorldEffect::SetBlock(ps[i], block));
        i = i + 1;
        assert(r@ =~= paint(ps@, block).take(i as int));
    }
    assert(r@ =~= paint(ps@, block));
    r
}

impl<const DIM: usize> RepeatSequenceGame<DIM> {
    /// Builds the wall and its buttons: refuses, changing nothing, when any
    /// of their coordinates is taken (`occupied[i]` for `footprint()[i]`).
    pub fn build_blocks(&mut self, occupied: &Vec<bool>) -> (r: Result<Vec<WorldEffect>, BuildGameError>)
        requires
            old(self)@.wf(DIM as int),
            occupied.len() == old(self)@.walls.len() + old(self)@.buttons.len(),
        ensures
            (exists|i: int| 0 <= i < occupied.len() && occupied@[i]) ==> r == Err::<
                Vec<WorldEffect>,
                BuildGameError,
            >(BuildGameError::BlocksInTheWay) && final(self)@ == old(self)@,
            (forall|i: int| 0 <= i < occupied.len() ==> !occupied@[i]) ==> (r matches Ok(e) && e@
                == rsg_build_effects(old(self)@) && final(self)@ == (RsgView {
                is_build: true,
                ..old(self)@
            })),
    {
        let mut i: usize = 0;
        while i < occupied.len()
            invariant
                i <= occupied.len(),
                forall|j: int| 0 <= j < i ==> !occupied@[j],
            decreases occupied.len() - i,
        {
            if occupied[i] {
                return Err(BuildGameError::BlocksInTheWay);
            }
            i = i + 1;
        }
        let opp_dir = opposite_dir(&self.dir);
        let button_dir = if self.dir == Direction::North || self.dir == Direction::South {
            dir_to_prop_value(&self.dir)
        } else {
            dir_to_prop_value(&opp_dir)
        };
        let mut effects = paint_all(&self.wall_blocks, BlockKind::Wall);
        let mut buttons = paint_all(&self.button_blocks, BlockKind::Button(button_dir));
        effects.append(&mut buttons);
        self.is_build = true;
        Ok(effects)
    }

    /// Tears the game down: clears the wall and the buttons, and hands over
    /// the record of the sequence reached.
    pub fn reset(&self) -> (r: (Vec<WorldEffect>, RsgRecord))
        requires
            self@.wf(DIM as int),
        ensures
            r.0@ == paint(self@.walls + self@.buttons, BlockKind::Air),
            r.1 == (RsgRecord {
                size: DIM,
                streak: self@.sequence.len() as usize,
                player: self@.player.uuid,
            }),
    {
        let mut effects = paint_all(&self.wall_blocks, BlockKind::Air);
        let mut buttons = paint_all(&self.button_blocks, BlockKind::Air);
        effects.append(&mut buttons);
        assert(effects@ =~= paint(self@.walls + self@.buttons, BlockKind::Air));
        (effects, RsgRecord { size: DIM, streak: self.sequence.len(), player: self.player.uuid })
    }

    pub fn should_despawn(&self) -> (r: bool)
        ensures
            r == self@.should_despawn,
    {
        self.should_despawn
    }

    pub fn is_built(&self) -> (r: bool)
        ensures
            r == self@.is_build,
    {
        self.is_build
    }

    pub fn get_player(&self) -> (r: Player)
        ensures
            r == self@.player,
    {
        self.player
    }

    pub fn state(&self) -> (r: GameState)
        ensures
            r == self@.state,
    {
        self.state
    }

    /// The steps so far: a button and its wall block.
    pub fn sequence(&self) -> (r: &Vec<(BlockPos, BlockPos)>)
        ensures
            r@ == self@.sequence,
    {
        &self.sequence
    }

    pub fn missed_clicks(&self) -> (r: usize)
        ensures
            r == self@.missed_clicks,
    {
        self.missed_clicks
    }
}

/// Whether `pos` is among `v`.
fn contains_pos(v: &Vec<BlockPos>, pos: BlockPos) -> (r: bool)
    ensures
        r == v@.contains(pos),
{
    let mut i: usize = 0;
    while i < v.len()
        invariant
            i <= v.len(),
            forall|j: int| 0 <= j < i ==> v@[j] != pos,
        decreases v.len() - i,
    {
        if v[i] == pos {
            assert(v@[i as int] == pos);
            return true;
        }
        i = i + 1;
    }
    false
}

} // verus!
