use vstd::prelude::*;

verus! {

/// What a grid position holds; fixed once the board is generated.
#[derive(PartialEq, Eq, Structural, Copy, Clone, Debug)]
pub enum CellContent {
    Empty,
    Bomb,
    /// A safe cell with this many bombs around it (at least one).
    Number(u8),
}

/// What the player has done to a grid position.
#[derive(PartialEq, Eq, Structural, Copy, Clone, Debug)]
pub enum CellState {
    Opened,
    Closed,
    Flagged,
}

/// A world coordinate of one block.
#[derive(PartialEq, Eq, Structural, Copy, Clone, Debug)]
pub struct BlockPos {
    pub x: i32,
    pub y: i32,
    pub z: i32,
}

/// A direction in the world: the four compass points, up and down.
#[derive(PartialEq, Eq, Structural, Copy, Clone, Debug)]
pub enum Direction {
    Down,
    Up,
    North,
    South,
    West,
    East,
}

/// The appearance of a block in the world.
#[derive(PartialEq, Eq, Structural, Copy, Clone, Debug)]
pub enum BlockKind {
    /// Nothing: a cleared coordinate.
    Air,
    /// A cell that has not been opened.
    Unopened,
    /// A cell that carries a flag.
    Flagged,
    /// An opened cell without bombs around it.
    Empty,
    /// A revealed bomb.
    Bomb,
    /// An opened cell with this many bombs around it.
    Number(u8),
    /// A wall block of a sequence game at rest.
    Wall,
    /// A wall block of a sequence game showing a step of the sequence.
    Lit,
    /// A button on a wall, facing this way.
    Button(Direction),
}

/// One grid position of a board.
#[derive(PartialEq, Eq, Structural, Copy, Clone, Debug)]
pub struct Cell {
    pub content: CellContent,
    pub state: CellState,
    pub pos: BlockPos,
}

/// The block that shows a cell's content once it is revealed.
pub open spec fn appearance(content: CellContent) -> BlockKind {
    match content {
        CellContent::Empty => BlockKind::Empty,
        CellContent::Bomb => BlockKind::Bomb,
        CellContent::Number(n) => BlockKind::Number(n),
    }
}

/// The block that shows a cell's content once it is revealed.
pub fn get_num_color(cell: CellContent) -> (r: BlockKind)
    ensures
        r == appearance(cell),
{
    match cell {
        CellContent::Empty => BlockKind::Empty,
        CellContent::Bomb => BlockKind::Bomb,
        CellContent::Number(n) => BlockKind::Number(n),
    }
}


/// A sound that the world plays at a position.
#[derive(PartialEq, Eq, Structural, Copy, Clone, Debug)]
pub enum SoundKind {
    /// A bomb went off.
    Explosion,
    /// A cell was opened.
    Step,
    /// The board was cleared.
    Victory,
    /// A sequence button was pressed in turn.
    Correct,
    /// A whole sequence was repeated.
    SequenceDone,
    /// A sequence button was pressed out of turn.
    Miss,
}

/// A change that a game asks the world to make.
#[derive(PartialEq, Eq, Structural, Copy, Clone, Debug)]
pub enum WorldEffect {
    SetBlock(BlockPos, BlockKind),
    PlaySound(SoundKind, BlockPos),
}

} // verus!
