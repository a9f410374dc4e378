//! Minigames for a block-world server: minesweeper on a flat board or in a
//! cube, and a game of repeating a growing sequence on a wall of buttons;
//! the lifecycle every minigame follows; and a coordinator that builds,
//! ticks, clicks and removes the live games, tick by tick.
//!
//! The games do not touch the world themselves: every operation returns the
//! blocks to set and sounds to play, and building takes what the world holds
//! at the game's coordinates.
pub mod common;
pub mod grid;
pub mod board;
mod random;
pub mod minesweeper;
pub mod custom_game;
pub mod coordinator;
pub mod items;
pub mod repeat_sequence;

pub use common::{
    get_num_color, BlockKind, BlockPos, Cell, CellContent, CellState, Direction, SoundKind, WorldEffect,
};
pub use grid::Coord;
pub use board::{Board, BoardView};
pub use minesweeper::{BuildGameError, Minesweeper, MinesweeperRecord, MinesweeperView, Player};
pub use custom_game::{CustomGame, CustomGameContainer, MineSweeperGame, MineSweeperGame3d};
pub use coordinator::GameCoordinator;
pub use items::{start_game, ItemStackInfo, StartItemType};
pub use repeat_sequence::{GameState, RepeatSequenceGame};
pub use custom_game::GameRecord;
