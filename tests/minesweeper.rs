use minigames::minesweeper::FLAG_COOLDOWN;
use minigames::{
    BlockKind, BlockPos, BuildGameError, CellContent, CellState, Coord, CustomGame, MineSweeperGame,
    MineSweeperGame3d, MinesweeperRecord, Player, SoundKind, WorldEffect,
};

const ANCHOR: BlockPos = BlockPos { x: 100, y: 64, z: 200 };
const PLAYER: Player = Player { entity: 7, uuid: 0xabcdef };

fn at(x: usize, y: usize) -> BlockPos {
    BlockPos { x: ANCHOR.x + x as i32, y: ANCHOR.y, z: ANCHOR.z + y as i32 }
}

fn flat<const DIM: usize>(bombs: &[(usize, usize)]) -> MineSweeperGame<DIM> {
    let mut v = vec![false; DIM * DIM];
    for &(x, y) in bombs {
        v[x + DIM * y] = true;
    }
    MineSweeperGame::<DIM>::with_layout(ANCHOR, PLAYER, &v)
}

fn state<const DIM: usize>(g: &MineSweeperGame<DIM>, x: usize, y: usize) -> CellState {
    g.engine().board().cell(Coord { x, y, z: 0 }).state
}

fn content<const DIM: usize>(g: &MineSweeperGame<DIM>, x: usize, y: usize) -> CellContent {
    g.engine().board().cell(Coord { x, y, z: 0 }).content
}

#[test]
fn first_click_on_empty_cell_floods_the_board_and_wins() {
    let mut g = flat::<5>(&[(4, 4)]);
    let effects = g.click_left(at(0, 0), PLAYER.entity);
    for y in 0..5 {
        for x in 0..5 {
            let expect = if (x, y) == (4, 4) { CellState::Closed } else { CellState::Opened };
            assert_eq!(state(&g, x, y), expect);
        }
    }
    assert!(g.engine().is_won());
    assert!(g.engine().is_over());
    // a step sound and a shown block for each of the 24 safe cells, then the fanfare
    assert_eq!(effects.len(), 24 * 2 + 1);
    assert_eq!(effects[0], WorldEffect::PlaySound(SoundKind::Step, at(0, 0)));
    assert_eq!(effects[1], WorldEffect::SetBlock(at(0, 0), BlockKind::Empty));
    assert_eq!(effects[48], WorldEffect::PlaySound(SoundKind::Victory, at(2, 2)));
}

#[test]
fn first_click_on_a_bomb_regenerates_instead_of_losing() {
    let mut g = flat::<5>(&[(4, 4)]);
    assert_eq!(content(&g, 4, 4), CellContent::Bomb);
    g.click_left(at(4, 4), PLAYER.entity);
    assert!(!g.engine().is_over() || g.engine().is_won());
    assert_eq!(content(&g, 4, 4), CellContent::Empty);
    assert_eq!(state(&g, 4, 4), CellState::Opened);
    let bombs = (0..5)
        .flat_map(|y| (0..5).map(move |x| (x, y)))
        .filter(|&(x, y)| content(&g, x, y) == CellContent::Bomb)
        .count();
    assert_eq!(bombs, 1);
}

#[test]
fn first_click_on_a_number_regenerates() {
    let mut g = flat::<9>(&[(0, 0), (8, 8), (8, 0)]);
    assert_eq!(content(&g, 1, 1), CellContent::Number(1));
    g.click_left(at(1, 1), PLAYER.entity);
    assert_eq!(content(&g, 1, 1), CellContent::Empty);
    assert_eq!(state(&g, 1, 1), CellState::Opened);
    assert!(!g.engine().is_over() || g.engine().is_won());
}

#[test]
fn later_click_on_a_bomb_loses_and_shows_everything() {
    let mut g = flat::<3>(&[(0, 0)]);
    // a flag first, so that the reveals below are not the game's first move
    g.click_right(at(2, 2), PLAYER.entity);
    let opened = g.click_left(at(1, 1), PLAYER.entity);
    assert_eq!(
        opened,
        vec![
            WorldEffect::PlaySound(SoundKind::Step, at(1, 1)),
            WorldEffect::SetBlock(at(1, 1), BlockKind::Number(1)),
        ]
    );
    let lost = g.click_left(at(0, 0), PLAYER.entity);
    assert!(g.engine().is_over());
    assert!(!g.engine().is_won());
    assert_eq!(lost.len(), 1 + 9);
    assert_eq!(lost[0], WorldEffect::PlaySound(SoundKind::Explosion, at(0, 0)));
    assert_eq!(lost[1], WorldEffect::SetBlock(at(0, 0), BlockKind::Bomb));
    assert_eq!(lost[2], WorldEffect::SetBlock(at(1, 0), BlockKind::Number(1)));
    assert_eq!(lost[9], WorldEffect::SetBlock(at(2, 2), BlockKind::Empty));
    // a finished game asks to be removed on the next primary click
    assert!(!g.should_despawn());
    let none = g.click_left(at(2, 2), PLAYER.entity);
    assert!(none.is_empty());
    assert!(g.should_despawn());
}

#[test]
fn single_safe_cell_board_is_won_when_it_opens() {
    // 2x2 with three bombs: only (1,1) is safe
    let mut g = flat::<2>(&[(0, 0), (1, 0), (0, 1)]);
    assert_eq!(content(&g, 1, 1), CellContent::Number(3));
    // flag a bomb first, so the reveal is not the first move of the game
    g.click_right(at(0, 0), PLAYER.entity);
    let effects = g.click_left(at(1, 1), PLAYER.entity);
    assert!(g.engine().is_won());
    assert_eq!(effects.last(), Some(&WorldEffect::PlaySound(SoundKind::Victory, at(1, 1))));
}

#[test]
fn partly_opened_board_is_not_won() {
    let mut g = flat::<3>(&[(0, 0), (2, 2)]);
    g.click_right(at(0, 0), PLAYER.entity);
    g.click_left(at(1, 0), PLAYER.entity);
    assert_eq!(state(&g, 1, 0), CellState::Opened);
    assert!(!g.engine().is_won());
    assert!(!g.engine().is_over());
}

#[test]
fn flag_toggle_respects_the_cooldown() {
    let mut g = flat::<5>(&[(4, 4)]);
    let first = g.click_right(at(1, 1), PLAYER.entity);
    assert_eq!(first, vec![WorldEffect::SetBlock(at(1, 1), BlockKind::Flagged)]);
    assert_eq!(state(&g, 1, 1), CellState::Flagged);
    assert_eq!(g.engine().flag_lock(), FLAG_COOLDOWN);
    // within the cooldown a second toggle does nothing
    let second = g.click_right(at(1, 1), PLAYER.entity);
    assert!(second.is_empty());
    assert_eq!(state(&g, 1, 1), CellState::Flagged);
    for _ in 0..FLAG_COOLDOWN {
        g.tick();
    }
    assert_eq!(g.engine().flag_lock(), 0);
    let third = g.click_right(at(1, 1), PLAYER.entity);
    assert_eq!(third, vec![WorldEffect::SetBlock(at(1, 1), BlockKind::Unopened)]);
    assert_eq!(state(&g, 1, 1), CellState::Closed);
}

#[test]
fn flagged_cell_is_not_revealed() {
    let mut g = flat::<3>(&[(0, 0)]);
    g.click_right(at(2, 2), PLAYER.entity);
    let effects = g.click_left(at(2, 2), PLAYER.entity);
    assert!(effects.is_empty());
    assert_eq!(state(&g, 2, 2), CellState::Flagged);
}

#[test]
fn clicks_outside_the_board_do_nothing() {
    let mut g = flat::<3>(&[(0, 0)]);
    assert!(g.click_left(at(3, 0), PLAYER.entity).is_empty());
    assert!(g.click_right(BlockPos { x: 0, y: 0, z: 0 }, PLAYER.entity).is_empty());
    assert_eq!(g.engine().flag_lock(), 0);
    assert!(g.engine().board().all_closed());
}

#[test]
fn tick_counts_time_until_the_game_ends() {
    let mut g = flat::<3>(&[(0, 0)]);
    g.tick();
    g.tick();
    assert_eq!(g.engine().comp_time(), 2);
    g.click_left(at(2, 2), PLAYER.entity);
    assert!(g.engine().is_won());
    g.tick();
    assert_eq!(g.engine().comp_time(), 2);
}

#[test]
fn build_refuses_taken_coordinates() {
    let mut g = flat::<3>(&[(0, 0)]);
    let mut occupied = vec![false; 9];
    occupied[4] = true;
    assert_eq!(g.build_blocks(&occupied), Err(BuildGameError::BlocksInTheWay));
    assert!(!g.is_built());
    let built = g.build_blocks(&vec![false; 9]).unwrap();
    assert!(g.is_built());
    assert_eq!(built.len(), 9);
    assert_eq!(built[4], WorldEffect::SetBlock(at(1, 1), BlockKind::Unopened));
    assert_eq!(g.footprint()[4], at(1, 1));
}

#[test]
fn reset_clears_and_records_a_win() {
    let mut g = flat::<3>(&[(0, 0)]);
    g.tick();
    g.click_left(at(2, 2), PLAYER.entity);
    assert!(g.engine().is_won());
    let (cleared, record) = g.engine().reset();
    assert_eq!(cleared.len(), 9);
    assert!(cleared.iter().all(|e| matches!(e, WorldEffect::SetBlock(_, BlockKind::Air))));
    assert_eq!(
        record,
        Some(MinesweeperRecord { size: 3, dimension: 2, comp_time: 1, bomb_amt: 1, player: PLAYER.uuid })
    );
    let lost = flat::<3>(&[(0, 0)]);
    assert_eq!(lost.engine().reset().1, None);
}

#[test]
fn cube_game_reveals_across_layers() {
    let mut bombs = vec![false; 27];
    bombs[2 + 3 * (2 + 3 * 2)] = true;
    let mut g = MineSweeperGame3d::<3>::with_layout(ANCHOR, PLAYER, &bombs);
    // cell (0,0,0) sits at the anchor; cells are three blocks apart
    g.click_left(ANCHOR, PLAYER.entity);
    assert!(g.engine().is_won());
    let (cleared, record) = g.engine().reset();
    assert_eq!(cleared.len(), 27);
    assert_eq!(record.map(|r| r.dimension), Some(3));
    let cell = g.engine().board().cell(Coord { x: 1, y: 2, z: 0 });
    assert_eq!(cell.pos, BlockPos { x: ANCHOR.x + 3, y: ANCHOR.y, z: ANCHOR.z + 6 });
}

#[test]
fn random_games_start_closed() {
    let g = MineSweeperGame::<20>::new(ANCHOR, PLAYER);
    assert!(g.engine().board().all_closed());
    assert_eq!(g.get_player(), PLAYER);
    let g3 = MineSweeperGame3d::<10>::new(ANCHOR, PLAYER);
    assert_eq!(g3.footprint().len(), 1000);
}

#[test]
fn flag_input_on_an_opened_cell_keeps_the_cooldown() {
    let mut g = flat::<3>(&[(0, 0)]);
    g.click_right(at(0, 0), PLAYER.entity);
    for _ in 0..FLAG_COOLDOWN {
        g.tick();
    }
    g.click_left(at(1, 1), PLAYER.entity);
    assert_eq!(state(&g, 1, 1), CellState::Opened);
    assert!(g.click_right(at(1, 1), PLAYER.entity).is_empty());
    assert_eq!(g.engine().flag_lock(), 0);
    assert_eq!(state(&g, 1, 1), CellState::Opened);
}

#[test]
fn finished_game_ignores_clicks_elsewhere() {
    let mut g = flat::<3>(&[(0, 0)]);
    g.click_right(at(2, 2), PLAYER.entity);
    g.click_left(at(0, 0), PLAYER.entity);
    assert!(g.engine().is_over());
    assert!(g.click_left(at(7, 7), PLAYER.entity).is_empty());
    assert!(!g.should_despawn());
    g.click_left(at(1, 2), PLAYER.entity);
    assert!(g.should_despawn());
}

#[test]
fn first_click_in_a_crowded_cube_still_opens() {
    // 4x4x4 cube, bombs everywhere but near the far corner
    let mut bombs = vec![false; 64];
    for (i, b) in bombs.iter_mut().enumerate().take(30) {
        *b = i % 2 == 0;
    }
    let mut g = MineSweeperGame3d::<4>::with_layout(ANCHOR, PLAYER, &bombs);
    g.click_left(ANCHOR, PLAYER.entity);
    let cell = g.engine().board().cell(Coord { x: 0, y: 0, z: 0 });
    assert_eq!(cell.content, CellContent::Empty);
    assert_eq!(cell.state, CellState::Opened);
    assert!(!g.engine().is_over() || g.engine().is_won());
}

#[test]
fn first_click_in_a_crowded_corner_still_opens() {
    // 5x5 with 15 bombs: the corner and its three neighbours can stay clear
    let bombs: Vec<(usize, usize)> = (0..25).map(|i| (i % 5, i / 5)).take(15).collect();
    let mut g = flat::<5>(&bombs);
    assert_eq!(content(&g, 0, 0), CellContent::Bomb);
    g.click_left(at(0, 0), PLAYER.entity);
    assert_eq!(content(&g, 0, 0), CellContent::Empty);
    assert_eq!(state(&g, 0, 0), CellState::Opened);
    let count = (0..5)
        .flat_map(|y| (0..5).map(move |x| (x, y)))
        .filter(|&(x, y)| content(&g, x, y) == CellContent::Bomb)
        .count();
    assert_eq!(count, 15);
}

#[test]
fn build_error_has_a_message() {
    assert_eq!(BuildGameError::BlocksInTheWay.message(), "Error! There are Blocks in the Way");
}
