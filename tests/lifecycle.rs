use minigames::{
    start_game, BlockKind, BlockPos, CustomGame, CustomGameContainer, Direction, GameCoordinator,
    GameRecord, ItemStackInfo, MineSweeperGame, MinesweeperRecord, Player, StartItemType, WorldEffect,
};

const ANCHOR: BlockPos = BlockPos { x: 0, y: 64, z: 0 };

fn player(n: u64) -> Player {
    Player { entity: n, uuid: 1000 + n as u128 }
}

fn at(x: usize, y: usize) -> BlockPos {
    BlockPos { x: ANCHOR.x + x as i32, y: ANCHOR.y, z: ANCHOR.z + y as i32 }
}

/// A 20x20 game with a single bomb in the far corner.
fn easy_game(p: Player) -> CustomGameContainer {
    let mut bombs = vec![false; 400];
    bombs[399] = true;
    CustomGameContainer::Minesweeper(MineSweeperGame::<20>::with_layout(ANCHOR, p, &bombs))
}

#[test]
fn finished_game_is_torn_down_once() {
    let mut coord = GameCoordinator::new();
    coord.spawn(easy_game(player(1)));
    let built = coord.build_game(0, &vec![false; 400]).unwrap();
    assert_eq!(built.len(), 400);
    coord.tick_games();
    // one click clears the board: the game is won
    let effects = coord.click_left(at(0, 0), 1);
    assert_eq!(effects.last().map(|e| matches!(e, WorldEffect::PlaySound(..))), Some(true));
    // the next click on a finished game asks for its removal
    coord.click_left(at(0, 0), 1);
    assert!(coord.game(0).should_despawn());
    let (cleared, records) = coord.despawn_games();
    assert_eq!(coord.len(), 0);
    assert_eq!(cleared.len(), 400);
    assert!(cleared.iter().all(|e| matches!(e, WorldEffect::SetBlock(_, BlockKind::Air))));
    assert_eq!(
        records,
        vec![GameRecord::Minesweeper(MinesweeperRecord {
            size: 20,
            dimension: 2,
            comp_time: 1,
            bomb_amt: 1,
            player: 1001
        })]
    );
    // a second round finds nothing left to tear down and stores nothing
    let (again, more) = coord.despawn_games();
    assert!(again.is_empty());
    assert!(more.is_empty());
}

#[test]
fn only_finished_games_are_removed() {
    let mut coord = GameCoordinator::new();
    coord.spawn(easy_game(player(1)));
    coord.spawn(easy_game(player(2)));
    coord.build_game(0, &vec![false; 400]).unwrap();
    coord.build_game(1, &vec![false; 400]).unwrap();
    // both games share the anchor, so a click reaches both; lose neither, win both
    coord.click_left(at(0, 0), 1);
    assert!(!coord.game(0).should_despawn());
    let (_, records) = coord.despawn_games();
    assert!(records.is_empty());
    assert_eq!(coord.len(), 2);
    coord.click_left(at(5, 5), 1);
    let (cleared, records) = coord.despawn_games();
    assert_eq!(records.len(), 2);
    assert_eq!(cleared.len(), 800);
    assert_eq!(coord.len(), 0);
}

#[test]
fn game_that_cannot_be_built_is_dropped() {
    let mut coord = GameCoordinator::new();
    coord.spawn(easy_game(player(3)));
    let mut occupied = vec![false; 400];
    occupied[17] = true;
    assert!(coord.build_game(0, &occupied).is_err());
    assert_eq!(coord.len(), 0);
}

#[test]
fn lost_game_stores_nothing() {
    let mut coord = GameCoordinator::new();
    coord.spawn(easy_game(player(4)));
    coord.build_game(0, &vec![false; 400]).unwrap();
    coord.click_right(at(10, 10), 4);
    coord.click_left(at(19, 19), 4);
    coord.click_left(at(0, 0), 4);
    let (cleared, records) = coord.despawn_games();
    assert_eq!(cleared.len(), 400);
    assert!(records.is_empty());
}

#[test]
fn start_items_round_trip() {
    for t in StartItemType::all_types() {
        let item = StartItemType::create_start_item(t);
        assert!(item.is_stick);
        assert_eq!(StartItemType::get_start_item_type(&item), Some(t));
    }
    assert_eq!(
        StartItemType::create_start_item(StartItemType::Minesweeper).display_name,
        Some("\"Minesweeper\"".to_string())
    );
}

#[test]
fn other_items_start_nothing() {
    let not_stick = ItemStackInfo { is_stick: false, display_name: Some("\"Minesweeper\"".to_string()) };
    assert_eq!(StartItemType::get_start_item_type(&not_stick), None);
    let unnamed = ItemStackInfo { is_stick: true, display_name: None };
    assert_eq!(StartItemType::get_start_item_type(&unnamed), None);
    let other = ItemStackInfo { is_stick: true, display_name: Some("Minesweeper".to_string()) };
    assert_eq!(StartItemType::get_start_item_type(&other), None);
}

#[test]
fn start_game_picks_the_kind() {
    let p = player(5);
    let flat = start_game(StartItemType::Minesweeper, ANCHOR, Direction::North, p).unwrap();
    assert_eq!(flat.footprint().len(), 400);
    assert_eq!(flat.get_player(), p);
    let cube = start_game(StartItemType::Minesweeper3D10x10, ANCHOR, Direction::North, p).unwrap();
    assert_eq!(cube.footprint().len(), 1000);
    assert!(start_game(StartItemType::Minesweeper3D20x20, ANCHOR, Direction::North, p).is_none());
    let rsg = start_game(StartItemType::RSG5, ANCHOR, Direction::East, p).unwrap();
    assert_eq!(rsg.footprint().len(), 50);
    let rsg7 = start_game(StartItemType::RSG7, ANCHOR, Direction::South, p).unwrap();
    assert_eq!(rsg7.footprint().len(), 98);
    assert!(start_game(StartItemType::RSG5, ANCHOR, Direction::Up, p).is_none());
    let edge = BlockPos { x: i32::MAX - 5, y: 64, z: 0 };
    assert!(start_game(StartItemType::Minesweeper, edge, Direction::North, p).is_none());
}

#[test]
fn run_tick_ticks_clicks_and_removes_in_order() {
    let mut coord = GameCoordinator::new();
    coord.spawn(easy_game(player(6)));
    coord.build_game(0, &vec![false; 400]).unwrap();
    // the primary click wins the game; removal waits for a click on it
    let (effects, records) = coord.run_tick(&vec![], &vec![(at(0, 0), 6)]);
    assert!(!effects.is_empty());
    assert!(records.is_empty());
    assert_eq!(coord.len(), 1);
    // a click outside the board leaves the finished game alone
    let (_, records) = coord.run_tick(&vec![], &vec![(at(30, 30), 6)]);
    assert!(records.is_empty());
    assert_eq!(coord.len(), 1);
    let (cleared, records) = coord.run_tick(&vec![], &vec![(at(3, 3), 6)]);
    assert_eq!(records.len(), 1);
    assert_eq!(cleared.len(), 400);
    assert_eq!(coord.len(), 0);
}
