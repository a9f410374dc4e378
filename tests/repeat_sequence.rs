use minigames::repeat_sequence::{INPUT_TICKS, STEP_TICKS};
use minigames::{
    BlockKind, BlockPos, CustomGame, Direction, GameRecord, GameState, Player, RepeatSequenceGame,
    SoundKind, WorldEffect,
};

const PLAYER: Player = Player { entity: 3, uuid: 33 };

fn bl() -> BlockPos {
    BlockPos { x: 10, y: 64, z: 20 }
}

/// Ticks until the game waits for input; returns every effect on the way.
fn run_until_input(g: &mut RepeatSequenceGame<5>) -> Vec<WorldEffect> {
    let mut all = Vec::new();
    for _ in 0..10_000 {
        if g.state() == GameState::WaitForInput {
            break;
        }
        all.extend(RepeatSequenceGame::tick(g));
    }
    assert_eq!(g.state(), GameState::WaitForInput);
    all
}

#[test]
fn wall_and_buttons_are_laid_out_by_direction() {
    let g = RepeatSequenceGame::<5>::new_with_bottom_left(bl(), Direction::North, PLAYER);
    let fp = CustomGame::footprint(&g);
    assert_eq!(fp.len(), 50);
    // column 2, row 3 of the wall, and the button in front of it (south)
    assert_eq!(fp[2 * 5 + 3], BlockPos { x: 12, y: 67, z: 20 });
    assert_eq!(fp[25 + 2 * 5 + 3], BlockPos { x: 12, y: 67, z: 21 });
    let east = RepeatSequenceGame::<5>::new_with_bottom_left(bl(), Direction::East, PLAYER);
    let fp = CustomGame::footprint(&east);
    assert_eq!(fp[2 * 5 + 3], BlockPos { x: 10, y: 67, z: 22 });
    assert_eq!(fp[25 + 2 * 5 + 3], BlockPos { x: 9, y: 67, z: 22 });
}

#[test]
fn wall_stands_ahead_of_the_player() {
    let g = RepeatSequenceGame::<5>::new(BlockPos { x: 0, y: 64, z: 0 }, Direction::North, PLAYER);
    // four blocks north, shifted three to the west
    assert_eq!(CustomGame::footprint(&g)[0], BlockPos { x: -3, y: 64, z: -4 });
}

#[test]
fn a_round_shows_the_sequence_then_waits() {
    let mut g = RepeatSequenceGame::<5>::new_with_bottom_left(bl(), Direction::North, PLAYER);
    let effects = run_until_input(&mut g);
    assert_eq!(g.sequence().len(), 1);
    let wall = g.sequence()[0].1;
    assert_eq!(
        effects,
        vec![WorldEffect::SetBlock(wall, BlockKind::Lit), WorldEffect::SetBlock(wall, BlockKind::Wall)]
    );
    // the first step never uses the button at the origin, nor leaves the wall
    assert!(CustomGame::footprint(&g).contains(&g.sequence()[0].0));
}

#[test]
fn repeating_the_sequence_starts_the_next_round() {
    let mut g = RepeatSequenceGame::<5>::new_with_bottom_left(bl(), Direction::North, PLAYER);
    run_until_input(&mut g);
    let button = g.sequence()[0].0;
    let effects = g.click(button, PLAYER.entity);
    assert_eq!(
        effects,
        vec![
            WorldEffect::PlaySound(SoundKind::Correct, button),
            WorldEffect::PlaySound(SoundKind::SequenceDone, button),
        ]
    );
    assert_eq!(g.state(), GameState::Idle);
    run_until_input(&mut g);
    assert_eq!(g.sequence().len(), 2);
    assert_ne!(g.sequence()[1].0, g.sequence()[0].0);
}

#[test]
fn three_misses_end_the_game() {
    let mut g = RepeatSequenceGame::<5>::new_with_bottom_left(bl(), Direction::North, PLAYER);
    run_until_input(&mut g);
    let right = g.sequence()[0].0;
    let fp = CustomGame::footprint(&g);
    let wrong = *fp[25..].iter().find(|b| **b != right).unwrap();
    // presses by someone else, or off the buttons, do nothing
    assert!(g.click(wrong, PLAYER.entity + 1).is_empty());
    assert!(g.click(fp[0], PLAYER.entity).is_empty());
    for n in 1..=3 {
        let effects = g.click(wrong, PLAYER.entity);
        assert_eq!(effects, vec![WorldEffect::PlaySound(SoundKind::Miss, wrong)]);
        assert_eq!(g.missed_clicks(), n);
        assert_eq!(g.should_despawn(), n >= 3);
    }
}

#[test]
fn waiting_too_long_ends_the_game() {
    let mut g = RepeatSequenceGame::<5>::new_with_bottom_left(bl(), Direction::North, PLAYER);
    run_until_input(&mut g);
    for _ in 0..INPUT_TICKS {
        RepeatSequenceGame::tick(&mut g);
    }
    assert!(!g.should_despawn());
    RepeatSequenceGame::tick(&mut g);
    assert!(g.should_despawn());
    assert!(STEP_TICKS > 0);
}

#[test]
fn build_and_reset_of_a_sequence_game() {
    let mut g = RepeatSequenceGame::<5>::new_with_bottom_left(bl(), Direction::West, PLAYER);
    let mut occupied = vec![false; 50];
    occupied[49] = true;
    assert!(CustomGame::build_blocks(&mut g, &occupied).is_err());
    let built = CustomGame::build_blocks(&mut g, &vec![false; 50]).unwrap();
    assert_eq!(built.len(), 50);
    assert_eq!(built[0], WorldEffect::SetBlock(bl(), BlockKind::Wall));
    // the buttons of a wall built towards the west face east
    assert!(matches!(built[25], WorldEffect::SetBlock(_, BlockKind::Button(Direction::East))));
    run_until_input(&mut g);
    let (cleared, record) = CustomGame::reset(&g);
    assert_eq!(cleared.len(), 50);
    assert!(cleared.iter().all(|e| matches!(e, WorldEffect::SetBlock(_, BlockKind::Air))));
    assert_eq!(
        record,
        Some(GameRecord::RepeatSequence(minigames::repeat_sequence::RsgRecord {
            size: 5,
            streak: 1,
            player: 33
        }))
    );
}
