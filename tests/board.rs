use minigames::board::random_layout;
use minigames::{get_num_color, BlockKind, BlockPos, Board, CellContent, CellState, Coord};

fn origin() -> BlockPos {
    BlockPos { x: 0, y: 64, z: 0 }
}

fn layout(dim: usize, layers: usize, bombs: &[(usize, usize, usize)]) -> Vec<bool> {
    let mut v = vec![false; dim * dim * layers];
    for &(x, y, z) in bombs {
        v[x + dim * (y + dim * z)] = true;
    }
    v
}

fn recount(board: &Board, c: Coord) -> u8 {
    let dim = board.dim() as i64;
    let layers = board.layers() as i64;
    let mut n = 0;
    for dz in -1i64..=1 {
        for dy in -1i64..=1 {
            for dx in -1i64..=1 {
                if dx == 0 && dy == 0 && dz == 0 {
                    continue;
                }
                let (x, y, z) = (c.x as i64 + dx, c.y as i64 + dy, c.z as i64 + dz);
                if x < 0 || y < 0 || z < 0 || x >= dim || y >= dim || z >= layers {
                    continue;
                }
                let w = Coord { x: x as usize, y: y as usize, z: z as usize };
                if board.cell(w).content == CellContent::Bomb {
                    n += 1;
                }
            }
        }
    }
    n
}

fn check_generated(board: &Board, bomb_count: usize) {
    let mut bombs = 0;
    for z in 0..board.layers() {
        for y in 0..board.dim() {
            for x in 0..board.dim() {
                let c = Coord { x, y, z };
                let cell = board.cell(c);
                assert_eq!(cell.state, CellState::Closed);
                match cell.content {
                    CellContent::Bomb => bombs += 1,
                    CellContent::Empty => assert_eq!(recount(board, c), 0),
                    CellContent::Number(n) => {
                        assert!(n >= 1);
                        assert_eq!(recount(board, c), n);
                    }
                }
            }
        }
    }
    assert_eq!(bombs, bomb_count);
}

#[test]
fn generated_flat_board_has_exact_bombs_and_numbers() {
    for _ in 0..5 {
        let board = Board::generate(20, 1, 1, origin(), 40);
        check_generated(&board, 40);
    }
}

#[test]
fn generated_cube_has_exact_bombs_and_numbers() {
    let board = Board::generate(10, 10, 3, origin(), 130);
    check_generated(&board, 130);
}

#[test]
fn generated_board_full_of_bombs() {
    let board = Board::generate(3, 1, 1, origin(), 9);
    check_generated(&board, 9);
    let none = Board::generate(3, 1, 1, origin(), 0);
    check_generated(&none, 0);
}

#[test]
fn random_layout_counts_exactly() {
    for count in [0usize, 1, 7, 25] {
        let v = random_layout(25, count);
        assert_eq!(v.len(), 25);
        assert_eq!(v.iter().filter(|b| **b).count(), count);
    }
}

#[test]
fn layout_numbers_in_flat_board() {
    // bombs at (0,0) and (2,0) on a 3x3 board
    let board = Board::from_layout(3, 1, 1, origin(), &layout(3, 1, &[(0, 0, 0), (2, 0, 0)]));
    assert_eq!(board.cell(Coord { x: 1, y: 0, z: 0 }).content, CellContent::Number(2));
    assert_eq!(board.cell(Coord { x: 1, y: 1, z: 0 }).content, CellContent::Number(2));
    assert_eq!(board.cell(Coord { x: 0, y: 1, z: 0 }).content, CellContent::Number(1));
    assert_eq!(board.cell(Coord { x: 0, y: 2, z: 0 }).content, CellContent::Empty);
    assert_eq!(board.cell(Coord { x: 2, y: 0, z: 0 }).content, CellContent::Bomb);
}

#[test]
fn layout_numbers_in_cube_count_all_neighbours() {
    // every cell of a 3x3x3 cube but the centre is a bomb: the centre sees 26
    let mut bombs = vec![true; 27];
    bombs[1 + 3 * (1 + 3)] = false;
    let board = Board::from_layout(3, 3, 3, origin(), &bombs);
    assert_eq!(board.cell(Coord { x: 1, y: 1, z: 1 }).content, CellContent::Number(26));
}

#[test]
fn positions_follow_the_anchor() {
    let anchor = BlockPos { x: 10, y: 64, z: -5 };
    let flat = Board::from_layout(4, 1, 1, anchor, &layout(4, 1, &[]));
    assert_eq!(flat.cell(Coord { x: 2, y: 3, z: 0 }).pos, BlockPos { x: 12, y: 64, z: -2 });
    let cube = Board::from_layout(4, 4, 3, anchor, &layout(4, 4, &[]));
    assert_eq!(cube.cell(Coord { x: 1, y: 2, z: 3 }).pos, BlockPos { x: 13, y: 73, z: 1 });
    assert_eq!(cube.locate(BlockPos { x: 13, y: 73, z: 1 }), Some(Coord { x: 1, y: 2, z: 3 }));
    assert_eq!(cube.locate(BlockPos { x: 12, y: 73, z: 1 }), None);
    assert_eq!(cube.footprint().len(), 64);
}

#[test]
fn neighbours_are_clipped_to_the_board() {
    let flat = Board::from_layout(5, 1, 1, origin(), &layout(5, 1, &[]));
    assert_eq!(flat.neighbors(Coord { x: 0, y: 0, z: 0 }).len(), 3);
    assert_eq!(flat.neighbors(Coord { x: 2, y: 2, z: 0 }).len(), 8);
    let cube = Board::from_layout(3, 3, 3, origin(), &layout(3, 3, &[]));
    assert_eq!(cube.neighbors(Coord { x: 1, y: 1, z: 1 }).len(), 26);
    assert_eq!(cube.neighbors(Coord { x: 0, y: 0, z: 0 }).len(), 7);
}

#[test]
fn open_region_stops_at_numbers_and_flags() {
    // 5x5, bomb at (4,4): everything but the bomb opens from (0,0)
    let mut board = Board::from_layout(5, 1, 1, origin(), &layout(5, 1, &[(4, 4, 0)]));
    board.open_region(Coord { x: 0, y: 0, z: 0 });
    for y in 0..5 {
        for x in 0..5 {
            let s = board.cell(Coord { x, y, z: 0 }).state;
            if (x, y) == (4, 4) {
                assert_eq!(s, CellState::Closed);
            } else {
                assert_eq!(s, CellState::Opened);
            }
        }
    }
    // a wall of bombs in column 2 keeps the cascade on its side
    let mut walled =
        Board::from_layout(5, 1, 1, origin(), &layout(5, 1, &[(2, 0, 0), (2, 1, 0), (2, 2, 0), (2, 3, 0), (2, 4, 0)]));
    walled.set_state(Coord { x: 0, y: 4, z: 0 }, CellState::Flagged);
    walled.open_region(Coord { x: 0, y: 0, z: 0 });
    for y in 0..5 {
        for x in 0..5 {
            let s = walled.cell(Coord { x, y, z: 0 }).state;
            if x <= 1 && (x, y) != (0, 4) {
                assert_eq!(s, CellState::Opened, "({x},{y})");
            } else if (x, y) == (0, 4) {
                assert_eq!(s, CellState::Flagged);
            } else {
                assert_eq!(s, CellState::Closed, "({x},{y})");
            }
        }
    }
}

#[test]
fn opening_a_number_opens_only_it() {
    let mut board = Board::from_layout(3, 1, 1, origin(), &layout(3, 1, &[(0, 0, 0)]));
    board.open_region(Coord { x: 1, y: 1, z: 0 });
    let opened = board.states().iter().filter(|s| **s == CellState::Opened).count();
    assert_eq!(opened, 1);
}

#[test]
fn appearance_of_contents() {
    assert_eq!(get_num_color(CellContent::Empty), BlockKind::Empty);
    assert_eq!(get_num_color(CellContent::Bomb), BlockKind::Bomb);
    assert_eq!(get_num_color(CellContent::Number(3)), BlockKind::Number(3));
}

#[test]
fn clear_cell_board_keeps_the_neighbourhood_free() {
    let c = Coord { x: 0, y: 0, z: 0 };
    let board = Board::with_clear_cell(5, 1, 1, origin(), 21, c);
    check_generated(&board, 21);
    assert_eq!(board.cell(c).content, CellContent::Empty);
    assert_eq!(board.neighbourhood_size(c), 4);
    let cube = Board::with_clear_cell(3, 3, 3, origin(), 0, Coord { x: 1, y: 1, z: 1 });
    assert_eq!(cube.neighbourhood_size(Coord { x: 1, y: 1, z: 1 }), 27);
}
