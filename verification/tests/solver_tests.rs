use dungeon_solver::board::{Board, Cell, Unsolvable};

const PUZZLE: &str = " 35344253\n\
                      4M   M M \n\
                      4        \n\
                      2M       \n\
                      4       M\n\
                      6M       \n\
                      2       M\n\
                      3        \n\
                      4 M   M M";

#[test]
fn solve_fills_example_puzzle() {
    let mut b = Board::from_string(PUZZLE).unwrap();
    assert!(b.solve().is_ok());
    // the solved board passes the full validator
    assert_eq!(b.check_solved(), Ok(()));
    // no cell is left unknown and the given cells were kept
    let original = Board::from_string(PUZZLE).unwrap();
    for r in 0..8i8 {
        for c in 0..8i8 {
            assert!(b.at(r, c) != Cell::Unknown);
            if original.at(r, c) != Cell::Unknown {
                assert_eq!(b.at(r, c), original.at(r, c));
            }
        }
    }
}

#[test]
fn solved_board_meets_every_line_target() {
    let mut b = Board::from_string(PUZZLE).unwrap();
    assert!(b.solve().is_ok());
    for i in 0..8usize {
        let mut row_walls = 0u8;
        let mut col_walls = 0u8;
        for j in 0..8usize {
            if b.at(i as i8, j as i8) == Cell::Wall {
                row_walls += 1;
            }
            if b.at(j as i8, i as i8) == Cell::Wall {
                col_walls += 1;
            }
        }
        assert_eq!(row_walls, b.row_target(i));
        assert_eq!(col_walls, b.column_target(i));
    }
}

#[test]
fn solved_board_pairs_monsters_with_dead_ends() {
    let mut b = Board::from_string(PUZZLE).unwrap();
    assert!(b.solve().is_ok());
    for r in 0..8i8 {
        for c in 0..8i8 {
            assert_eq!(b.at(r, c) == Cell::Monster, b.is_dead_end(r, c));
        }
    }
}

#[test]
fn solve_is_deterministic() {
    let mut first = Board::from_string(PUZZLE).unwrap();
    let mut second = Board::from_string(PUZZLE).unwrap();
    let outcome_first = first.solve();
    let outcome_second = second.solve();
    assert_eq!(outcome_first.is_ok(), outcome_second.is_ok());
    for r in 0..8i8 {
        for c in 0..8i8 {
            assert_eq!(first.at(r, c), second.at(r, c));
        }
    }
}

#[test]
fn solve_accepts_already_valid_board() {
    let mut b = Board::from_string(
        " 88888888\n\
         8########\n\
         8########\n\
         8########\n\
         8########\n\
         8########\n\
         8########\n\
         8########\n\
         8########",
    )
    .unwrap();
    assert_eq!(b.solve(), Ok(()));
}

#[test]
fn solve_rejects_complete_invalid_board() {
    let mut b = Board::from_string(
        " 88888188\n\
         8########\n\
         8########\n\
         8########\n\
         8########\n\
         8########\n\
         8########\n\
         8########\n\
         8########",
    )
    .unwrap();
    assert_eq!(b.solve(), Err(Unsolvable));
}

#[test]
fn unsolvable_board_is_restored() {
    // a row target of nine can never be met on an eight-cell row
    let text = " 88888888\n\
                9        \n\
                8########\n\
                8########\n\
                8########\n\
                8########\n\
                8########\n\
                8########\n\
                8########";
    let mut b = Board::from_string(text).unwrap();
    assert_eq!(b.solve(), Err(Unsolvable));
    let original = Board::from_string(text).unwrap();
    for r in 0..8i8 {
        for c in 0..8i8 {
            assert_eq!(b.at(r, c), original.at(r, c));
        }
    }
}

#[test]
fn solve_finds_room_for_chest() {
    // the solved treasure-room board keeps its chest in exactly one valid
    // room among the nine candidate placements
    let mut b = Board::from_string(
        " 35255888\n\
         8########\n\
         5##...###\n\
         5##..C###\n\
         3.....###\n\
         7.#######\n\
         5...#####\n\
         6.#.#####\n\
         5...#####",
    )
    .unwrap();
    assert_eq!(b.solve(), Ok(()));
    let (cr, cc) = (2i8, 4i8);
    let mut rooms = 0;
    for dr in -2..=0i8 {
        for dc in -2..=0i8 {
            if b.is_treasure_room(cr + dr, cc + dc) {
                rooms += 1;
            }
        }
    }
    assert_eq!(rooms, 1);
}
