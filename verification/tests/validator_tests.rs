use dungeon_solver::board::{Board, BoardError, Cell};

#[test]
fn all_wall_board_is_valid() {
    let b = Board::from_string(
        " 88888888\n\
         8########\n\
         8########\n\
         8########\n\
         8########\n\
         8########\n\
         8########\n\
         8########\n\
         8########",
    )
    .unwrap();
    assert_eq!(b.check_solved(), Ok(()));
}

#[test]
fn single_sealed_cell_is_valid() {
    let b = Board::from_string(
        " 88878888\n\
         8########\n\
         8########\n\
         7###.####\n\
         8########\n\
         8########\n\
         8########\n\
         8########\n\
         8########",
    )
    .unwrap();
    assert_eq!(b.check_solved(), Ok(()));
}

#[test]
fn monster_pocket_is_valid() {
    let b = Board::from_string(
        " 87775658\n\
         8########\n\
         5####...#\n\
         3#M...#.#\n\
         5####...#\n\
         8########\n\
         8########\n\
         8########\n\
         8########",
    )
    .unwrap();
    assert_eq!(b.check_solved(), Ok(()));
}

#[test]
fn treasure_room_board_is_valid() {
    let b = Board::from_string(
        " 35255888\n\
         8########\n\
         5##...###\n\
         5##..C###\n\
         3.....###\n\
         7.#######\n\
         5...#####\n\
         6.#.#####\n\
         5...#####",
    )
    .unwrap();
    assert_eq!(b.check_solved(), Ok(()));
}

#[test]
fn wrong_row_count_reports_first_row() {
    let b = Board::from_string(
        " 88888888\n\
         8########\n\
         8########\n\
         8########\n\
         1########\n\
         8########\n\
         8########\n\
         8########\n\
         8########",
    )
    .unwrap();
    assert_eq!(b.check_solved(), Err(BoardError::WrongRowCount(3)));
}

#[test]
fn wrong_column_count_reports_first_column() {
    let b = Board::from_string(
        " 88888188\n\
         8########\n\
         8########\n\
         8########\n\
         8########\n\
         8########\n\
         8########\n\
         8########\n\
         8########",
    )
    .unwrap();
    assert_eq!(b.check_solved(), Err(BoardError::WrongColumnCount(5)));
}

#[test]
fn dead_end_without_monster_is_rejected() {
    let b = Board::from_string(
        " 88877688\n\
         8########\n\
         7#####.##\n\
         5###...##\n\
         8########\n\
         8########\n\
         8########\n\
         8########\n\
         8########",
    )
    .unwrap();
    assert_eq!(b.check_solved(), Err(BoardError::DeadEndWithNoMonster(1, 5)));
}

#[test]
fn monster_outside_dead_end_is_rejected() {
    let b = Board::from_string(
        " 88885658\n\
         8########\n\
         5####...#\n\
         6####.#.#\n\
         5####M..#\n\
         8########\n\
         8########\n\
         8########\n\
         8########",
    )
    .unwrap();
    assert_eq!(b.check_solved(), Err(BoardError::MonsterNotInDeadEnd(3, 4)));
}

#[test]
fn chest_with_two_entrances_is_rejected() {
    let b = Board::from_string(
        " 56443888\n\
         8########\n\
         5##...###\n\
         5##..C###\n\
         3.....###\n\
         6.###.###\n\
         3.....###\n\
         8########\n\
         8########",
    )
    .unwrap();
    assert_eq!(b.check_solved(), Err(BoardError::NoTreasureRoomForChest(2, 4)));
}

#[test]
fn disconnected_corridors_are_rejected() {
    let b = Board::from_string(
        " 84645658\n\
         8########\n\
         5#...####\n\
         6#.#.####\n\
         6#.#.####\n\
         5#...####\n\
         5####...#\n\
         6####.#.#\n\
         5####...#",
    )
    .unwrap();
    assert_eq!(b.check_solved(), Err(BoardError::UnconnectedCorridors));
}

#[test]
fn wide_corridor_is_rejected() {
    let b = Board::from_string(
        " 88882458\n\
         8########\n\
         8########\n\
         6####..##\n\
         6####..##\n\
         7####.###\n\
         5####...#\n\
         6####.#.#\n\
         5####...#",
    )
    .unwrap();
    assert_eq!(b.check_solved(), Err(BoardError::CorridorsTooWide(2, 4)));
}

#[test]
fn incomplete_board_is_unsolved() {
    let b = Board::from_string(
        " 88888888\n\
         8########\n\
         8### ####\n\
         8########\n\
         8########\n\
         8########\n\
         8########\n\
         8########\n\
         8########",
    )
    .unwrap();
    assert_eq!(b.check_solved(), Err(BoardError::Unsolved));
}

#[test]
fn accessor_reads_cells_and_outside_as_wall() {
    let b = Board::from_string(
        " 87775658\n\
         8########\n\
         5####...#\n\
         3#M...#.#\n\
         5####...#\n\
         8########\n\
         8########\n\
         8########\n\
         8########",
    )
    .unwrap();
    assert_eq!(b.at(2, 1), Cell::Monster);
    assert_eq!(b.at(1, 4), Cell::Empty);
    assert_eq!(b.at(0, 0), Cell::Wall);
    assert_eq!(b.at(-1, 3), Cell::Wall);
    assert_eq!(b.at(3, 8), Cell::Wall);
    assert_eq!(b.at(8, 0), Cell::Wall);
    assert!(b.is_in_bounds(0, 0));
    assert!(b.is_in_bounds(7, 7));
    assert!(!b.is_in_bounds(-1, 0));
    assert!(!b.is_in_bounds(0, 8));
}

#[test]
fn dead_end_classifier_is_exact() {
    let b = Board::from_string(
        " 88877688\n\
         8########\n\
         7#####.##\n\
         5###...##\n\
         8########\n\
         8########\n\
         8########\n\
         8########\n\
         8########",
    )
    .unwrap();
    // (1, 5) has exactly three wall neighbours.
    assert!(b.is_dead_end(1, 5));
    // (2, 4) has two wall neighbours.
    assert!(!b.is_dead_end(2, 4));
    // a wall is never a dead end.
    assert!(!b.is_dead_end(0, 0));
}

#[test]
fn maybe_dead_end_tolerates_unknowns() {
    let b = Board::from_string(
        " 88888888\n\
         8#M      \n\
         8        \n\
         8########\n\
         8########\n\
         8########\n\
         8########\n\
         8########\n\
         8########",
    )
    .unwrap();
    // the monster sees two walls and two unknowns: possibly a dead end.
    assert!(b.maybe_dead_end(0, 1));
    // a cell flanked by two empties can no longer be a dead end.
    let open = Board::from_string(
        " 88888888\n\
         8........\n\
         8........\n\
         8########\n\
         8########\n\
         8########\n\
         8########\n\
         8########\n\
         8########",
    )
    .unwrap();
    assert!(!open.maybe_dead_end(0, 3));
}

#[test]
fn treasure_room_classifiers() {
    let b = Board::from_string(
        " 35255888\n\
         8########\n\
         5##...###\n\
         5##..C###\n\
         3.....###\n\
         7.#######\n\
         5...#####\n\
         6.#.#####\n\
         5...#####",
    )
    .unwrap();
    assert!(b.is_treasure_room(1, 2));
    assert!(!b.is_treasure_room(0, 0));
    assert!(b.maybe_treasure_room(1, 2));
    // an unknown interior cell keeps the relaxed test hopeful where the
    // exact test already fails.
    let partial = Board::from_string(
        " 35255888\n\
         8########\n\
         5##...###\n\
         5##..C###\n\
         3.... ###\n\
         7.#######\n\
         5...#####\n\
         6.#.#####\n\
         5...#####",
    )
    .unwrap();
    assert!(partial.maybe_treasure_room(1, 2));
}

#[test]
fn line_count_ranges_on_partial_boards() {
    let b = Board::from_string(
        " 35344253\n\
         4M   M M \n\
         4        \n\
         2M       \n\
         4       M\n\
         6M       \n\
         2       M\n\
         3        \n\
         4 M   M M",
    )
    .unwrap();
    assert_eq!(b.rows_acceptable(), Ok(()));
    assert_eq!(b.cols_acceptable(), Ok(()));
    // a row of eight empties can no longer reach a positive target.
    let stuck = Board::from_string(
        " 11111111\n\
         8........\n\
         1        \n\
         1        \n\
         1        \n\
         1        \n\
         1        \n\
         1        \n\
         1        ",
    )
    .unwrap();
    assert_eq!(stuck.rows_acceptable(), Err(0));
    assert_eq!(stuck.maybe_solvable(), Err(BoardError::WrongRowCount(0)));
}

#[test]
fn feasibility_accepts_solvable_partial_board() {
    let b = Board::from_string(
        " 35344253\n\
         4M   M M \n\
         4        \n\
         2M       \n\
         4       M\n\
         6M       \n\
         2       M\n\
         3        \n\
         4 M   M M",
    )
    .unwrap();
    // soundness of pruning on a concrete partial board with a solution
    assert!(b.maybe_solvable().is_ok());
}

#[test]
fn parse_rejects_malformed_input() {
    assert!(Board::from_string("").is_err());
    assert!(Board::from_string("garbage").is_err());
    // wrong line length
    assert!(Board::from_string(
        " 8888888\n\
         8########\n\
         8########\n\
         8########\n\
         8########\n\
         8########\n\
         8########\n\
         8########\n\
         8########"
    )
    .is_err());
    // a letter where a digit belongs
    assert!(Board::from_string(
        " 8888888x\n\
         8########\n\
         8########\n\
         8########\n\
         8########\n\
         8########\n\
         8########\n\
         8########\n\
         8########"
    )
    .is_err());
    // an unknown cell character
    assert!(Board::from_string(
        " 88888888\n\
         8####?###\n\
         8########\n\
         8########\n\
         8########\n\
         8########\n\
         8########\n\
         8########\n\
         8########"
    )
    .is_err());
}

#[test]
fn parse_accepts_trailing_newline() {
    let b = Board::from_string(
        " 88888888\n\
         8########\n\
         8########\n\
         8########\n\
         8########\n\
         8########\n\
         8########\n\
         8########\n\
         8########\n",
    )
    .unwrap();
    assert_eq!(b.check_solved(), Ok(()));
}

#[test]
fn parse_accepts_carriage_returns() {
    let b = Board::from_string(
        " 88888888\r\n\
         8########\r\n\
         8########\r\n\
         8########\r\n\
         8########\r\n\
         8########\r\n\
         8########\r\n\
         8########\r\n\
         8########",
    )
    .unwrap();
    assert_eq!(b.check_solved(), Ok(()));
}

#[test]
fn parse_defaults_missing_trailing_rows() {
    // only five board rows are given: the remaining three default to all
    // empty cells with a row target of zero
    let b = Board::from_string(
        " 00000000\n\
         0        \n\
         0M.#C    \n\
         0        \n\
         0        \n\
         0        ",
    )
    .unwrap();
    assert_eq!(b.at(1, 0), Cell::Monster);
    assert_eq!(b.at(1, 3), Cell::Chest);
    for r in 5..8i8 {
        assert_eq!(b.row_target(r as usize), 0);
        for c in 0..8i8 {
            assert_eq!(b.at(r, c), Cell::Empty);
        }
    }
}

#[test]
fn parse_rejects_ninth_board_line() {
    assert!(Board::from_string(
        " 88888888\n\
         8########\n\
         8########\n\
         8########\n\
         8########\n\
         8########\n\
         8########\n\
         8########\n\
         8########\n\
         8########"
    )
    .is_err());
}

#[test]
fn parse_reads_targets_and_cells() {
    let b = Board::from_string(
        " 35344253\n\
         4M   M M \n\
         4        \n\
         2M       \n\
         4       M\n\
         6M       \n\
         2       M\n\
         3        \n\
         4 M   M M",
    )
    .unwrap();
    assert_eq!(b.column_target(0), 3);
    assert_eq!(b.column_target(7), 3);
    assert_eq!(b.row_target(0), 4);
    assert_eq!(b.row_target(6), 3);
    assert_eq!(b.at(0, 0), Cell::Monster);
    assert_eq!(b.at(0, 1), Cell::Unknown);
    assert_eq!(b.at(7, 1), Cell::Monster);
    assert_eq!(b.at(7, 7), Cell::Monster);
}
