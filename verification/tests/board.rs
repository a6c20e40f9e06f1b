use ferris_minesweeper::{Board, MineMap, Position, Square, Tag};

fn board_with(rows: u8, cols: u8, mines: &[(i32, i32)]) -> Board {
    let mut map = MineMap::new(rows, cols);
    for (x, y) in mines {
        assert!(map.lay_mine(Position::new(*x, *y)));
    }
    Board::build(&map)
}

fn sorted(mut positions: Vec<Position>) -> Vec<(i32, i32)> {
    positions.sort_by_key(|p| (p.x, p.y));
    positions.iter().map(|p| (p.x, p.y)).collect()
}

fn opened_count(board: &Board) -> usize {
    let mut count = 0;
    for x in 0..board.rows() {
        for y in 0..board.cols() {
            let square = board.square(Position::new(i32::from(x), i32::from(y))).unwrap();
            if square.opened {
                count += 1;
            }
        }
    }
    count
}

#[test]
fn build_makes_one_closed_square_for_each_position() {
    let board = board_with(3, 4, &[(0, 1), (2, 3)]);
    assert_eq!(board.rows(), 3);
    assert_eq!(board.cols(), 4);
    assert_eq!(board.mine_count(), 2);
    for x in 0..3 {
        for y in 0..4 {
            let position = Position::new(x, y);
            assert!(board.contains(position));
            let mined = (x, y) == (0, 1) || (x, y) == (2, 3);
            assert_eq!(
                board.square(position),
                Some(Square { position, mined, opened: false, tag: Tag::Untagged })
            );
            assert_eq!(board.position_mined(position), mined);
        }
    }
}

#[test]
fn there_is_no_square_off_the_board() {
    let board = board_with(3, 4, &[]);
    for (x, y) in [(-1, 0), (0, -1), (3, 0), (0, 4), (3, 4), (i32::MAX, i32::MIN)] {
        let position = Position::new(x, y);
        assert!(!board.contains(position));
        assert_eq!(board.square(position), None);
        assert!(!board.position_mined(position));
    }
}

#[test]
fn a_random_board_has_the_mines_asked_for() {
    let board = Board::new(8, 10, 10);
    assert_eq!(board.rows(), 8);
    assert_eq!(board.cols(), 10);
    assert_eq!(board.mine_count(), 10);
    let mut mines = 0;
    for x in 0..8 {
        for y in 0..10 {
            let square = board.square(Position::new(x, y)).unwrap();
            assert!(!square.opened);
            assert_eq!(square.tag, Tag::Untagged);
            assert_eq!(square.position, Position::new(x, y));
            if square.mined {
                mines += 1;
            }
        }
    }
    assert_eq!(mines, 10);
    assert!(!board.won());
    assert!(!board.lost());
}

#[test]
fn adjacent_mines_counts_the_mined_neighbours() {
    let board = board_with(3, 3, &[(0, 0), (0, 1), (2, 2)]);
    assert_eq!(board.adjacent_mines(Position::new(1, 1)), 3);
    assert_eq!(board.adjacent_mines(Position::new(0, 0)), 1);
    assert_eq!(board.adjacent_mines(Position::new(0, 1)), 1);
    assert_eq!(board.adjacent_mines(Position::new(0, 2)), 1);
    assert_eq!(board.adjacent_mines(Position::new(1, 0)), 2);
    assert_eq!(board.adjacent_mines(Position::new(2, 0)), 0);
    assert_eq!(board.adjacent_mines(Position::new(2, 2)), 0);
}

#[test]
fn adjacent_mines_of_a_square_surrounded_by_mines_is_eight() {
    let board = board_with(
        3,
        3,
        &[(0, 0), (0, 1), (0, 2), (1, 0), (1, 2), (2, 0), (2, 1), (2, 2)],
    );
    assert_eq!(board.adjacent_mines(Position::new(1, 1)), 8);
}

#[test]
fn adjacent_mines_of_a_position_off_the_board() {
    let board = board_with(2, 2, &[(0, 0)]);
    assert_eq!(board.adjacent_mines(Position::new(5, 5)), 0);
    assert_eq!(board.adjacent_mines(Position::new(-10, 0)), 0);
    assert_eq!(board.adjacent_mines(Position::new(-1, -1)), 1);
    assert_eq!(board.adjacent_mines(Position::new(2, 2)), 0);
}

#[test]
fn a_single_square_without_a_mine_is_won_by_one_reveal() {
    let mut board = board_with(1, 1, &[]);
    assert!(!board.won());
    let opened = board.open_position(Position::new(0, 0));
    assert_eq!(opened, vec![Position::new(0, 0)]);
    assert!(board.won());
    assert!(!board.lost());
}

#[test]
fn a_reveal_next_to_a_mine_opens_one_square() {
    let mut board = board_with(3, 3, &[(1, 1)]);
    for x in 0..3 {
        for y in 0..3 {
            if (x, y) != (1, 1) {
                assert_eq!(board.adjacent_mines(Position::new(x, y)), 1);
            }
        }
    }
    let opened = board.open_position(Position::new(0, 0));
    assert_eq!(opened, vec![Position::new(0, 0)]);
    assert_eq!(opened_count(&board), 1);
    assert!(!board.square(Position::new(1, 1)).unwrap().opened);
    assert!(!board.won());
    assert!(!board.lost());
}

#[test]
fn a_reveal_spreads_over_squares_without_a_mine_nearby() {
    let mut board = board_with(5, 5, &[(2, 2)]);
    let opened = board.open_position(Position::new(0, 0));
    assert_eq!(opened.len(), 24);
    let mut expected = Vec::new();
    for x in 0..5 {
        for y in 0..5 {
            if (x, y) != (2, 2) {
                expected.push((x, y));
            }
        }
    }
    assert_eq!(sorted(opened), expected);
    assert!(!board.square(Position::new(2, 2)).unwrap().opened);
    assert!(board.won());
    assert!(!board.lost());
}

#[test]
fn a_reveal_stops_at_the_numbered_border() {
    // Mines in column 2 cut the board in two.
    let mut board = board_with(3, 5, &[(0, 2), (1, 2), (2, 2)]);
    let opened = board.open_position(Position::new(1, 0));
    assert_eq!(sorted(opened), vec![(0, 0), (0, 1), (1, 0), (1, 1), (2, 0), (2, 1)]);
    assert_eq!(opened_count(&board), 6);
    assert!(!board.won());
    assert!(!board.lost());
    let other = board.open_position(Position::new(1, 4));
    assert_eq!(sorted(other), vec![(0, 3), (0, 4), (1, 3), (1, 4), (2, 3), (2, 4)]);
    assert!(board.won());
}

#[test]
fn a_reveal_opens_no_square_twice() {
    let mut board = board_with(6, 6, &[(5, 5)]);
    let opened = board.open_position(Position::new(0, 0));
    assert_eq!(opened.len(), 35);
    let listed = sorted(opened);
    for pair in listed.windows(2) {
        assert_ne!(pair[0], pair[1]);
    }
    assert!(board.open_position(Position::new(0, 0)).is_empty());
    assert!(board.open_position(Position::new(3, 3)).is_empty());
    assert_eq!(opened_count(&board), 35);
}

#[test]
fn a_reveal_passes_by_marked_squares() {
    let mut board = board_with(1, 5, &[]);
    assert_eq!(board.tag_position(Position::new(0, 2)), Tag::Flag);
    let opened = board.open_position(Position::new(0, 0));
    assert_eq!(sorted(opened), vec![(0, 0), (0, 1)]);
    assert!(!board.square(Position::new(0, 2)).unwrap().opened);
    assert!(!board.square(Position::new(0, 3)).unwrap().opened);
    assert!(board.open_position(Position::new(0, 2)).is_empty());
    assert!(!board.won());
}

#[test]
fn a_reveal_off_the_board_opens_nothing() {
    let mut board = board_with(2, 2, &[]);
    assert!(board.open_position(Position::new(2, 0)).is_empty());
    assert!(board.open_position(Position::new(-1, -1)).is_empty());
    assert_eq!(opened_count(&board), 0);
}

#[test]
fn a_reveal_on_a_mine_opens_the_mine_alone_and_loses() {
    let mut board = board_with(4, 4, &[(3, 3)]);
    let opened = board.open_position(Position::new(3, 3));
    assert_eq!(opened, vec![Position::new(3, 3)]);
    assert_eq!(opened_count(&board), 1);
    assert!(board.lost());
    assert!(!board.won());
}

#[test]
fn openable_positions_leaves_the_board_as_it_is() {
    let board = board_with(3, 5, &[(0, 2), (1, 2), (2, 2)]);
    let found = board.openable_positions(Position::new(1, 0));
    assert_eq!(sorted(found), vec![(0, 0), (0, 1), (1, 0), (1, 1), (2, 0), (2, 1)]);
    assert_eq!(opened_count(&board), 0);
    assert!(board.openable_positions(Position::new(9, 9)).is_empty());
    assert_eq!(board.openable_positions(Position::new(1, 2)), vec![Position::new(1, 2)]);
}

#[test]
fn opening_every_square_without_a_mine_wins() {
    let mut board = board_with(3, 3, &[(0, 0), (2, 1)]);
    for x in 0..3 {
        for y in 0..3 {
            let position = Position::new(x, y);
            if !board.position_mined(position) {
                assert!(!board.won());
                assert!(board.open_square(position));
            }
        }
    }
    assert!(board.won());
    assert!(!board.lost());
    assert_eq!(opened_count(&board), 7);
}

#[test]
fn open_square_opens_one_square_without_a_cascade() {
    let mut board = board_with(3, 3, &[]);
    assert!(board.open_square(Position::new(1, 1)));
    assert_eq!(opened_count(&board), 1);
    assert!(!board.open_square(Position::new(1, 1)));
    assert!(!board.open_square(Position::new(3, 3)));
    board.tag_position(Position::new(0, 0));
    assert!(!board.open_square(Position::new(0, 0)));
    assert_eq!(opened_count(&board), 1);
}

#[test]
fn a_board_of_mines_only_is_won_from_the_start() {
    let board = board_with(2, 2, &[(0, 0), (0, 1), (1, 0), (1, 1)]);
    assert!(board.won());
    assert!(!board.lost());
    let empty = board_with(0, 0, &[]);
    assert!(empty.won());
    assert!(!empty.lost());
}

#[test]
fn an_open_mine_loses_whatever_else_is_open() {
    let mut board = board_with(2, 2, &[(0, 0)]);
    assert!(board.open_square(Position::new(0, 1)));
    assert!(board.open_square(Position::new(1, 0)));
    assert!(board.open_square(Position::new(1, 1)));
    assert!(board.won());
    assert!(!board.lost());
    assert!(board.open_square(Position::new(0, 0)));
    assert!(board.lost());
}

#[test]
fn three_tags_return_flag_question_and_none() {
    let mut board = board_with(2, 2, &[(1, 1)]);
    let position = Position::new(1, 1);
    let before = board.square(position);
    assert_eq!(board.tag_position(position), Tag::Flag);
    assert_eq!(board.square(position).unwrap().tag, Tag::Flag);
    assert_eq!(board.tag_position(position), Tag::Question);
    assert_eq!(board.tag_position(position), Tag::Untagged);
    assert_eq!(board.square(position), before);
    assert_eq!(board.mine_count(), 1);
}

#[test]
fn a_tag_off_the_board_is_none() {
    let mut board = board_with(2, 2, &[]);
    assert_eq!(board.tag_position(Position::new(2, 2)), Tag::Untagged);
    assert_eq!(board.tag_position(Position::new(-1, 0)), Tag::Untagged);
    for x in 0..2 {
        for y in 0..2 {
            assert_eq!(board.square(Position::new(x, y)).unwrap().tag, Tag::Untagged);
        }
    }
}

#[test]
fn an_open_square_can_still_be_tagged() {
    let mut board = board_with(1, 2, &[(0, 1)]);
    assert_eq!(board.open_position(Position::new(0, 0)), vec![Position::new(0, 0)]);
    assert_eq!(board.tag_position(Position::new(0, 0)), Tag::Flag);
    let square = board.square(Position::new(0, 0)).unwrap();
    assert!(square.opened);
    assert_eq!(square.tag, Tag::Flag);
}

#[test]
fn reveals_and_tags_move_no_mine() {
    let mut board = board_with(4, 4, &[(0, 0), (3, 3)]);
    board.open_position(Position::new(0, 3));
    board.tag_position(Position::new(0, 0));
    board.open_position(Position::new(3, 3));
    assert_eq!(board.mine_count(), 2);
    for x in 0..4 {
        for y in 0..4 {
            let mined = (x, y) == (0, 0) || (x, y) == (3, 3);
            assert_eq!(board.position_mined(Position::new(x, y)), mined);
        }
    }
}
