use ferris_minesweeper::{Game, GameStatus, Level, OpennedPosition, Position, Tag};

fn positions(game: &Game) -> Vec<Position> {
    let mut all = Vec::new();
    for x in 0..game.rows() {
        for y in 0..game.cols() {
            all.push(Position::new(i32::from(x), i32::from(y)));
        }
    }
    all
}

fn mine_count(game: &Game) -> usize {
    positions(game).into_iter().filter(|p| game.position_mined(*p)).count()
}

fn first_mine(game: &Game) -> Position {
    positions(game).into_iter().find(|p| game.position_mined(*p)).unwrap()
}

fn first_safe(game: &Game) -> Position {
    positions(game).into_iter().find(|p| !game.position_mined(*p)).unwrap()
}

#[test]
fn a_new_game_has_not_started() {
    let game = Game::new(Level::Easy);
    assert_eq!(game.status(), GameStatus::Stopped);
    assert!(!game.over());
    assert!(!game.position_mined(Position::new(0, 0)));
}

#[test]
fn levels_give_the_size_of_the_board() {
    let easy = Game::new(Level::Easy);
    assert_eq!((easy.rows(), easy.cols(), easy.mines()), (8, 10, 10));
    let medium = Game::new(Level::Medium);
    assert_eq!((medium.rows(), medium.cols(), medium.mines()), (14, 18, 40));
    let hard = Game::new(Level::Hard);
    assert_eq!((hard.rows(), hard.cols(), hard.mines()), (20, 24, 99));
}

#[test]
fn start_lays_the_mines_of_the_level() {
    for level in [Level::Easy, Level::Medium, Level::Hard] {
        let mut game = Game::new(level);
        game.start();
        assert_eq!(game.status(), GameStatus::Playing);
        assert!(!game.over());
        assert_eq!(mine_count(&game), usize::from(game.mines()));
        assert!(!game.position_mined(Position::new(-1, 0)));
        assert!(!game.position_mined(Position::new(i32::from(game.rows()), 0)));
    }
}

#[test]
fn reveals_and_tags_before_the_start_change_nothing() {
    let mut game = Game::new(Level::Easy);
    assert_eq!(game.tag_position(Position::new(0, 0)), Tag::Untagged);
    assert!(game.open_position(Position::new(0, 0)).is_empty());
    assert_eq!(game.status(), GameStatus::Stopped);
    assert!(!game.over());
}

#[test]
fn a_reveal_reports_what_it_opened() {
    let mut game = Game::new(Level::Medium);
    game.start();
    let start = first_safe(&game);
    let opened = game.open_position(start);
    assert!(!opened.is_empty());
    assert!(opened.iter().any(|record| record.position == start));
    for (i, record) in opened.iter().enumerate() {
        assert!(!record.mined);
        assert!(!game.position_mined(record.position));
        let around = record
            .position
            .adjacencies()
            .into_iter()
            .filter(|q| game.position_mined(*q))
            .count();
        assert_eq!(record.adjacent_mines, around);
        for other in &opened[i + 1..] {
            assert_ne!(record.position, other.position);
        }
    }
    assert!(game.open_position(start).is_empty());
}

#[test]
fn a_reveal_on_a_mine_loses_the_game() {
    let mut game = Game::new(Level::Easy);
    game.start();
    let mine = first_mine(&game);
    let around = mine.adjacencies().into_iter().filter(|q| game.position_mined(*q)).count();
    let opened = game.open_position(mine);
    assert_eq!(opened, vec![OpennedPosition { position: mine, mined: true, adjacent_mines: around }]);
    assert_eq!(game.status(), GameStatus::Lost);
    assert!(game.over());
}

#[test]
fn opening_every_safe_square_wins_the_game() {
    let mut game = Game::new(Level::Hard);
    game.start();
    let mut opened = 0;
    for position in positions(&game) {
        if !game.position_mined(position) {
            opened += game.open_position(position).len();
        }
    }
    assert_eq!(opened, 20 * 24 - 99);
    assert_eq!(game.status(), GameStatus::Won);
    assert!(game.over());
    assert_eq!(mine_count(&game), 99);
}

#[test]
fn a_game_that_is_over_serves_no_reveal() {
    let mut game = Game::new(Level::Easy);
    game.start();
    let mine = first_mine(&game);
    game.open_position(mine);
    assert!(game.over());
    for position in positions(&game) {
        assert!(game.open_position(position).is_empty());
    }
    assert_eq!(game.status(), GameStatus::Lost);
    assert_eq!(mine_count(&game), 10);

    let mut won = Game::new(Level::Easy);
    won.start();
    for position in positions(&won) {
        if !won.position_mined(position) {
            won.open_position(position);
        }
    }
    assert_eq!(won.status(), GameStatus::Won);
    let mine = first_mine(&won);
    assert!(won.open_position(mine).is_empty());
    assert_eq!(won.status(), GameStatus::Won);
}

#[test]
fn a_flagged_mine_is_not_opened() {
    let mut game = Game::new(Level::Easy);
    game.start();
    let mine = first_mine(&game);
    assert_eq!(game.tag_position(mine), Tag::Flag);
    assert!(game.open_position(mine).is_empty());
    assert_eq!(game.status(), GameStatus::Playing);
    assert_eq!(game.tag_position(mine), Tag::Question);
    assert!(game.open_position(mine).is_empty());
    assert_eq!(game.tag_position(mine), Tag::Untagged);
    assert_eq!(game.open_position(mine).len(), 1);
    assert_eq!(game.status(), GameStatus::Lost);
}

#[test]
fn tags_cycle_in_a_game() {
    let mut game = Game::new(Level::Easy);
    game.start();
    let position = Position::new(7, 9);
    assert_eq!(game.tag_position(position), Tag::Flag);
    assert_eq!(game.tag_position(position), Tag::Question);
    assert_eq!(game.tag_position(position), Tag::Untagged);
    assert_eq!(game.tag_position(Position::new(8, 0)), Tag::Untagged);
    assert_eq!(game.tag_position(Position::new(0, 10)), Tag::Untagged);
    assert_eq!(game.status(), GameStatus::Playing);
    assert_eq!(mine_count(&game), 10);
}

#[test]
fn tags_are_served_when_the_game_is_over() {
    let mut game = Game::new(Level::Easy);
    game.start();
    let mine = first_mine(&game);
    game.open_position(mine);
    assert!(game.over());
    let safe = first_safe(&game);
    assert_eq!(game.tag_position(safe), Tag::Flag);
    assert_eq!(game.tag_position(mine), Tag::Flag);
    assert_eq!(game.status(), GameStatus::Lost);
}

#[test]
fn a_new_start_replaces_the_board() {
    let mut game = Game::new(Level::Easy);
    game.start();
    let mine = first_mine(&game);
    game.open_position(mine);
    assert!(game.over());
    game.start();
    assert_eq!(game.status(), GameStatus::Playing);
    assert!(!game.over());
    assert_eq!(mine_count(&game), 10);
    let safe = first_safe(&game);
    assert!(!game.open_position(safe).is_empty());
}

#[test]
fn a_record_holds_what_it_is_given() {
    let record = OpennedPosition::new(Position::new(1, 2), true, 3);
    assert_eq!(record.position, Position::new(1, 2));
    assert!(record.mined);
    assert_eq!(record.adjacent_mines, 3);
}
