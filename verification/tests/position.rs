use ferris_minesweeper::{Position, Square, Tag};

#[test]
fn new_keeps_the_coordinates() {
    let position = Position::new(3, -7);
    assert_eq!(position.x, 3);
    assert_eq!(position.y, -7);
    assert_eq!(position, Position { x: 3, y: -7 });
}

#[test]
fn the_eight_neighbours_are_adjacent() {
    let centre = Position::new(4, 5);
    let mut count = 0;
    for dx in -1..=1 {
        for dy in -1..=1 {
            let other = Position::new(4 + dx, 5 + dy);
            if dx == 0 && dy == 0 {
                assert!(!centre.adjacent(other));
            } else {
                assert!(centre.adjacent(other));
                assert!(other.adjacent(centre));
                count += 1;
            }
        }
    }
    assert_eq!(count, 8);
}

#[test]
fn positions_two_steps_away_are_not_adjacent() {
    let centre = Position::new(0, 0);
    assert!(!centre.adjacent(Position::new(2, 0)));
    assert!(!centre.adjacent(Position::new(0, -2)));
    assert!(!centre.adjacent(Position::new(-2, 2)));
    assert!(!centre.adjacent(Position::new(1, 2)));
}

#[test]
fn adjacency_at_the_ends_of_the_coordinate_range() {
    let low = Position::new(i32::MIN, i32::MIN);
    let high = Position::new(i32::MAX, i32::MAX);
    assert!(!low.adjacent(high));
    assert!(!high.adjacent(low));
    assert!(high.adjacent(Position::new(i32::MAX - 1, i32::MAX)));
    assert!(low.adjacent(Position::new(i32::MIN + 1, i32::MIN + 1)));
}

#[test]
fn adjacencies_lists_the_eight_neighbours_once() {
    let centre = Position::new(1, 1);
    let neighbours = centre.adjacencies();
    assert_eq!(neighbours.len(), 8);
    for (i, a) in neighbours.iter().enumerate() {
        assert!(centre.adjacent(*a));
        for b in &neighbours[i + 1..] {
            assert_ne!(a, b);
        }
    }
    assert!(neighbours.contains(&Position::new(0, 0)));
    assert!(neighbours.contains(&Position::new(0, 1)));
    assert!(neighbours.contains(&Position::new(0, 2)));
    assert!(neighbours.contains(&Position::new(1, 0)));
    assert!(neighbours.contains(&Position::new(1, 2)));
    assert!(neighbours.contains(&Position::new(2, 0)));
    assert!(neighbours.contains(&Position::new(2, 1)));
    assert!(neighbours.contains(&Position::new(2, 2)));
    assert!(!neighbours.contains(&centre));
}

#[test]
fn adjacencies_in_a_corner_of_the_coordinate_range() {
    let corner = Position::new(i32::MAX, i32::MIN);
    let neighbours = corner.adjacencies();
    assert_eq!(neighbours.len(), 3);
    assert!(neighbours.contains(&Position::new(i32::MAX - 1, i32::MIN)));
    assert!(neighbours.contains(&Position::new(i32::MAX - 1, i32::MIN + 1)));
    assert!(neighbours.contains(&Position::new(i32::MAX, i32::MIN + 1)));
}

#[test]
fn tags_follow_the_cycle() {
    assert_eq!(Tag::Untagged.next(), Tag::Flag);
    assert_eq!(Tag::Flag.next(), Tag::Question);
    assert_eq!(Tag::Question.next(), Tag::Untagged);
    for tag in [Tag::Untagged, Tag::Flag, Tag::Question] {
        assert_eq!(tag.next().next().next(), tag);
    }
}

#[test]
fn a_new_square_is_closed_and_unmarked() {
    let square = Square::new(Position::new(2, 3), true);
    assert_eq!(square.position, Position::new(2, 3));
    assert!(square.mined);
    assert!(!square.opened);
    assert_eq!(square.tag, Tag::Untagged);
    assert!(square.openable());
    assert!(!Square::new(Position::new(0, 0), false).mined);
}

#[test]
fn open_opens_an_openable_square_once() {
    let mut square = Square::new(Position::new(0, 0), false);
    assert!(square.open());
    assert!(square.opened);
    assert!(!square.openable());
    assert!(!square.open());
    assert!(square.opened);
}

#[test]
fn a_marked_square_cannot_be_opened() {
    let mut square = Square::new(Position::new(0, 0), false);
    assert_eq!(square.tag_it(), Tag::Flag);
    assert!(!square.openable());
    assert!(!square.open());
    assert!(!square.opened);
    assert_eq!(square.tag_it(), Tag::Question);
    assert!(!square.openable());
    assert!(!square.open());
    assert_eq!(square.tag_it(), Tag::Untagged);
    assert!(square.openable());
    assert!(square.open());
    assert!(square.opened);
}

#[test]
fn tag_it_leaves_the_rest_of_the_square() {
    let mut square = Square::new(Position::new(5, 6), true);
    square.tag_it();
    assert_eq!(
        square,
        Square { position: Position::new(5, 6), mined: true, opened: false, tag: Tag::Flag }
    );
}

#[test]
fn a_square_is_adjacent_to_the_neighbours_of_its_position() {
    let square = Square::new(Position::new(2, 2), false);
    assert!(square.adjacent(Position::new(1, 3)));
    assert!(square.adjacent(Position::new(3, 2)));
    assert!(!square.adjacent(Position::new(2, 2)));
    assert!(!square.adjacent(Position::new(4, 2)));
}
