use game2048::field::{Field, Grid};
use game2048::tile::Origin::{Hold, Merged};
use game2048::tile::Side::{Down, Left, Right, Up};
use game2048::tile::Tile;

fn hold(level: u32, x: usize, y: usize) -> Option<Tile> {
    Some(Tile(level, Hold(x, y)))
}

fn merged(level: u32, a: (usize, usize), b: (usize, usize)) -> Option<Tile> {
    Some(Tile(level, Merged(a, b)))
}

fn values(rows: usize, cols: usize, cells: Vec<u32>) -> Grid<u32> {
    Grid { rows, cols, cells }
}

fn tiles(rows: usize, cols: usize, cells: Vec<Option<Tile>>) -> Grid<Option<Tile>> {
    Grid { rows, cols, cells }
}

#[test]
fn field_widht_height_at() {
    let field = Field::from_tiles(tiles(
        4,
        3,
        vec![
            hold(0, 0, 0), hold(10, 1, 0), hold(20, 2, 0),
            hold(1, 0, 1), hold(11, 1, 1), hold(21, 2, 1),
            hold(2, 0, 2), hold(12, 1, 2), hold(22, 2, 2),
            hold(3, 0, 3), hold(13, 1, 3), hold(23, 2, 3),
        ],
    ));
    assert_eq!(field.width(), 3);
    assert_eq!(field.height(), 4);
    assert_eq!(field.get(2, 1).unwrap().0, 21);
    assert_eq!(field.get(0, 2).unwrap().0, 2);
    assert_eq!(field.get(2, 3).unwrap().0, 23);
    assert_eq!(field.get_from_side(Up, 0, 0).unwrap().0, 0);
    assert_eq!(field.get_from_side(Down, 0, 0).unwrap().0, 23);
    assert_eq!(field.get_from_side(Left, 0, 0).unwrap().0, 3);
    assert_eq!(field.get_from_side(Right, 0, 0).unwrap().0, 20);
    assert_eq!(field.get_from_side(Up, 1, 2).unwrap().0, 12);
    assert_eq!(field.get_from_side(Down, 1, 2).unwrap().0, 11);
    assert_eq!(field.get_from_side(Left, 1, 2).unwrap().0, 22);
    assert_eq!(field.get_from_side(Right, 1, 2).unwrap().0, 1);
}

#[test]
fn field_from_array() {
    let array = values(4, 3, vec![
        8, 4, 2,
        4, 2, 1,
        2, 1, 0,
        1, 0, 16
    ]);
    let field = Field::from_array(array);

    let expected = tiles(
        4,
        3,
        vec![
            hold(3, 0, 0), hold(2, 1, 0), hold(1, 2, 0),
            hold(2, 0, 1), hold(1, 1, 1), hold(0, 2, 1),
            hold(1, 0, 2), hold(0, 1, 2), None,
            hold(0, 0, 3), None, hold(4, 2, 3),
        ],
    );

    assert_eq!(field.tiles(), expected);
}

#[test]
fn field_into_array() {
    let source = tiles(
        4,
        3,
        vec![
            hold(3, 0, 0), hold(2, 0, 0), hold(1, 0, 0),
            hold(2, 0, 0), hold(1, 0, 0), hold(0, 0, 0),
            hold(1, 0, 0), hold(0, 0, 0), None,
            hold(0, 0, 0), None, hold(4, 0, 0),
        ],
    );
    let array = Field::from_tiles(source).into_array();
    let expected = values(4, 3, vec![
        8, 4, 2,
        4, 2, 1,
        2, 1, 0,
        1, 0, 16
    ]);
    assert_eq!(array, expected);
}

#[test]
fn swipe_up() {
    let array = values(4, 4, vec![
        0, 2, 4, 4,
        0, 2, 2, 4,
        0, 0, 2, 2,
        0, 0, 0, 2
    ]);
    let mut field = Field::from_array(array);
    let expected = values(4, 4, vec![
        0, 4, 4, 8,
        0, 0, 4, 4,
        0, 0, 0, 0,
        0, 0, 0, 0
    ]);
    let expected_field = tiles(
        4,
        4,
        vec![
            None,
            merged(2, (1, 0), (1, 1)),
            hold(2, 2, 0),
            merged(3, (3, 0), (3, 1)),
            None,
            None,
            merged(2, (2, 1), (2, 2)),
            merged(2, (3, 2), (3, 3)),
            None, None, None, None,
            None, None, None, None,
        ],
    );
    field.swipe(Up);
    assert_eq!(field.into_array(), expected);
    assert_eq!(field.tiles(), expected_field);
}

#[test]
fn swipe_down() {
    let array = values(4, 4, vec![
        0, 2, 4, 4,
        0, 2, 2, 4,
        0, 0, 2, 2,
        0, 0, 0, 2
    ]);
    let mut field = Field::from_array(array);
    let expected = values(4, 4, vec![
        0, 0, 0, 0,
        0, 0, 0, 0,
        0, 0, 4, 8,
        0, 4, 4, 4,
    ]);
    field.swipe(Down);
    assert_eq!(field.into_array(), expected);
}

#[test]
fn swipe_left() {
    let array = values(4, 4, vec![
        0, 2, 4, 4,
        0, 2, 2, 4,
        0, 0, 2, 2,
        0, 0, 0, 2
    ]);
    let mut field = Field::from_array(array);
    let expected = values(4, 4, vec![
        2, 8, 0, 0,
        4, 4, 0, 0,
        4, 0, 0, 0,
        2, 0, 0, 0,
    ]);
    field.swipe(Left);
    assert_eq!(field.into_array(), expected);
}

#[test]
fn swipe_right() {
        let array = values(4, 4, vec![
        0, 2, 4, 4,
        0, 2, 2, 4,
        0, 0, 2, 2,
        0, 0, 0, 2
    ]);
    let mut field = Field::from_array(array);
    let expected = values(4, 4, vec![
        0, 0, 2, 8,
        0, 0, 4, 4,
        0, 0, 0, 4,
        0, 0, 0, 2
    ]);
    field.swipe(Right);
    assert_eq!(field.into_array(), expected);
}
