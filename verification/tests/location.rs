use xiangqi_arbiter::location::Location;

#[test]
fn squares_and_indices() {
    assert_eq!(Location::new(), Location { x: 0, y: 0 });
    assert_eq!(Location::from_xy(8, 9), Some(Location { x: 8, y: 9 }));
    assert_eq!(Location::from_xy(9, 0), None);
    assert_eq!(Location::from_xy(0, 10), None);
    assert_eq!(Location::from_xy(-1, 0), None);
    let square = Location { x: 4, y: 7 };
    assert_eq!(square.index(), 4 + 7 * 9);
    assert_eq!(Location::from_index(4 + 7 * 9), Some(square));
    assert_eq!(Location::from_index(89), Some(Location { x: 8, y: 9 }));
    assert_eq!(Location::from_index(90), None);
    assert_eq!(Location::from_index(1000), None);
    assert_eq!(square.x(), 4);
    assert_eq!(square.y(), 7);
}

#[test]
fn shifting_stays_on_the_board() {
    let square = Location { x: 4, y: 7 };
    assert_eq!(square.shift_x(4), Some(Location { x: 8, y: 7 }));
    assert_eq!(square.shift_x(5), None);
    assert_eq!(square.shift_y(-7), Some(Location { x: 4, y: 0 }));
    assert_eq!(square.shift_y(3), None);
    assert_eq!(square.shift_xy(-4, 2), Some(Location { x: 0, y: 9 }));
    assert_eq!(square.shift_xy(-5, 0), None);
}

#[test]
fn normalize_mirrors_for_black() {
    let square = Location { x: 2, y: 3 };
    assert_eq!(square.normalize(true), square);
    assert_eq!(square.normalize(false), Location { x: 2, y: 6 });
}
