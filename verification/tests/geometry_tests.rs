use held::geometry::{Position, Rectangle};

#[test]
fn rectangle_contains_its_corners_and_inside() {
    let r = Rectangle { position: Position::new(2, 3), width: 4, height: 5 };
    assert!(r.contains(Position::new(2, 3)));
    assert!(r.contains(Position::new(7, 7)));
    assert!(r.contains(Position::new(4, 5)));
}

#[test]
fn rectangle_does_not_contain_outside() {
    let r = Rectangle { position: Position::new(2, 3), width: 4, height: 5 };
    assert!(!r.contains(Position::new(1, 3)));
    assert!(!r.contains(Position::new(8, 3)));
    assert!(!r.contains(Position::new(2, 2)));
    assert!(!r.contains(Position::new(2, 8)));
}

#[test]
fn position_plus_adds_componentwise() {
    let p = Position::new(1, 2).plus(Position::new(10, 20));
    assert_eq!(p, Position::new(11, 22));
}
