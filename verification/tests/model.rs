//! The small parts of the game model on fixed values.

use socha::internal::{Board, GameState};
use socha::neutral::{color_at, Color, Coordinates, FieldContent, LastMoveMonoMap, Move, Piece, PieceShape, Rotation};

#[test]
fn coordinates_and_neighbours() {
    let c = Coordinates::new(3, 4);
    assert_eq!(c.offset(-1, 2), Coordinates::new(2, 6));
    assert_eq!(
        c.neighbors(),
        [Coordinates::new(3, 3), Coordinates::new(3, 5), Coordinates::new(2, 4), Coordinates::new(4, 4)]
    );
    assert_eq!(
        c.diagonal_neighbors(),
        [Coordinates::new(2, 3), Coordinates::new(4, 3), Coordinates::new(2, 5), Coordinates::new(4, 5)]
    );
}

#[test]
fn pieces_place_their_transformed_shape() {
    let p = Piece::new(Color::Red, PieceShape::TrioL, Rotation::Right, false, Coordinates::new(5, 6));
    assert_eq!(p.shape(), vec![(1, 0), (0, 0), (0, 1)]);
    assert_eq!(p.coordinates(), vec![Coordinates::new(6, 6), Coordinates::new(5, 6), Coordinates::new(5, 7)]);
    assert_eq!(Move::SetMove { piece: p }.color(), Color::Red);
    assert_eq!(Move::Skip { color: Color::Green }.color(), Color::Green);
}

#[test]
fn shape_facts() {
    assert!(PieceShape::PentoW.is_pentomino());
    assert!(!PieceShape::TetroO.is_pentomino());
    assert_eq!(PieceShape::TetroO.size(), 4);
    assert_eq!(PieceShape::Domino.coordinates(), &[(0, 0), (1, 0)]);
    assert_eq!(PieceShape::PentoY.to_index(), 20);
    assert_eq!(socha::piece_shape::align(&[(-2, 5), (1, 3)]), vec![(0, 2), (3, 0)]);
}

#[test]
fn field_contents_and_colours() {
    assert_eq!(FieldContent::Yellow.letter(), 'Y');
    assert_eq!(FieldContent::Empty.letter(), '.');
    assert_eq!(FieldContent::Empty.to_color(), None);
    assert!(FieldContent::Empty.is_empty());
    assert!(!FieldContent::Green.is_empty());
    assert_eq!(Color::Yellow.to_field_content(), FieldContent::Yellow);
    assert_eq!(color_at(6), Color::Red);
    assert_eq!(FieldContent::default(), FieldContent::Empty);
    assert_eq!(Rotation::default(), Rotation::Zero);
}

#[test]
fn mono_record_operations() {
    let mut m = LastMoveMonoMap::new();
    assert!(m.is_empty());
    assert_eq!(m.insert(Color::Red, true), None);
    assert_eq!(m.insert(Color::Red, false), Some(true));
    assert!(m.contains_key(&Color::Red));
    assert_eq!(m.get(&Color::Red), Some(&false));
    assert_eq!(m.get(&Color::Blue), None);
    assert_eq!(m.remove(&Color::Red), Some(false));
    assert!(m.is_empty());
    m.insert(Color::Green, true);
    m.clear();
    assert!(m.is_empty());
}

#[test]
fn state_accessors() {
    let mut s = GameState::default();
    assert_eq!(s.start_piece, PieceShape::PentoL);
    assert_eq!(s.round(), 1);
    assert!(!s.is_over());
    assert!(s.is_valid_color(Color::Green));
    assert_eq!(s.undeployed(Color::Red).len(), 21);
    s.undeployed_mut(Color::Red).pop();
    assert_eq!(s.red_shapes.len(), 20);
    assert!(!s.is_first_move_for(Color::Red));
    s.turn = 99;
    assert!(!s.is_over());
    assert_eq!(s.round(), 25);
    s.turn = 100;
    assert!(s.is_over());
    assert_eq!(s.round(), 26);
    let mut done = GameState::default();
    done.blue_shapes.clear();
    done.yellow_shapes.clear();
    done.red_shapes.clear();
    assert!(!done.is_over());
    done.green_shapes.clear();
    assert!(done.is_over());
}

#[test]
fn valid_fields_are_free_corners() {
    let mut b = Board::new_empty();
    *b.get_mut(0, 0) = FieldContent::Blue;
    assert_eq!(b.valid_fields(Color::Blue), vec![Coordinates::new(1, 1)]);
    *b.get_mut(2, 2) = FieldContent::Blue;
    assert_eq!(
        b.valid_fields(Color::Blue),
        vec![Coordinates::new(1, 1), Coordinates::new(1, 1), Coordinates::new(3, 1), Coordinates::new(1, 3), Coordinates::new(3, 3)]
    );
    assert!(b.valid_fields(Color::Red).is_empty());
}
