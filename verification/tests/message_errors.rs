//! The errors that building messages from received data reports.

use socha::incoming::{
    ReceivedBoard, ReceivedColorText, ReceivedField, ReceivedLastMove, ReceivedLastMoveMono,
    ReceivedLastMoveMonoEntry, ReceivedBoolean, ReceivedPiece, ReceivedPosition, ReceivedShape,
    ReceivedState, ReceivedValidColors,
};
use socha::internal::{Board, GameState};
use socha::messages::{build_piece_from_received, parse_last_move, parse_shapes};
use socha::neutral::{Color, Coordinates, Move, PieceShape, Rotation};

fn piece(color: &str, kind: &str, rotation: &str, flipped: &str) -> ReceivedPiece {
    ReceivedPiece {
        color: color.to_string(),
        kind: kind.to_string(),
        rotation: rotation.to_string(),
        is_flipped: flipped.to_string(),
        position: Some(ReceivedPosition { x: 4, y: -2 }),
    }
}

#[test]
fn piece_errors_in_order() {
    assert_eq!(build_piece_from_received(&piece("PINK", "X", "Y", "")).unwrap_err(), "unknown color token 'PINK'");
    assert_eq!(build_piece_from_received(&piece("RED", "X", "Y", "")).unwrap_err(), "unknown piece shape token 'X'");
    assert_eq!(build_piece_from_received(&piece("RED", "MONO", "Y", "")).unwrap_err(), "unknown rotation token 'Y'");
    let p = build_piece_from_received(&piece(" RED", "PENTO_V ", "LEFT", " true ")).unwrap();
    assert_eq!(p.color, Color::Red);
    assert_eq!(p.kind, PieceShape::PentoV);
    assert_eq!(p.rotation, Rotation::Left);
    assert!(p.is_flipped);
    assert_eq!(p.position, Coordinates::new(4, -2));
    assert!(!build_piece_from_received(&piece("RED", "MONO", "NONE", "yes")).unwrap().is_flipped);
}

#[test]
fn last_moves_by_class() {
    let set = ReceivedLastMove {
        class: Some("setmove".to_string()),
        piece: Some(piece("BLUE", "MONO", "NONE", "false")),
        color: None,
    };
    assert!(matches!(parse_last_move(&set).unwrap(), Some(Move::SetMove { .. })));
    let skip = ReceivedLastMove {
        class: Some("x.SkipMove".to_string()),
        piece: None,
        color: Some(ReceivedColorText { value: "GREEN".to_string() }),
    };
    assert_eq!(parse_last_move(&skip).unwrap(), Some(Move::Skip { color: Color::Green }));
    let bad_skip = ReceivedLastMove {
        class: Some("SkipMove".to_string()),
        piece: None,
        color: Some(ReceivedColorText { value: "X".to_string() }),
    };
    assert_eq!(parse_last_move(&bad_skip).unwrap_err(), "unknown color token 'X'");
    let other = ReceivedLastMove { class: Some("Other".to_string()), piece: None, color: None };
    assert_eq!(parse_last_move(&other).unwrap(), None);
    let no_piece = ReceivedLastMove { class: Some("SetMove".to_string()), piece: None, color: None };
    assert_eq!(parse_last_move(&no_piece).unwrap(), None);
}

#[test]
fn shape_lists_and_board_errors() {
    assert_eq!(parse_shapes(None).unwrap().len(), 21);
    let list = vec![ReceivedShape { value: "DOMINO".to_string() }, ReceivedShape { value: "MONO".to_string() }];
    assert_eq!(parse_shapes(Some(list)).unwrap(), vec![PieceShape::Domino, PieceShape::Mono]);
    let board = ReceivedBoard {
        fields: vec![ReceivedField { x: 3, y: -1, content: "RED".to_string() }],
    };
    assert_eq!(Board::try_from(board).unwrap_err(), "board field out of bounds: x=3, y=-1");
}

#[test]
fn state_errors_in_order() {
    let mut s = ReceivedState::default();
    s.start_piece = Some("FOO".to_string());
    s.valid_colors = Some(ReceivedValidColors { colors: vec![ReceivedColorText { value: "TEAL".to_string() }] });
    assert_eq!(GameState::try_from(s.clone()).unwrap_err(), "unknown piece shape token 'FOO'");
    s.start_piece = None;
    assert_eq!(GameState::try_from(s.clone()).unwrap_err(), "unknown color token 'TEAL'");
    s.last_move_mono = Some(ReceivedLastMoveMono {
        entries: vec![ReceivedLastMoveMonoEntry {
            color: ReceivedColorText { value: "NAVY".to_string() },
            boolean: ReceivedBoolean { value: "true".to_string() },
        }],
    });
    assert_eq!(GameState::try_from(s.clone()).unwrap_err(), "unknown color token 'NAVY'");
    s.last_move_mono = Some(ReceivedLastMoveMono {
        entries: vec![
            ReceivedLastMoveMonoEntry {
                color: ReceivedColorText { value: "RED".to_string() },
                boolean: ReceivedBoolean { value: "true".to_string() },
            },
            ReceivedLastMoveMonoEntry {
                color: ReceivedColorText { value: "RED".to_string() },
                boolean: ReceivedBoolean { value: "false".to_string() },
            },
        ],
    });
    s.valid_colors = None;
    let state = GameState::try_from(s).unwrap();
    assert_eq!(state.last_move_mono.get(&Color::Red), Some(&false));
    assert_eq!(state.valid_colors, vec![Color::Blue, Color::Yellow, Color::Red, Color::Green]);
    assert_eq!(state.start_piece, PieceShape::PentoL);
    assert!(state.board.is_empty());
}
