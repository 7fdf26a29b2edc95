//! A state built locally by moves equals the state read back from the data
//! that the server sends for it.

use socha::incoming::{
    ReceivedBlueShapes, ReceivedBoard, ReceivedBoolean, ReceivedColorText, ReceivedField,
    ReceivedGreenShapes, ReceivedLastMove, ReceivedLastMoveMono, ReceivedLastMoveMonoEntry,
    ReceivedPiece, ReceivedPosition, ReceivedRedShapes, ReceivedShape, ReceivedState,
    ReceivedValidColors, ReceivedYellowShapes,
};
use socha::internal::{possible_moves, GameState, BOARD_LENGTH};
use socha::neutral::{Color, FieldContent, Move, PieceShape};

/// The `<state>` data that the server sends for `state`, as the XML reader
/// gives it: non-empty board fields, the mono record, the last move, the
/// shape lists and the valid colours.
fn state_to_server_data(state: &GameState) -> ReceivedState {
    let mut fields = Vec::new();
    for y in 0..BOARD_LENGTH {
        for x in 0..BOARD_LENGTH {
            let fc = *state.board.get(x, y);
            if !fc.is_empty() {
                fields.push(ReceivedField { x: x as i32, y: y as i32, content: fc.as_str().to_string() });
            }
        }
    }
    let shapes = |list: &[PieceShape]| -> Vec<ReceivedShape> {
        list.iter().map(|s| ReceivedShape { value: s.as_str().to_string() }).collect()
    };
    let mut entries = Vec::new();
    for color in Color::ALL {
        if let Some(value) = state.last_move_mono.get(&color) {
            entries.push(ReceivedLastMoveMonoEntry {
                color: ReceivedColorText { value: color.as_str().to_string() },
                boolean: ReceivedBoolean { value: if *value { "true" } else { "false" }.to_string() },
            });
        }
    }
    let last_move = match &state.last_move {
        Some(Move::SetMove { piece }) => Some(ReceivedLastMove {
            class: Some("sc.plugin2027.SetMove".to_string()),
            piece: Some(ReceivedPiece {
                color: piece.color.as_str().to_string(),
                kind: piece.kind.as_str().to_string(),
                rotation: piece.rotation.as_str().to_string(),
                is_flipped: if piece.is_flipped { "true" } else { "false" }.to_string(),
                position: Some(ReceivedPosition { x: piece.position.x, y: piece.position.y }),
            }),
            color: None,
        }),
        Some(Move::Skip { color }) => Some(ReceivedLastMove {
            class: Some("sc.plugin2027.SkipMove".to_string()),
            piece: None,
            color: Some(ReceivedColorText { value: color.as_str().to_string() }),
        }),
        None => None,
    };
    ReceivedState {
        turn: Some(state.turn),
        start_team: Some("ONE".to_string()),
        start_piece: Some(state.start_piece.as_str().to_string()),
        round: Some(state.round()),
        last_move,
        board: Some(ReceivedBoard { fields }),
        last_move_mono: Some(ReceivedLastMoveMono { entries }),
        blue_shapes: Some(ReceivedBlueShapes { shapes: shapes(&state.blue_shapes) }),
        yellow_shapes: Some(ReceivedYellowShapes { shapes: shapes(&state.yellow_shapes) }),
        red_shapes: Some(ReceivedRedShapes { shapes: shapes(&state.red_shapes) }),
        green_shapes: Some(ReceivedGreenShapes { shapes: shapes(&state.green_shapes) }),
        valid_colors: Some(ReceivedValidColors {
            colors: state
                .valid_colors
                .iter()
                .map(|c| ReceivedColorText { value: c.as_str().to_string() })
                .collect(),
        }),
    }
}

#[test]
fn local_state_matches_serialised_and_reparsed_state() {
    let mut local = GameState::new(PieceShape::PentoL);
    let blue_first = socha::neutral::Piece::new(
        Color::Blue,
        PieceShape::PentoL,
        socha::neutral::Rotation::Zero,
        false,
        socha::neutral::Coordinates::new(0, 0),
    );
    Move::SetMove { piece: blue_first }.make_move(&mut local).expect("blue first move valid");

    let received = state_to_server_data(&local);
    let reparsed = GameState::try_from(received).expect("reparse to GameState");

    assert_eq!(reparsed.turn, local.turn, "turn mismatch");
    assert_eq!(reparsed.start_piece, local.start_piece);
    assert_eq!(reparsed.round(), local.round());
    assert_eq!(reparsed.board, local.board, "board mismatch");
    assert_eq!(reparsed.last_move, local.last_move, "last_move mismatch");
    assert_eq!(reparsed.last_move_mono, local.last_move_mono);
    assert_eq!(reparsed.blue_shapes, local.blue_shapes, "blue shapes");
    assert_eq!(reparsed.yellow_shapes, local.yellow_shapes, "yellow shapes");
    assert_eq!(reparsed.red_shapes, local.red_shapes, "red shapes");
    assert_eq!(reparsed.green_shapes, local.green_shapes, "green shapes");
    assert_eq!(reparsed.valid_colors, local.valid_colors);
}

#[test]
fn several_moves_round_trip_matches_reparsed_state() {
    let mut local = GameState::new(PieceShape::PentoL);

    for _ply in 0..80 {
        if local.is_over() {
            break;
        }
        let moves = possible_moves(&local);
        if moves.is_empty() {
            let skip = Move::Skip { color: local.current_color() };
            skip.make_move(&mut local).expect("skip");
        } else {
            let mv = moves.into_iter().next().unwrap();
            mv.make_move(&mut local).expect("apply legal move");
        }

        let received = state_to_server_data(&local);
        let reparsed = GameState::try_from(received).expect("reparse");

        assert_eq!(reparsed.turn, local.turn, "turn mismatch at ply {}", local.turn);
        assert_eq!(reparsed.board, local.board, "board mismatch at ply {}", local.turn);
        assert_eq!(reparsed.last_move, local.last_move, "last_move mismatch at ply {}", local.turn);
        assert_eq!(reparsed.blue_shapes, local.blue_shapes);
        assert_eq!(reparsed.yellow_shapes, local.yellow_shapes);
        assert_eq!(reparsed.red_shapes, local.red_shapes);
        assert_eq!(reparsed.green_shapes, local.green_shapes);
        assert_eq!(reparsed.valid_colors, local.valid_colors);
        assert_eq!(reparsed.last_move_mono, local.last_move_mono);
    }
}

#[test]
fn shapes_list_remain_sorted_and_unique_after_each_move() {
    let mut local = GameState::new(PieceShape::PentoT);

    for _ply in 0..60 {
        if local.is_over() {
            break;
        }
        let moves = possible_moves(&local);
        if moves.is_empty() {
            Move::Skip { color: local.current_color() }.make_move(&mut local).expect("skip");
        } else {
            let mv = moves.into_iter().next().unwrap();
            mv.make_move(&mut local).expect("apply");
        }

        for shapes in [&local.blue_shapes, &local.yellow_shapes, &local.red_shapes, &local.green_shapes] {
            let mut sorted = shapes.clone();
            sorted.sort_by_key(|s| s.to_index());
            assert_eq!(shapes, &sorted, "shapes list not sorted after ply {}", local.turn);
            let mut uniq = shapes.clone();
            uniq.dedup();
            assert_eq!(shapes.len(), uniq.len(), "shapes list has duplicates after ply {}", local.turn);
        }
    }

    let non_empty = local.board.rows.iter().flat_map(|r| r.fields.iter()).filter(|c| !c.is_empty()).count();
    assert!(non_empty > 0, "board should not be empty after moves");
    let _ = FieldContent::Empty;
}
