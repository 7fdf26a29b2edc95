//! Building the library's messages from received server data. The received
//! values are written out by hand as the XML reader would produce them.

use socha::incoming::{
    ReceivedAggregation, ReceivedBlueShapes, ReceivedBool, ReceivedBoard, ReceivedColorText,
    ReceivedComMessage, ReceivedData, ReceivedDefinition, ReceivedField, ReceivedFragment,
    ReceivedGreenShapes, ReceivedLastMove, ReceivedLastMoveMono, ReceivedLastMoveMonoEntry,
    ReceivedBoolean, ReceivedPart, ReceivedPiece, ReceivedPlayerAttr, ReceivedPosition,
    ReceivedRedShapes, ReceivedRoom, ReceivedScore, ReceivedScoreEntry, ReceivedScores,
    ReceivedShape, ReceivedState, ReceivedValidColors, ReceivedWinner, ReceivedYellowShapes,
};
use socha::internal::{Board, GameState, RoomMessage};
use socha::neutral::{Color, Coordinates, FieldContent, Move, Piece, PieceShape, Rotation, Team};

const ALL_SHAPE_TOKENS: [&str; 21] = [
    "MONO", "DOMINO", "TRIO_L", "TRIO_I", "TETRO_O", "TETRO_T", "TETRO_I", "TETRO_L", "TETRO_Z",
    "PENTO_L", "PENTO_T", "PENTO_V", "PENTO_S", "PENTO_Z", "PENTO_I", "PENTO_P", "PENTO_W",
    "PENTO_U", "PENTO_R", "PENTO_X", "PENTO_Y",
];

fn shapes(tokens: &[&str]) -> Vec<ReceivedShape> {
    tokens.iter().map(|t| ReceivedShape { value: t.to_string() }).collect()
}

fn colors(tokens: &[&str]) -> Vec<ReceivedColorText> {
    tokens.iter().map(|t| ReceivedColorText { value: t.to_string() }).collect()
}

fn field(x: i32, y: i32, content: &str) -> ReceivedField {
    ReceivedField { x, y, content: content.to_string() }
}

fn data(class: &str) -> ReceivedData {
    ReceivedData {
        class: Some(class.to_string()),
        color_attr: None,
        state: None,
        definition: None,
        scores: None,
        winner: None,
    }
}

fn room(id: &str, data: ReceivedData) -> ReceivedRoom {
    ReceivedRoom { room_id: Some(id.to_string()), data: Some(data) }
}

/// `<state>` with the given attributes, board, mono record, shape lists and valid colours.
fn state(
    turn: u32,
    start_piece: &str,
    round: u32,
    last_move: Option<ReceivedLastMove>,
    board: Vec<ReceivedField>,
    mono: Vec<ReceivedLastMoveMonoEntry>,
    lists: [&[&str]; 4],
    valid: &[&str],
) -> ReceivedState {
    ReceivedState {
        turn: Some(turn),
        start_team: Some("ONE".to_string()),
        start_piece: Some(start_piece.to_string()),
        round: Some(round),
        last_move,
        board: Some(ReceivedBoard { fields: board }),
        last_move_mono: Some(ReceivedLastMoveMono { entries: mono }),
        blue_shapes: Some(ReceivedBlueShapes { shapes: shapes(lists[0]) }),
        yellow_shapes: Some(ReceivedYellowShapes { shapes: shapes(lists[1]) }),
        red_shapes: Some(ReceivedRedShapes { shapes: shapes(lists[2]) }),
        green_shapes: Some(ReceivedGreenShapes { shapes: shapes(lists[3]) }),
        valid_colors: Some(ReceivedValidColors { colors: colors(valid) }),
    }
}

#[test]
fn parse_empty_board_tag() {
    let received = ReceivedBoard { fields: vec![] };
    let board = Board::try_from(received).unwrap();
    for row in &board.rows {
        for field in &row.fields {
            assert_eq!(*field, FieldContent::Empty);
        }
    }
    assert!(board.is_empty());
}

#[test]
fn parse_custom_board_with_content() {
    let received = ReceivedBoard {
        fields: vec![
            field(0, 0, "RED"),
            field(1, 3, "GREEN"),
            field(8, 6, "YELLOW"),
            field(5, 9, "BLUE"),
        ],
    };
    let board = Board::try_from(received).unwrap();
    assert_eq!(*board.get(0, 0), FieldContent::Red);
    assert_eq!(*board.get(1, 3), FieldContent::Green);
    assert_eq!(*board.get(8, 6), FieldContent::Yellow);
    assert_eq!(*board.get(5, 9), FieldContent::Blue);
    assert_eq!(*board.get(2, 2), FieldContent::Empty);
    assert!(!board.is_empty());
}

#[test]
fn parse_full_state_initial_round() {
    // The fixture holds the typo `TENTO_T` in two shape lists; building a
    // game state from it names the unknown token.
    let mut with_typo = ALL_SHAPE_TOKENS;
    with_typo[10] = "TENTO_T";
    let received = state(
        0,
        "PENTO_I",
        1,
        None,
        vec![],
        vec![],
        [&with_typo, &ALL_SHAPE_TOKENS, &with_typo, &ALL_SHAPE_TOKENS],
        &["BLUE", "YELLOW", "RED", "GREEN"],
    );
    assert_eq!(received.blue_shapes.as_ref().unwrap().shapes[10].value, "TENTO_T");
    let err = GameState::try_from(received).unwrap_err();
    assert_eq!(err, "unknown piece shape token 'TENTO_T'");
}

#[test]
fn parse_full_state_initial_round_clean() {
    let received = state(
        0,
        "PENTO_I",
        1,
        None,
        vec![],
        vec![],
        [&ALL_SHAPE_TOKENS, &ALL_SHAPE_TOKENS, &ALL_SHAPE_TOKENS, &ALL_SHAPE_TOKENS],
        &["BLUE", "YELLOW", "RED", "GREEN"],
    );
    let state = GameState::try_from(received).unwrap();
    assert_eq!(state.turn, 0);
    assert_eq!(state.start_piece, PieceShape::PentoI);
    assert_eq!(state.round(), 1);
    assert_eq!(state.current_color(), Color::Blue);
    assert_eq!(state.current_team(), Team::One);
    assert!(state.board.is_empty());
    assert!(state.last_move.is_none());
    assert!(state.last_move_mono.is_empty());
    assert_eq!(state.blue_shapes.len(), 21);
    assert_eq!(state.yellow_shapes.len(), 21);
    assert_eq!(state.red_shapes.len(), 21);
    assert_eq!(state.green_shapes.len(), 21);
    assert_eq!(state.valid_colors, vec![Color::Blue, Color::Yellow, Color::Red, Color::Green]);
    assert!(state.is_first_move_for(Color::Blue));
}

#[test]
fn parse_state_with_last_move_and_partial() {
    let last_move = ReceivedLastMove {
        class: Some("sc.plugin2027.SetMove".to_string()),
        piece: Some(ReceivedPiece {
            color: "BLUE".to_string(),
            kind: "MONO".to_string(),
            rotation: "NONE".to_string(),
            is_flipped: "false".to_string(),
            position: Some(ReceivedPosition { x: 0, y: 0 }),
        }),
        color: None,
    };
    let mono = vec![ReceivedLastMoveMonoEntry {
        color: ReceivedColorText { value: "BLUE".to_string() },
        boolean: ReceivedBoolean { value: "true".to_string() },
    }];
    let received = state(
        70,
        "PENTO_L",
        18,
        Some(last_move),
        vec![field(0, 0, "RED"), field(1, 3, "GREEN"), field(8, 6, "YELLOW"), field(5, 9, "BLUE")],
        mono,
        [&[], &["MONO"], &["MONO", "DOMINO"], &["MONO", "DOMINO", "TRIO_L", "TRIO_I"]],
        &["YELLOW", "RED", "GREEN"],
    );
    let state = GameState::try_from(received).unwrap();
    assert_eq!(state.turn, 70);
    assert_eq!(state.round(), 18);
    assert_eq!(state.start_piece, PieceShape::PentoL);
    match &state.last_move {
        Some(socha::neutral::Move::SetMove { piece }) => {
            assert_eq!(piece.color, Color::Blue);
            assert_eq!(piece.kind, PieceShape::Mono);
            assert_eq!(piece.position, Coordinates::new(0, 0));
        },
        other => panic!("expected Set move, got {:?}", other),
    }
    assert_eq!(*state.board.get(0, 0), FieldContent::Red);
    assert_eq!(*state.board.get(1, 3), FieldContent::Green);
    assert_eq!(*state.board.get(8, 6), FieldContent::Yellow);
    assert_eq!(*state.board.get(5, 9), FieldContent::Blue);
    assert_eq!(state.last_move_mono.get(&Color::Blue).copied(), Some(true));
    assert_eq!(state.blue_shapes.len(), 0);
    assert_eq!(state.yellow_shapes, vec![PieceShape::Mono]);
    assert_eq!(state.red_shapes, vec![PieceShape::Mono, PieceShape::Domino]);
    assert_eq!(
        state.green_shapes,
        vec![PieceShape::Mono, PieceShape::Domino, PieceShape::TrioL, PieceShape::TrioI]
    );
    assert_eq!(state.valid_colors, vec![Color::Yellow, Color::Red, Color::Green]);
    assert!(!state.is_first_move_for(Color::Blue));
}

fn fragment(name: &str, aggregation: &str, relevant: &str) -> ReceivedFragment {
    ReceivedFragment {
        name: name.to_string(),
        aggregation: ReceivedAggregation { value: aggregation.to_string() },
        relevant_for_ranking: ReceivedBool { value: relevant.to_string() },
    }
}

fn entry(team: &str, parts: &[&str]) -> ReceivedScoreEntry {
    ReceivedScoreEntry {
        player: ReceivedPlayerAttr { team: team.to_string() },
        score: Some(ReceivedScore {
            parts: parts.iter().map(|p| ReceivedPart { value: p.to_string() }).collect(),
        }),
    }
}

#[test]
fn parse_game_result_data() {
    let mut d = data("result");
    d.definition = Some(ReceivedDefinition {
        fragments: vec![fragment("Siegpunkte", "SUM", "true"), fragment("Punkte", "AVERAGE", "false")],
    });
    d.scores = Some(ReceivedScores { entries: vec![entry("ONE", &["1", "0"]), entry("TWO", &["2", "17"])] });
    d.winner = Some(ReceivedWinner {
        team: Some("TWO".to_string()),
        regular: Some("true".to_string()),
        reason: Some("TWO hat am meisten Punkte erzielt.".to_string()),
    });
    let result = socha::internal::GameResult::try_from(d).unwrap();
    assert_eq!(result.definition.fragments.len(), 2);
    assert_eq!(result.definition.fragments[0].name, "Siegpunkte");
    assert_eq!(result.definition.fragments[0].aggregation, socha::neutral::ScoreAggregation::Sum);
    assert!(result.definition.fragments[0].relevant_for_ranking);
    assert_eq!(result.definition.fragments[1].name, "Punkte");
    assert_eq!(result.definition.fragments[1].aggregation, socha::neutral::ScoreAggregation::Average);
    assert!(!result.definition.fragments[1].relevant_for_ranking);
    assert_eq!(result.scores.len(), 2);
    let winner = result.winner.expect("expected a winner");
    assert_eq!(winner.team, Some(Team::Two));
    assert!(winner.regular);
    assert!(winner.reason.unwrap().contains("TWO"));
}

#[test]
fn parse_welcome_message() {
    let mut d = data("welcomeMessage");
    d.color_attr = Some("ONE".to_string());
    let msg = RoomMessage::try_from(room("abc-123", d)).unwrap();
    match msg {
        RoomMessage::WelcomeMessage { color } => assert_eq!(color, Team::One),
        other => panic!("expected WelcomeMessage, got {:?}", other),
    }
}

#[test]
fn parse_move_request() {
    let msg = RoomMessage::try_from(room("abc-123", data("moveRequest"))).unwrap();
    assert!(matches!(msg, RoomMessage::MoveRequest));
}

#[test]
fn room_message_wraps_inside_commessage() {
    let recv = ReceivedComMessage {
        left: None,
        joined: None,
        room: vec![room("abc", data("moveRequest"))],
        admin_prepared: None,
    };
    assert_eq!(recv.room.len(), 1);
    let room_msg = RoomMessage::try_from(recv.room.into_iter().next().unwrap()).unwrap();
    assert!(matches!(room_msg, RoomMessage::MoveRequest));
}

#[test]
fn round_trip_outgoing_set_move_xml() {
    let piece = Piece::new(Color::Blue, PieceShape::PentoL, Rotation::Zero, false, Coordinates::new(0, 0));
    let mv = Move::SetMove { piece };
    let xml = socha::outgoing::make_move_xml("abc-123", &mv).unwrap();
    let expected = "<room roomId=\"abc-123\"><data class=\"sc.plugin2027.SetMove\"><piece color=\"BLUE\" kind=\"PENTO_L\" rotation=\"NONE\" isFlipped=\"false\"><position x=\"0\" y=\"0\"/></piece></data></room>";
    assert_eq!(xml, expected);
}

#[test]
fn round_trip_outgoing_skip_move_xml() {
    let mv = Move::Skip { color: Color::Yellow };
    let xml = socha::outgoing::make_move_xml("xyz", &mv).unwrap();
    let expected = "<room roomId=\"xyz\"><data class=\"sc.plugin2027.SkipMove\"><color>YELLOW</color></data></room>";
    assert_eq!(xml, expected);
}

#[test]
fn unknown_data_class_yields_error_not_panic() {
    let result = RoomMessage::try_from(room("xyz", data("somethingNew")));
    assert!(result.is_err(), "unknown class must produce Err, not Ok or panic");
    let err = result.unwrap_err();
    assert!(
        err.contains("unknown room message class"),
        "error message should mention the unknown class, got: {err}"
    );
}

#[test]
fn welcome_message_without_color_attr_fails_gracefully() {
    let result = RoomMessage::try_from(room("xyz", data("welcomeMessage")));
    assert!(result.is_err());
}

#[test]
fn board_with_out_of_range_field_yields_error() {
    let received = ReceivedBoard { fields: vec![field(99, 99, "RED")] };
    let result = Board::try_from(received);
    assert!(result.is_err());
    let err = result.unwrap_err();
    assert!(err.contains("out of bounds"));
}

#[test]
fn board_with_unknown_content_token_yields_error() {
    let received = ReceivedBoard { fields: vec![field(0, 0, "MAGENTA")] };
    let result = Board::try_from(received);
    assert!(result.is_err());
    let err = result.unwrap_err();
    assert!(err.contains("unknown field content token"));
}

#[test]
fn duplicate_board_field_last_wins() {
    let received = ReceivedBoard { fields: vec![field(0, 0, "RED"), field(0, 0, "BLUE")] };
    let board = Board::try_from(received).unwrap();
    assert_eq!(*board.get(0, 0), FieldContent::Blue);
}

#[test]
fn sensible_moves_returns_skip_when_no_moves_possible() {

    let mut state = GameState::new(PieceShape::PentoL);
    state.blue_shapes.clear();
    state.last_move_mono.insert(Color::Blue, false);
    *state.board.get_mut(10, 10) = FieldContent::Blue;
    state.turn = 4;
    assert!(!state.is_first_move_for(Color::Blue));
    let moves = socha::internal::sensible_moves(&state);
    assert_eq!(moves.len(), 1);
    assert!(matches!(moves[0], Move::Skip { color: Color::Blue }));
}

#[test]
fn outgoing_move_xml_handles_rotated_and_flipped_piece() {
    let piece = Piece::new(Color::Green, PieceShape::PentoX, Rotation::Mirror, true, Coordinates::new(7, 3));
    let mv = Move::SetMove { piece };
    let xml = socha::outgoing::make_move_xml("room-42", &mv).unwrap();
    let expected = "<room roomId=\"room-42\"><data class=\"sc.plugin2027.SetMove\"><piece color=\"GREEN\" kind=\"PENTO_X\" rotation=\"MIRROR\" isFlipped=\"true\"><position x=\"7\" y=\"3\"/></piece></data></room>";
    assert_eq!(xml, expected);
}
