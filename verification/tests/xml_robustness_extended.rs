//! Received data with parts missing or added still builds messages.

use socha::incoming::{
    ReceivedAggregation, ReceivedBlueShapes, ReceivedBool, ReceivedBoard, ReceivedColorText,
    ReceivedData, ReceivedDefinition, ReceivedFragment, ReceivedGreenShapes, ReceivedLastMoveMono,
    ReceivedPart, ReceivedPiece, ReceivedPlayerAttr, ReceivedRedShapes, ReceivedRoom,
    ReceivedScore, ReceivedScoreEntry, ReceivedScores, ReceivedState, ReceivedValidColors,
    ReceivedWinner, ReceivedYellowShapes,
};
use socha::internal::{GameResult, GameState, RoomMessage};
use socha::messages::build_piece_from_received;
use socha::neutral::{Color, Coordinates, PieceShape};

fn bare_data(class: &str) -> ReceivedData {
    ReceivedData {
        class: Some(class.to_string()),
        color_attr: None,
        state: None,
        definition: None,
        scores: None,
        winner: None,
    }
}

#[test]
fn unknown_attribute_on_known_tag_tolerated() {
    // An attribute the reader does not know leaves no trace in the data.
    let mut data = bare_data("welcomeMessage");
    data.color_attr = Some("ONE".to_string());
    let wrapper = ReceivedRoom { room_id: Some("rid".to_string()), data: Some(data) };
    let msg = RoomMessage::try_from(wrapper).expect("decode");
    assert!(matches!(msg, RoomMessage::WelcomeMessage { color: _ }));
}

#[test]
fn missing_position_inside_piece_falls_back_to_default() {
    let received = ReceivedPiece {
        color: "BLUE".to_string(),
        kind: "MONO".to_string(),
        rotation: "NONE".to_string(),
        is_flipped: "false".to_string(),
        position: None,
    };
    println!("position was {:?}", received.position);
    let piece = build_piece_from_received(&received).expect("piece");
    assert_eq!(piece.position, Coordinates::new(0, 0));
    assert_eq!(piece.color, Color::Blue);
    assert_eq!(piece.kind, PieceShape::Mono);
}

fn state_with_lists(turn: Option<u32>, start_piece: &str, valid: Option<Vec<&str>>) -> ReceivedState {
    ReceivedState {
        turn,
        start_team: Some("ONE".to_string()),
        start_piece: Some(start_piece.to_string()),
        round: turn.map(|_| 1),
        last_move: None,
        board: Some(ReceivedBoard { fields: vec![] }),
        last_move_mono: Some(ReceivedLastMoveMono { entries: vec![] }),
        blue_shapes: Some(ReceivedBlueShapes { shapes: vec![] }),
        yellow_shapes: Some(ReceivedYellowShapes { shapes: vec![] }),
        red_shapes: Some(ReceivedRedShapes { shapes: vec![] }),
        green_shapes: Some(ReceivedGreenShapes { shapes: vec![] }),
        valid_colors: valid.map(|v| ReceivedValidColors {
            colors: v.iter().map(|c| ReceivedColorText { value: c.to_string() }).collect(),
        }),
    }
}

#[test]
fn unknown_top_level_element_following_known_one_is_ignored() {
    // An unknown child element of `<state>` leaves no trace in the data.
    let received = state_with_lists(Some(0), "PENTO_L", Some(vec!["BLUE", "YELLOW", "RED", "GREEN"]));
    let _state = GameState::try_from(received).expect("GameState build");
}

#[test]
fn game_result_with_unknown_fragment_attribute_tolerated() {
    let mut data = bare_data("result");
    data.definition = Some(ReceivedDefinition {
        fragments: vec![ReceivedFragment {
            name: "Siegpunkte".to_string(),
            aggregation: ReceivedAggregation { value: "SUM".to_string() },
            relevant_for_ranking: ReceivedBool { value: "true".to_string() },
        }],
    });
    data.scores = Some(ReceivedScores {
        entries: vec![ReceivedScoreEntry {
            player: ReceivedPlayerAttr { team: "ONE".to_string() },
            score: Some(ReceivedScore { parts: vec![ReceivedPart { value: "1".to_string() }] }),
        }],
    });
    data.winner = Some(ReceivedWinner {
        team: Some("ONE".to_string()),
        regular: Some("true".to_string()),
        reason: Some("ONE gewinnt".to_string()),
    });
    let result = GameResult::try_from(data).expect("GameResult build");
    assert_eq!(result.scores.len(), 1);
    assert!(result.winner.is_some());
}

#[test]
fn empty_state_yields_default_gamestate_no_panic() {
    let received = state_with_lists(None, "PENTO_I", None);
    let state = GameState::try_from(received).expect("Gamestate defaults applied");
    assert_eq!(state.turn, 0);
    assert!(state.last_move.is_none());
}
