//! Applying and taking back moves, validation of first moves, and scoring.

use rand::{rngs::ThreadRng, Rng};
use socha::internal::{points_from_undeployed, possible_moves, validate_move, GameState};
use socha::neutral::{BlokusMoveMistake, Color, Coordinates, Move, Piece, PieceShape, Rotation};

fn random_start_piece(rng: &mut ThreadRng) -> PieceShape {
    let pentos = [
        PieceShape::PentoL,
        PieceShape::PentoT,
        PieceShape::PentoV,
        PieceShape::PentoS,
        PieceShape::PentoZ,
        PieceShape::PentoI,
        PieceShape::PentoP,
        PieceShape::PentoW,
        PieceShape::PentoU,
        PieceShape::PentoR,
        PieceShape::PentoX,
        PieceShape::PentoY,
    ];
    pentos[rng.random_range(0..pentos.len())]
}

/// Plays `games` random games of up to `max_plies` moves, then takes every
/// move back and compares with the starting state.
fn fuzz_make_unmake_games(games: usize, max_plies: usize) {
    let mut rng = rand::rng();

    for game_idx in 0..games {
        let start_piece = random_start_piece(&mut rng);
        let mut state = GameState::new(start_piece);
        let snapshot = state.clone();

        let mut move_stack: Vec<socha::internal::MoveChange> = Vec::new();

        for _ in 0..max_plies {
            let moves = possible_moves(&state);
            if moves.is_empty() {
                break;
            }
            let mv = moves[rng.random_range(0..moves.len())];
            match mv.make_move(&mut state) {
                Ok(change) => move_stack.push(change),
                Err(_e) => {
                    let mut found = false;
                    for alt_mv in moves.iter().cycle().skip(1).take(moves.len() - 1) {
                        if let Ok(change) = alt_mv.make_move(&mut state) {
                            move_stack.push(change);
                            found = true;
                            break;
                        }
                    }
                    if !found {
                        break;
                    }
                },
            }
        }

        while let Some(change) = move_stack.pop() {
            socha::neutral::Move::unmake_move(&mut state, change);
        }
        assert_eq!(state, snapshot, "board mismatch after game {}", game_idx);
    }
}

#[test]
fn fuzz_make_unmake_short() {
    fuzz_make_unmake_games(20, 60);
}

#[test]
fn fuzz_make_unmake_long() {
    fuzz_make_unmake_games(5, 200);
}

#[test]
fn first_player_first_move_must_use_start_piece_on_border() {

    let mut state = GameState::new(PieceShape::PentoL);
    assert_eq!(state.current_color(), Color::Blue);

    let piece_wrong_shape =
        Piece::new(Color::Blue, PieceShape::Mono, Rotation::Zero, false, Coordinates::new(0, 0));
    assert_eq!(
        validate_move(&state, &Move::SetMove { piece: piece_wrong_shape }).unwrap_err(),
        BlokusMoveMistake::WrongShape
    );

    let piece_wrong_color =
        Piece::new(Color::Yellow, PieceShape::PentoL, Rotation::Zero, false, Coordinates::new(0, 0));
    assert_eq!(
        validate_move(&state, &Move::SetMove { piece: piece_wrong_color }).unwrap_err(),
        BlokusMoveMistake::WrongColor
    );

    let piece_interior =
        Piece::new(Color::Blue, PieceShape::PentoL, Rotation::Zero, false, Coordinates::new(5, 7));
    assert_eq!(
        validate_move(&state, &Move::SetMove { piece: piece_interior }).unwrap_err(),
        BlokusMoveMistake::NotOnBorder
    );

    let piece_valid =
        Piece::new(Color::Blue, PieceShape::PentoL, Rotation::Zero, false, Coordinates::new(0, 0));
    assert!(validate_move(&state, &Move::SetMove { piece: piece_valid }).is_ok());
    let mv = Move::SetMove { piece: piece_valid };
    mv.make_move(&mut state).unwrap();
    assert!(!state.is_first_move_for(Color::Blue));
    assert_eq!(state.current_color(), Color::Yellow);
    assert!(state.is_first_move_for(Color::Yellow));
}

#[test]
fn second_player_shared_corner_and_touches_same_color_enforced() {

    let mut state = GameState::new(PieceShape::PentoL);
    let blue_first =
        Piece::new(Color::Blue, PieceShape::PentoL, Rotation::Zero, false, Coordinates::new(0, 0));
    let mv = Move::SetMove { piece: blue_first };
    mv.make_move(&mut state).unwrap();

    assert_eq!(state.current_color(), Color::Yellow);
    assert!(state.is_first_move_for(Color::Yellow));

    let yellow_moves = possible_moves(&state);
    assert!(!yellow_moves.is_empty(), "yellow should have first-move options");
    for mv in &yellow_moves {
        assert!(validate_move(&state, mv).is_ok());
        if let Move::SetMove { piece } = mv {
            assert_eq!(piece.color, Color::Yellow);
            assert_eq!(piece.kind, PieceShape::PentoL);
        } else {
            panic!("first-move for yellow should be a Set, not Skip");
        }
    }

    let yellow_interior =
        Piece::new(Color::Yellow, PieceShape::PentoL, Rotation::Zero, false, Coordinates::new(5, 7));
    assert!(validate_move(&state, &Move::SetMove { piece: yellow_interior }).is_err());
}

#[test]
fn scoring_points_for_undeployed() {

    let all: Vec<PieceShape> = PieceShape::ALL.to_vec();
    assert_eq!(points_from_undeployed(&all, false), 0);
    assert_eq!(points_from_undeployed(&[], false), 104);
    assert_eq!(points_from_undeployed(&[], true), 109);
    assert_eq!(points_from_undeployed(&[PieceShape::Mono], false), 88);
}
