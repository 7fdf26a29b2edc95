//! Move generation lists every legal Set move exactly once.

use std::collections::BTreeSet;

use socha::internal::{possible_moves, validate_set_move, GameState, BOARD_LENGTH};
use socha::neutral::{Color, Coordinates, Move, Piece, PieceShape, Rotation};

/// A move as its shape and the set of board cells it occupies.
fn move_key(mv: &Move) -> (PieceShape, BTreeSet<(i32, i32)>) {
    match mv {
        Move::SetMove { piece } => {
            let cells: BTreeSet<(i32, i32)> =
                piece.coordinates().into_iter().map(|c| (c.x, c.y)).collect();
            (piece.kind, cells)
        },
        Move::Skip { color } => {
            let _ = color;
            (PieceShape::Mono, BTreeSet::new())
        },
    }
}

fn moves_as_set(moves: &[Move]) -> BTreeSet<(PieceShape, BTreeSet<(i32, i32)>)> {
    moves.iter().map(move_key).collect()
}

#[test]
fn first_move_for_blue_yields_all_start_piece_border_placements() {

    let state = GameState::new(PieceShape::PentoL);
    let generated = possible_moves(&state);
    assert!(!generated.is_empty(), "first move should have options");

    let mut expected: BTreeSet<(PieceShape, BTreeSet<(i32, i32)>)> = BTreeSet::new();
    for variant in PieceShape::PentoL.variants() {
        let mut shape = variant.shape.clone();
        shape.sort();
        for y in 0..BOARD_LENGTH as i32 {
            for x in 0..BOARD_LENGTH as i32 {
                let piece = Piece::new(
                    Color::Blue,
                    PieceShape::PentoL,
                    variant.rotation,
                    variant.is_flipped,
                    Coordinates::new(x, y),
                );
                if validate_set_move(&state, &piece).is_ok() {
                    let cells: BTreeSet<(i32, i32)> =
                        piece.coordinates().into_iter().map(|c| (c.x, c.y)).collect();
                    expected.insert((PieceShape::PentoL, cells));
                }
            }
        }
    }
    assert!(!expected.is_empty(), "expected set should not be empty");

    let gen_set = moves_as_set(&generated);
    if gen_set != expected {
        let missing: Vec<_> = expected.difference(&gen_set).cloned().collect();
        let extra: Vec<_> = gen_set.difference(&expected).cloned().collect();
        panic!(
            "move set mismatch.\n  missing (in expected, not in generated): {missing:?}\n  \
             extra   (in generated, not in expected): {extra:?}"
        );
    }
}

#[test]
fn first_move_for_each_color_uses_start_piece() {
    let mut state = GameState::new(PieceShape::PentoT);
    for c in Color::ALL {
        if state.current_color() != c {
            while state.current_color() != c {
                if !state.advance() {
                    break;
                }
            }
        }
        if !state.is_first_move_for(c) {
            continue;
        }
        let moves = possible_moves(&state);
        assert!(!moves.is_empty(), "first move for {c:?} should have options");
        for mv in &moves {
            match mv {
                Move::SetMove { piece } => {
                    assert_eq!(
                        piece.kind,
                        PieceShape::PentoT,
                        "{c:?}'s first move must use the start piece, got {piece:?}"
                    );
                },
                Move::Skip { .. } => {
                    panic!("{c:?}'s first move must not be a Skip");
                },
            }
        }
    }
}

#[test]
fn normal_moves_cover_all_undeployed_shape_variants_with_corner_constraint() {

    let mut state = GameState::new(PieceShape::PentoL);
    let first = Piece::new(Color::Blue, PieceShape::PentoL, Rotation::Zero, false, Coordinates::new(0, 0));
    Move::SetMove { piece: first }.make_move(&mut state).expect("first move should validate");

    state.advance();

    state.valid_colors = vec![Color::Blue, Color::Yellow];
    state.turn = 0;
    state.board = Default::default();
    state.blue_shapes = PieceShape::ALL.to_vec();
    state.yellow_shapes = vec![PieceShape::Mono];
    state.last_move_mono.clear();
    let first = Piece::new(Color::Blue, PieceShape::PentoL, Rotation::Zero, false, Coordinates::new(0, 0));
    // Yellow holds only MONO and has nothing on the board, so it has no legal
    // placement while Blue moves; it must still come on turn next, so
    // make_move leaves the valid colours as they are.
    Move::SetMove { piece: first }.make_move(&mut state).expect("blue first");

    state.yellow_shapes = PieceShape::ALL.to_vec();
    let yellow_first =
        Piece::new(Color::Yellow, PieceShape::PentoL, Rotation::Zero, false, Coordinates::new(18, 16));
    Move::SetMove { piece: yellow_first }.make_move(&mut state).expect("yellow first");

    assert_eq!(state.current_color(), Color::Blue);
    assert!(!state.is_first_move_for(Color::Blue));

    let generated = possible_moves(&state);
    assert!(!generated.is_empty(), "blue should have follow-up moves");

    let mut expected: BTreeSet<(PieceShape, BTreeSet<(i32, i32)>)> = BTreeSet::new();
    let color = Color::Blue;
    for &kind in state.undeployed(color) {
        for variant in kind.variants() {
            for y in 0..BOARD_LENGTH as i32 {
                for x in 0..BOARD_LENGTH as i32 {
                    let piece = Piece::new(color, kind, variant.rotation, variant.is_flipped, Coordinates::new(x, y));
                    if validate_set_move(&state, &piece).is_ok() {
                        let cells: BTreeSet<(i32, i32)> =
                            piece.coordinates().into_iter().map(|c| (c.x, c.y)).collect();
                        expected.insert((kind, cells));
                    }
                }
            }
        }
    }
    assert!(!expected.is_empty(), "expected set should not be empty");

    let gen_set = moves_as_set(&generated);
    if gen_set != expected {
        let missing: Vec<_> = expected.difference(&gen_set).cloned().collect();
        let extra: Vec<_> = gen_set.difference(&expected).cloned().collect();
        println!(
            "expected: {} moves, generated: {} moves; missing {}, extra {}",
            expected.len(),
            gen_set.len(),
            missing.len(),
            extra.len()
        );
        panic!("normal-move enumeration mismatch");
    }
}

#[test]
fn possible_moves_no_duplicates() {
    let state = GameState::new(PieceShape::PentoL);
    let moves = possible_moves(&state);
    let set = moves_as_set(&moves);
    assert_eq!(
        set.len(),
        moves.len(),
        "{} duplicate moves emitted (set={}, list={})",
        moves.len() - set.len(),
        set.len(),
        moves.len()
    );
}
