//! The library's laws on concrete values, and its formulas on fixed inputs.

use socha::internal::{points_from_undeployed, possible_moves, remove_valid_colors, validate_move, GameState, BOARD_LENGTH};
use socha::neutral::{
    BlokusMoveMistake, Color, Coordinates, FieldContent, Move, Piece, PieceShape, Rotation,
    ScoreAggregation, Team,
};
use socha::text::is_float_literal;

#[test]
fn tokens_read_back_as_written() {
    for c in Color::ALL {
        assert_eq!(Color::from_str(c.as_str()), Ok(c));
    }
    for t in [Team::One, Team::Two] {
        assert_eq!(Team::from_str(t.as_str()), Ok(t));
    }
    for f in [FieldContent::Empty, FieldContent::Blue, FieldContent::Yellow, FieldContent::Red, FieldContent::Green] {
        assert_eq!(FieldContent::from_str(f.as_str()), Ok(f));
    }
    for r in [Rotation::Zero, Rotation::Right, Rotation::Mirror, Rotation::Left] {
        assert_eq!(Rotation::from_str(r.as_str()), Ok(r));
    }
    for a in [ScoreAggregation::Sum, ScoreAggregation::Average] {
        assert_eq!(ScoreAggregation::from_str(a.as_str()), Ok(a));
    }
    for s in PieceShape::ALL {
        assert_eq!(PieceShape::from_str(s.as_str()), Ok(s));
        assert_eq!(PieceShape::ALL[s.to_index()], s);
    }
}

#[test]
fn tokens_are_trimmed_and_unknown_ones_named() {
    assert_eq!(Color::from_str("  RED\n"), Ok(Color::Red));
    assert_eq!(Color::from_str(" PURPLE "), Err("unknown color token 'PURPLE'".to_string()));
    assert_eq!(Team::from_str("THREE"), Err("unknown team token 'THREE'".to_string()));
    assert_eq!(Rotation::from_str("UP"), Err("unknown rotation token 'UP'".to_string()));
    assert_eq!(FieldContent::from_str("X"), Err("unknown field content token 'X'".to_string()));
    assert_eq!(
        ScoreAggregation::from_str("MAX"),
        Err("unknown score aggregation token 'MAX'".to_string())
    );
    assert_eq!(PieceShape::from_str("HEXO"), Err("unknown piece shape token 'HEXO'".to_string()));
    assert_eq!(BlokusMoveMistake::from_str("OBSTRUCTED"), Ok(BlokusMoveMistake::Obstructed));
    assert_eq!(
        BlokusMoveMistake::from_str("LATE"),
        Err("unknown BlokusMoveMistake token 'LATE'".to_string())
    );
}

#[test]
fn colours_cycle_and_alternate_teams() {
    for c in Color::ALL {
        assert_eq!(c.next().next().next().next(), c);
        assert_ne!(c.next(), c);
        assert_eq!(c.next().team(), c.team().opponent());
        assert_eq!(c.team().opponent().opponent(), c.team());
        assert_eq!(c.to_field_content().to_color(), Some(c));
    }
    assert_eq!(Color::Blue.next(), Color::Yellow);
    assert_eq!(Color::Green.next(), Color::Blue);
    assert_eq!(Color::Red.team(), Team::One);
    assert_eq!(Color::Yellow.team(), Team::Two);
}

#[test]
fn rotations_add_up() {
    let all = [Rotation::Zero, Rotation::Right, Rotation::Mirror, Rotation::Left];
    for a in all {
        for b in all {
            assert_eq!(a.combine(b).value(), (a.value() + b.value()) % 4);
            assert_eq!(a.combine(b), b.combine(a));
        }
        assert_eq!(a.combine(Rotation::Zero), a);
    }
    assert_eq!(Rotation::Left.combine(Rotation::Mirror), Rotation::Right);
}

#[test]
fn every_orientation_is_among_the_variants() {
    for s in PieceShape::ALL {
        let variants = s.variants();
        for r in [Rotation::Zero, Rotation::Right, Rotation::Mirror, Rotation::Left] {
            for f in [false, true] {
                let cells = s.transform(r, f);
                let mut sorted = cells.clone();
                sorted.sort();
                assert!(variants.iter().any(|v| {
                    let mut vs = v.shape.clone();
                    vs.sort();
                    vs == sorted
                }));
                assert_eq!(cells.len(), s.size());
            }
        }
    }
}

#[test]
fn transform_of_trio_l_turned_right() {
    // (0,0),(0,1),(1,1) turned a quarter clockwise: (0,0),(-1,0),(-1,1),
    // re-aligned by one in x.
    assert_eq!(PieceShape::TrioL.transform(Rotation::Right, false), vec![(1, 0), (0, 0), (0, 1)]);
    assert_eq!(PieceShape::PentoL.bounding_box(), (2, 4));
    assert_eq!(PieceShape::Mono.variants().len(), 1);
    assert_eq!(PieceShape::PentoX.variants().len(), 1);
    assert_eq!(PieceShape::PentoL.variants().len(), 8);
}

#[test]
fn unmake_restores_after_a_fixed_game() {
    let mut state = GameState::new(PieceShape::PentoV);
    let before = state.clone();
    let mut changes = Vec::new();
    for _ in 0..12 {
        let moves = possible_moves(&state);
        if moves.is_empty() {
            break;
        }
        let mv = moves[moves.len() / 2];
        changes.push(mv.make_move(&mut state).unwrap());
    }
    assert!(!changes.is_empty());
    while let Some(ch) = changes.pop() {
        Move::unmake_move(&mut state, ch);
    }
    assert_eq!(state, before);
}

#[test]
fn listed_moves_are_accepted() {
    let mut state = GameState::new(PieceShape::PentoZ);
    for _ in 0..8 {
        let moves = possible_moves(&state);
        for m in &moves {
            assert!(validate_move(&state, m).is_ok());
        }
        if moves.is_empty() {
            break;
        }
        moves[0].make_move(&mut state).unwrap();
    }
}

#[test]
fn advance_moves_to_the_next_valid_colour() {
    let mut state = GameState::new(PieceShape::PentoL);
    assert!(state.advance());
    assert_eq!(state.turn, 1);
    state.valid_colors = vec![Color::Green];
    assert!(state.advance());
    assert_eq!(state.turn, 3);
    assert_eq!(state.current_color(), Color::Green);
    state.valid_colors = vec![];
    assert!(!state.advance());
    assert_eq!(state.turn, 3);

    let mut s2 = GameState::new(PieceShape::PentoL);
    assert!(s2.remove_active_color(Color::Yellow));
    assert_eq!(s2.valid_colors, vec![Color::Blue, Color::Red, Color::Green]);
    assert_eq!(s2.current_color(), Color::Red);
}

#[test]
fn wrong_moves_name_their_mistake() {
    let mut state = GameState::new(PieceShape::PentoL);
    assert_eq!(
        validate_move(&state, &Move::Skip { color: Color::Blue }),
        Err(BlokusMoveMistake::SkipFirstTurn)
    );
    assert_eq!(
        validate_move(&state, &Move::Skip { color: Color::Red }),
        Err(BlokusMoveMistake::WrongColor)
    );
    let off = Piece::new(Color::Blue, PieceShape::PentoL, Rotation::Zero, false, Coordinates::new(19, 19));
    assert_eq!(validate_move(&state, &Move::SetMove { piece: off }), Err(BlokusMoveMistake::OutOfBounds));
    let first = Piece::new(Color::Blue, PieceShape::PentoL, Rotation::Zero, false, Coordinates::new(0, 0));
    let mistake = Move::SetMove { piece: first }.make_move(&mut state.clone());
    assert!(mistake.is_ok());
    Move::SetMove { piece: first }.make_move(&mut state).unwrap();
    // Back to blue at turn 4.
    state.turn = 4;
    let again = Piece::new(Color::Blue, PieceShape::PentoL, Rotation::Zero, false, Coordinates::new(2, 5));
    assert_eq!(validate_move(&state, &Move::SetMove { piece: again }), Err(BlokusMoveMistake::DuplicateShape));
    let over = Piece::new(Color::Blue, PieceShape::Mono, Rotation::Zero, false, Coordinates::new(0, 0));
    assert_eq!(validate_move(&state, &Move::SetMove { piece: over }), Err(BlokusMoveMistake::Obstructed));
    let side = Piece::new(Color::Blue, PieceShape::Mono, Rotation::Zero, false, Coordinates::new(1, 0));
    assert_eq!(validate_move(&state, &Move::SetMove { piece: side }), Err(BlokusMoveMistake::TouchesSameColor));
    let far = Piece::new(Color::Blue, PieceShape::Mono, Rotation::Zero, false, Coordinates::new(10, 10));
    assert_eq!(validate_move(&state, &Move::SetMove { piece: far }), Err(BlokusMoveMistake::NoSharedCorner));
    let corner = Piece::new(Color::Blue, PieceShape::Mono, Rotation::Zero, false, Coordinates::new(2, 4));
    assert_eq!(validate_move(&state, &Move::SetMove { piece: corner }), Ok(()));
    let err = Move::SetMove { piece: far }.make_move(&mut state);
    assert_eq!(err.unwrap_err(), BlokusMoveMistake::NoSharedCorner);
    assert!(BlokusMoveMistake::NoSharedCorner.message().starts_with("Alle Teile"));
}

#[test]
fn points_and_result_of_a_finished_game() {
    let mut state = GameState::new(PieceShape::PentoL);
    assert_eq!(state.points_for_color(Color::Blue), 0);
    assert_eq!(state.game_result(), None);
    state.blue_shapes.clear();
    state.last_move_mono.insert(Color::Blue, true);
    state.red_shapes = vec![PieceShape::Mono];
    assert_eq!(state.points_for_color(Color::Blue), 109);
    assert_eq!(state.points_for_team(Team::One), 109 + 88);
    assert_eq!(state.points_for_team(Team::Two), 0);
    state.valid_colors.clear();
    let (team, winner) = state.game_result().unwrap();
    assert_eq!(team, Some(Team::One));
    assert_eq!(winner.team, Some(Team::One));
    assert!(winner.regular);
    assert_eq!(winner.reason.unwrap(), "197 hat am meisten Punkte erzielt.");
    let tie = {
        let mut s = GameState::new(PieceShape::PentoL);
        s.valid_colors.clear();
        s
    };
    assert_eq!(tie.game_result().unwrap().1.reason.unwrap(), "Unentschieden");
}

#[test]
fn board_text_and_cells() {
    let mut board = socha::internal::Board::new_empty();
    *board.get_mut(1, 0) = FieldContent::Red;
    board.set(0, 2, FieldContent::Green);
    let text = board.to_string();
    let lines: Vec<&str> = text.lines().collect();
    assert_eq!(lines.len(), BOARD_LENGTH);
    assert_eq!(lines[0], ". R . . . . . . . . . . . . . . . . . .");
    assert_eq!(&lines[2][..3], "G .");
    assert!(text.ends_with('\n'));
    assert_eq!(board.colored_fields(Color::Red), vec![Coordinates::new(1, 0)]);
    assert!(board.borders_on_color(Coordinates::new(1, 1), Color::Red));
    assert!(board.corners_on_color(Coordinates::new(0, 1), Color::Red));
    assert!(board.is_obstructed(Coordinates::new(1, 0)));
    assert!(!board.is_obstructed(Coordinates::new(5, 5)));
    assert!(socha::internal::Board::contains(19, 0));
    assert!(!socha::internal::Board::contains(20, 0));
    assert_eq!(Coordinates::new(-3, 12).to_string(), "[-3|12]");
    assert!(socha::internal::is_on_border(Coordinates::new(0, 7)));
    assert!(!socha::internal::is_on_border(Coordinates::new(3, 7)));
}

#[test]
fn float_literals_as_the_standard_library_reads_them() {
    for ok in ["1", "0", "-2.5", "+.5", "3.", "1e5", "2.5E-3", "inf", "-Infinity", "NaN", "007"] {
        assert!(is_float_literal(ok), "{ok}");
        assert!(ok.parse::<f64>().is_ok(), "{ok}");
    }
    for bad in ["", ".", "1..2", "e5", "1e", "1e+", "abc", "1.2.3", "+", "- 1", "infinit"] {
        assert!(!is_float_literal(bad), "{bad}");
        assert!(bad.parse::<f64>().is_err(), "{bad}");
    }
}

#[test]
fn bounding_boxes_are_width_and_height() {
    assert_eq!(PieceShape::PentoL.bounding_box(), (2, 4));
    assert_eq!(PieceShape::Mono.bounding_box(), (1, 1));
    assert_eq!(PieceShape::PentoI.bounding_box(), (1, 5));
    assert_eq!(PieceShape::PentoS.bounding_box(), (4, 2));
}

#[test]
fn advance_goes_on_past_the_round_limit() {
    let mut state = GameState::new(PieceShape::PentoL);
    state.valid_colors = vec![Color::Blue];
    state.turn = 250;
    assert!(state.advance());
    assert_eq!(state.turn, 252);
    assert_eq!(state.current_color(), Color::Blue);

    state.turn = u32::MAX - 1;
    assert!(!state.advance());
    assert_eq!(state.turn, u32::MAX);
}

#[test]
fn a_colour_without_moves_is_dropped_by_removal() {
    let mut state = GameState::new(PieceShape::PentoL);
    state.yellow_shapes = vec![];
    let first = Piece::new(Color::Blue, PieceShape::PentoL, Rotation::Zero, false, Coordinates::new(0, 0));
    let mut before = state.clone();
    let change = Move::SetMove { piece: first }.make_move(&mut state).unwrap();
    assert_eq!(state.valid_colors, Color::ALL.to_vec());
    assert_eq!(state.turn, 1);
    let mut after = state.clone();
    Move::unmake_move(&mut after, change);
    assert_eq!(after, before);

    state.turn = 0;
    remove_valid_colors(&mut state);
    assert_eq!(state.valid_colors, vec![Color::Blue, Color::Red, Color::Green]);
    assert!(state.advance());
    assert_eq!(state.current_color(), Color::Red);
    assert!(!possible_moves(&state).is_empty());
    before.turn = 0;
    remove_valid_colors(&mut before);
    assert_eq!(before.valid_colors, vec![Color::Blue, Color::Red, Color::Green]);
}

#[test]
fn points_never_drop_as_shapes_are_placed() {
    let mut left: Vec<PieceShape> = PieceShape::ALL.to_vec();
    let mut last = points_from_undeployed(&left, false);
    assert_eq!(last, 0);
    while !left.is_empty() {
        left.remove(left.len() / 2);
        let now = points_from_undeployed(&left, false);
        assert!(now >= last);
        assert!(now <= 109);
        last = now;
    }
    assert_eq!(last, 104);
    assert_eq!(points_from_undeployed(&left, true), 109);
    assert_eq!(points_from_undeployed(&[PieceShape::PentoL], true), 84);
}

#[test]
fn colours_without_moves_leave_the_game() {
    let mut state = GameState::new(PieceShape::PentoL);
    remove_valid_colors(&mut state);
    assert_eq!(state.valid_colors, vec![Color::Blue, Color::Yellow, Color::Red, Color::Green]);
    state.red_shapes = vec![];
    state.green_shapes = vec![PieceShape::Mono];
    remove_valid_colors(&mut state);
    assert_eq!(state.valid_colors, vec![Color::Blue, Color::Yellow]);
    assert_eq!(state.turn, 0);
}

#[test]
fn sensible_moves_are_the_possible_moves_when_there_are_any() {
    let mut state = GameState::new(PieceShape::PentoL);
    let listed = possible_moves(&state);
    assert!(!listed.is_empty());
    assert_eq!(socha::internal::sensible_moves(&state), listed);
    listed[0].make_move(&mut state).unwrap();
    let listed = possible_moves(&state);
    assert_eq!(socha::internal::sensible_moves(&state), listed);
}
