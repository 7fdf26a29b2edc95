//! The messages of the game protocol as the library uses them, and their
//! construction from the received XML data.
use vstd::prelude::*;

use crate::incoming::{
    ReceivedBoard, ReceivedColorText, ReceivedData, ReceivedDefinition, ReceivedFragment,
    ReceivedScoreEntry, ReceivedScores, ReceivedPart, ReceivedScore, ReceivedWinner, ReceivedField, ReceivedLastMove,
    ReceivedLastMoveMono, ReceivedLastMoveMonoEntry, ReceivedPiece, ReceivedRoom, ReceivedShape,
    ReceivedState, ReceivedValidColors,
};
use crate::internal::{all_shapes_seq, in_board, Board, GameState, Joined, Left, BOARD_LENGTH};
use crate::neutral::{
    aggregation_from_token, team_from_token, LastMoveMonoMap, PlayerScore, ScoreAggregation,
    ScoreFragment, Team, Winner,
};
use crate::neutral::{
    color_from_token, content_from_token, rotation_from_token, unknown_token_text, Color,
    Coordinates, FieldContent, Move, Piece, PieceShape, Rotation,
};
use crate::piece_shape::{all_shapes, shape_from_token};
use crate::text::{
    append_signed, ends_with_spec, float_error, float_text, is_float_literal, signed_decimal, str_ends_with, str_equal, trim, trim_spec,
};

verus! {

/// The view of the board with every cell empty.
pub open spec fn empty_board_view() -> Seq<Seq<FieldContent>> {
    Seq::new(BOARD_LENGTH as nat, |y: int| Seq::new(BOARD_LENGTH as nat, |x: int| FieldContent::Empty))
}

/// `board field out of bounds: x=<x>, y=<y>`
pub open spec fn out_of_bounds_text(x: i32, y: i32) -> Seq<char> {
    "board field out of bounds: x="@ + signed_decimal(x as int) + ", y="@ + signed_decimal(y as int)
}

/// The board view after writing the received fields in order into an empty
/// board (a later field for the same cell wins), or the error of the first
/// field that is off the board or names no field content.
pub open spec fn board_fields_result(fs: Seq<ReceivedField>) -> Result<Seq<Seq<FieldContent>>, Seq<char>>
    decreases fs.len(),
{
    if fs.len() == 0 {
        Ok(empty_board_view())
    } else {
        match board_fields_result(fs.drop_last()) {
            Err(e) => Err(e),
            Ok(v) => {
                let f = fs.last();
                if !in_board(f.x as int, f.y as int) {
                    Err(out_of_bounds_text(f.x, f.y))
                } else {
                    match content_from_token(trim_spec(f.content@)) {
                        None => Err(unknown_token_text("field content"@, trim_spec(f.content@))),
                        Some(c) => Ok(v.update(f.y as int, v[f.y as int].update(f.x as int, c))),
                    }
                }
            },
        }
    }
}

/// The shapes that the received texts name, or the error of the first that names none.
pub open spec fn shapes_result(fs: Seq<ReceivedShape>) -> Result<Seq<PieceShape>, Seq<char>>
    decreases fs.len(),
{
    if fs.len() == 0 {
        Ok(Seq::empty())
    } else {
        match shapes_result(fs.drop_last()) {
            Err(e) => Err(e),
            Ok(v) => match shape_from_token(trim_spec(fs.last().value@)) {
                None => Err(unknown_token_text("piece shape"@, trim_spec(fs.last().value@))),
                Some(s) => Ok(v.push(s)),
            },
        }
    }
}

/// All 21 shapes when no list was received, else the parsed list.
pub open spec fn shape_list_result(recv: Option<Vec<ReceivedShape>>) -> Result<Seq<PieceShape>, Seq<char>> {
    match recv {
        None => Ok(all_shapes_seq()),
        Some(v) => shapes_result(v@),
    }
}

/// Whether the received text, trimmed, is `true`.
pub open spec fn true_text(s: Seq<char>) -> bool {
    trim_spec(s) == "true"@
}

/// Parsing a token: the value, or the error text naming the trimmed token.
pub open spec fn token_result<T>(parsed: Option<T>, kind: Seq<char>, s: Seq<char>) -> Result<T, Seq<char>> {
    match parsed {
        Some(v) => Ok(v),
        None => Err(unknown_token_text(kind, trim_spec(s))),
    }
}

/// The piece that a received `<piece>` describes (position (0,0) when none
/// is given), or the error of its colour, shape or rotation, in that order.
pub open spec fn piece_result(p: ReceivedPiece) -> Result<Piece, Seq<char>> {
    match token_result(color_from_token(trim_spec(p.color@)), "color"@, p.color@) {
        Err(e) => Err(e),
        Ok(color) => match token_result(shape_from_token(trim_spec(p.kind@)), "piece shape"@, p.kind@) {
            Err(e) => Err(e),
            Ok(kind) => match token_result(
                rotation_from_token(trim_spec(p.rotation@)),
                "rotation"@,
                p.rotation@,
            ) {
                Err(e) => Err(e),
                Ok(rotation) => Ok(
                    Piece {
                        color,
                        kind,
                        rotation,
                        is_flipped: true_text(p.is_flipped@),
                        position: match p.position {
                            Some(pos) => Coordinates { x: pos.x, y: pos.y },
                            None => Coordinates { x: 0, y: 0 },
                        },
                    },
                ),
            },
        },
    }
}

/// The class of a received last move (empty when none is given).
pub open spec fn class_text(lm: ReceivedLastMove) -> Seq<char> {
    match lm.class {
        Some(c) => c@,
        None => Seq::empty(),
    }
}

/// The move of a received `<lastMove>`: a Set move for a class ending in
/// `SetMove` (or `setmove`) with a piece, a Skip move for a class ending in
/// `SkipMove` (or `skipmove`) with a colour, else none.
pub open spec fn last_move_result(lm: ReceivedLastMove) -> Result<Option<Move>, Seq<char>> {
    let class = class_text(lm);
    if ends_with_spec(class, "SetMove"@) || class == "setmove"@ {
        match lm.piece {
            Some(p) => match piece_result(p) {
                Err(e) => Err(e),
                Ok(piece) => Ok(Some(Move::SetMove { piece })),
            },
            None => Ok(None),
        }
    } else if ends_with_spec(class, "SkipMove"@) || class == "skipmove"@ {
        match lm.color {
            Some(c) => match token_result(color_from_token(trim_spec(c.value@)), "color"@, c.value@) {
                Err(e) => Err(e),
                Ok(color) => Ok(Some(Move::Skip { color })),
            },
            None => Ok(None),
        }
    } else {
        Ok(None)
    }
}

/// A board whose cells are all empty has the empty board view.
pub proof fn lemma_empty_board_view(b: Board)
    requires
        b.all_empty(),
    ensures
        b@ == empty_board_view(),
{
    assert forall|y: int| 0 <= y < BOARD_LENGTH implies #[trigger] b@[y] =~= empty_board_view()[y] by {
        assert forall|x: int| 0 <= x < BOARD_LENGTH implies b@[y][x] == FieldContent::Empty by {
            assert(b.cell(x, y) == FieldContent::Empty);
        }
    }
    assert(b@ =~= empty_board_view());
}

impl Board {
    /// Builds the board from the received fields; fails on the first field
    /// that is off the board or names no field content.
    pub fn try_from(recv: ReceivedBoard) -> (r: Result<Board, String>)
        ensures
            match board_fields_result(recv.fields@) {
                Ok(v) => r matches Ok(b) && b@ == v,
                Err(e) => r matches Err(m) && m@ == e,
            },
    {
        let mut board = Board::new_empty();
        proof {
            lemma_empty_board_view(board);
        }
        let mut i: usize = 0;
        while i < recv.fields.len()
            invariant
                i <= recv.fields@.len(),
                board_fields_result(recv.fields@.take(i as int)) == Ok::<Seq<Seq<FieldContent>>, Seq<char>>(board@),
            decreases recv.fields@.len() - i,
        {
            let f = &recv.fields[i];
            proof {
                assert(recv.fields@.take(i + 1).drop_last() =~= recv.fields@.take(i as int));
                assert(recv.fields@.take(i + 1).last() == *f);
            }
            let x = f.x;
            let y = f.y;
            if !Board::contains(x, y) {
                proof {
                    lemma_board_fields_error(recv.fields@, i as int + 1);
                }
                let mut m = String::from_str("board field out of bounds: x=");
                append_signed(&mut m, x);
                m.append(", y=");
                append_signed(&mut m, y);
                assert(m@ =~= out_of_bounds_text(x, y));
                return Err(m);
            }
            match FieldContent::from_str(f.content.as_str()) {
                Err(e) => {
                    proof {
                        lemma_board_fields_error(recv.fields@, i as int + 1);
                    }
                    return Err(e);
                },
                Ok(content) => {
                    board.set(x as usize, y as usize, content);
                },
            }
            i = i + 1;
        }
        assert(recv.fields@.take(recv.fields@.len() as int) =~= recv.fields@);
        Ok(board)
    }
}

/// Once a prefix of the fields fails, all of them fail the same way.
pub proof fn lemma_board_fields_error(fs: Seq<ReceivedField>, n: int)
    requires
        0 <= n <= fs.len(),
        board_fields_result(fs.take(n)) is Err,
    ensures
        board_fields_result(fs) == board_fields_result(fs.take(n)),
    decreases fs.len() - n,
{
    if n < fs.len() {
        assert(fs.take(n + 1).drop_last() =~= fs.take(n));
        lemma_board_fields_error(fs, n + 1);
    } else {
        assert(fs.take(n) =~= fs);
    }
}

/// Once a prefix of the shape texts fails, all of them fail the same way.
pub proof fn lemma_shapes_error(fs: Seq<ReceivedShape>, n: int)
    requires
        0 <= n <= fs.len(),
        shapes_result(fs.take(n)) is Err,
    ensures
        shapes_result(fs) == shapes_result(fs.take(n)),
    decreases fs.len() - n,
{
    if n < fs.len() {
        assert(fs.take(n + 1).drop_last() =~= fs.take(n));
        lemma_shapes_error(fs, n + 1);
    } else {
        assert(fs.take(n) =~= fs);
    }
}

/// The undeployed shapes of a colour: all 21 when no list was received,
/// else the shapes the list names.
pub fn parse_shapes(recv: Option<Vec<ReceivedShape>>) -> (r: Result<Vec<PieceShape>, String>)
    ensures
        match shape_list_result(recv) {
            Ok(v) => r matches Ok(s) && s@ == v,
            Err(e) => r matches Err(m) && m@ == e,
        },
{
    let ghost target = shape_list_result(recv);
    match &recv {
        None => {
            let all = all_shapes();
            assert(all@ =~= all_shapes_seq());
            Ok(all)
        },
        Some(shapes) => {
            let mut out: Vec<PieceShape> = Vec::new();
            let mut i: usize = 0;
            while i < shapes.len()
                invariant
                    i <= shapes@.len(),
                    target == shapes_result(shapes@),
                    target == shape_list_result(recv),
                    shapes_result(shapes@.take(i as int)) == Ok::<Seq<PieceShape>, Seq<char>>(out@),
                decreases shapes@.len() - i,
            {
                proof {
                    assert(shapes@.take(i + 1).drop_last() =~= shapes@.take(i as int));
                    assert(shapes@.take(i + 1).last() == shapes@[i as int]);
                }
                match PieceShape::from_str(shapes[i].value.as_str()) {
                    Err(err) => {
                        proof {
                            lemma_shapes_error(shapes@, i as int + 1);
                            assert(shapes_result(shapes@.take(i + 1)) == Err::<Seq<PieceShape>, Seq<char>>(err@));
                            assert(target == Err::<Seq<PieceShape>, Seq<char>>(err@));
                        }
                        return Err(err);
                    },
                    Ok(s) => {
                        out.push(s);
                    },
                }
                i = i + 1;
            }
            assert(shapes@.take(shapes@.len() as int) =~= shapes@);
            Ok(out)
        },
    }
}

/// Whether the text, trimmed, is `true`.
pub fn is_true_text(s: &str) -> (r: bool)
    ensures
        r == true_text(s@),
{
    str_equal(trim(s), "true")
}

/// The piece that a received `<piece>` describes.
pub fn build_piece_from_received(p: &ReceivedPiece) -> (r: Result<Piece, String>)
    ensures
        match piece_result(*p) {
            Ok(v) => r == Ok::<Piece, String>(v),
            Err(e) => r matches Err(m) && m@ == e,
        },
{
    let color = match Color::from_str(p.color.as_str()) {
        Ok(c) => c,
        Err(e) => {
            return Err(e);
        },
    };
    let kind = match PieceShape::from_str(p.kind.as_str()) {
        Ok(k) => k,
        Err(e) => {
            return Err(e);
        },
    };
    let rotation = match Rotation::from_str(p.rotation.as_str()) {
        Ok(r) => r,
        Err(e) => {
            return Err(e);
        },
    };
    let is_flipped = is_true_text(p.is_flipped.as_str());
    let position = match &p.position {
        Some(pos) => Coordinates::new(pos.x, pos.y),
        None => Coordinates::new(0, 0),
    };
    Ok(Piece::new(color, kind, rotation, is_flipped, position))
}

/// Parse a `<lastMove class="...">...</lastMove>` element into a `Move`, if any.
pub fn parse_last_move(lm: &ReceivedLastMove) -> (r: Result<Option<Move>, String>)
    ensures
        match last_move_result(*lm) {
            Ok(v) => r == Ok::<Option<Move>, String>(v),
            Err(e) => r matches Err(m) && m@ == e,
        },
{
    let class: &str = match &lm.class {
        Some(c) => c.as_str(),
        None => "",
    };
    proof {
        reveal_strlit("");
        assert(class@ == class_text(*lm));
    }
    if str_ends_with(class, "SetMove") || str_equal(class, "setmove") {
        if let Some(p) = &lm.piece {
            let piece = match build_piece_from_received(p) {
                Ok(piece) => piece,
                Err(e) => {
                    return Err(e);
                },
            };
            return Ok(Some(Move::SetMove { piece }));
        }
        Ok(None)
    } else if str_ends_with(class, "SkipMove") || str_equal(class, "skipmove") {
        if let Some(c) = &lm.color {
            let color = match Color::from_str(c.value.as_str()) {
                Ok(color) => color,
                Err(e) => {
                    return Err(e);
                },
            };
            return Ok(Some(Move::Skip { color }));
        }
        Ok(None)
    } else {
        Ok(None)
    }
}

/// The error of a parse result, if any.
pub open spec fn err_of<T>(r: Result<T, Seq<char>>) -> Option<Seq<char>> {
    match r {
        Ok(_) => None,
        Err(e) => Some(e),
    }
}

/// The mono record that the received entries describe (a later entry for a
/// colour wins), or the error of the first entry naming no colour.
pub open spec fn mono_entries_result(es: Seq<ReceivedLastMoveMonoEntry>) -> Result<Map<Color, bool>, Seq<char>>
    decreases es.len(),
{
    if es.len() == 0 {
        Ok(Map::empty())
    } else {
        match mono_entries_result(es.drop_last()) {
            Err(e) => Err(e),
            Ok(m) => {
                let entry = es.last();
                match token_result(color_from_token(trim_spec(entry.color.value@)), "color"@, entry.color.value@) {
                    Err(e) => Err(e),
                    Ok(c) => Ok(m.insert(c, true_text(entry.boolean.value@))),
                }
            },
        }
    }
}

/// The colours that the received texts name, or the error of the first that names none.
pub open spec fn colors_result(cs: Seq<ReceivedColorText>) -> Result<Seq<Color>, Seq<char>>
    decreases cs.len(),
{
    if cs.len() == 0 {
        Ok(Seq::empty())
    } else {
        match colors_result(cs.drop_last()) {
            Err(e) => Err(e),
            Ok(v) => match token_result(color_from_token(trim_spec(cs.last().value@)), "color"@, cs.last().value@) {
                Err(e) => Err(e),
                Ok(c) => Ok(v.push(c)),
            },
        }
    }
}

pub open spec fn start_piece_result(recv: ReceivedState) -> Result<PieceShape, Seq<char>> {
    match recv.start_piece {
        None => Ok(PieceShape::PentoL),
        Some(t) => token_result(shape_from_token(trim_spec(t@)), "piece shape"@, t@),
    }
}

pub open spec fn board_result(recv: ReceivedState) -> Result<Seq<Seq<FieldContent>>, Seq<char>> {
    match recv.board {
        None => Ok(empty_board_view()),
        Some(b) => board_fields_result(b.fields@),
    }
}

pub open spec fn state_last_move_result(recv: ReceivedState) -> Result<Option<Move>, Seq<char>> {
    match recv.last_move {
        None => Ok(None),
        Some(lm) => last_move_result(lm),
    }
}

pub open spec fn mono_result(recv: ReceivedState) -> Result<Map<Color, bool>, Seq<char>> {
    match recv.last_move_mono {
        None => Ok(Map::empty()),
        Some(m) => mono_entries_result(m.entries@),
    }
}

pub open spec fn valid_colors_result(recv: ReceivedState) -> Result<Seq<Color>, Seq<char>> {
    match recv.valid_colors {
        None => Ok(seq![Color::Blue, Color::Yellow, Color::Red, Color::Green]),
        Some(v) => colors_result(v.colors@),
    }
}

/// The received undeployed shapes of a colour.
pub open spec fn received_shapes(recv: ReceivedState, c: Color) -> Option<Vec<ReceivedShape>> {
    match c {
        Color::Blue => match recv.blue_shapes {
            Some(s) => Some(s.shapes),
            None => None,
        },
        Color::Yellow => match recv.yellow_shapes {
            Some(s) => Some(s.shapes),
            None => None,
        },
        Color::Red => match recv.red_shapes {
            Some(s) => Some(s.shapes),
            None => None,
        },
        Color::Green => match recv.green_shapes {
            Some(s) => Some(s.shapes),
            None => None,
        },
    }
}

/// The first error in building a game state from `recv`, checking start
/// piece, board, last move, mono record, the shape lists of blue, yellow, red
/// and green, and the valid colours, in this order.
pub open spec fn state_error(recv: ReceivedState) -> Option<Seq<char>> {
    if err_of(start_piece_result(recv)) is Some {
        err_of(start_piece_result(recv))
    } else if err_of(board_result(recv)) is Some {
        err_of(board_result(recv))
    } else if err_of(state_last_move_result(recv)) is Some {
        err_of(state_last_move_result(recv))
    } else if err_of(mono_result(recv)) is Some {
        err_of(mono_result(recv))
    } else if err_of(shape_list_result(received_shapes(recv, Color::Blue))) is Some {
        err_of(shape_list_result(received_shapes(recv, Color::Blue)))
    } else if err_of(shape_list_result(received_shapes(recv, Color::Yellow))) is Some {
        err_of(shape_list_result(received_shapes(recv, Color::Yellow)))
    } else if err_of(shape_list_result(received_shapes(recv, Color::Red))) is Some {
        err_of(shape_list_result(received_shapes(recv, Color::Red)))
    } else if err_of(shape_list_result(received_shapes(recv, Color::Green))) is Some {
        err_of(shape_list_result(received_shapes(recv, Color::Green)))
    } else {
        err_of(valid_colors_result(recv))
    }
}

/// Whether `s` is the game state that `recv` describes (turn 0 when none is given).
pub open spec fn state_matches(recv: ReceivedState, s: GameState) -> bool {
    &&& s.turn == (match recv.turn {
        Some(t) => t,
        None => 0,
    })
    &&& start_piece_result(recv) == Ok::<PieceShape, Seq<char>>(s.start_piece)
    &&& board_result(recv) == Ok::<Seq<Seq<FieldContent>>, Seq<char>>(s.board@)
    &&& state_last_move_result(recv) == Ok::<Option<Move>, Seq<char>>(s.last_move)
    &&& mono_result(recv) == Ok::<Map<Color, bool>, Seq<char>>(s.last_move_mono@)
    &&& shape_list_result(received_shapes(recv, Color::Blue)) == Ok::<Seq<PieceShape>, Seq<char>>(s.blue_shapes@)
    &&& shape_list_result(received_shapes(recv, Color::Yellow)) == Ok::<Seq<PieceShape>, Seq<char>>(s.yellow_shapes@)
    &&& shape_list_result(received_shapes(recv, Color::Red)) == Ok::<Seq<PieceShape>, Seq<char>>(s.red_shapes@)
    &&& shape_list_result(received_shapes(recv, Color::Green)) == Ok::<Seq<PieceShape>, Seq<char>>(s.green_shapes@)
    &&& valid_colors_result(recv) == Ok::<Seq<Color>, Seq<char>>(s.valid_colors@)
}

/// Once a prefix of the entries fails, all of them fail the same way.
pub proof fn lemma_mono_error(es: Seq<ReceivedLastMoveMonoEntry>, n: int)
    requires
        0 <= n <= es.len(),
        mono_entries_result(es.take(n)) is Err,
    ensures
        mono_entries_result(es) == mono_entries_result(es.take(n)),
    decreases es.len() - n,
{
    if n < es.len() {
        assert(es.take(n + 1).drop_last() =~= es.take(n));
        lemma_mono_error(es, n + 1);
    } else {
        assert(es.take(n) =~= es);
    }
}

/// Once a prefix of the colour texts fails, all of them fail the same way.
pub proof fn lemma_colors_error(cs: Seq<ReceivedColorText>, n: int)
    requires
        0 <= n <= cs.len(),
        colors_result(cs.take(n)) is Err,
    ensures
        colors_result(cs) == colors_result(cs.take(n)),
    decreases cs.len() - n,
{
    if n < cs.len() {
        assert(cs.take(n + 1).drop_last() =~= cs.take(n));
        lemma_colors_error(cs, n + 1);
    } else {
        assert(cs.take(n) =~= cs);
    }
}

/// The mono record of the received `<lastMoveMono>`.
pub fn parse_last_move_mono(m: &ReceivedLastMoveMono) -> (r: Result<LastMoveMonoMap, String>)
    ensures
        match mono_entries_result(m.entries@) {
            Ok(v) => r matches Ok(map) && map@ == v,
            Err(e) => r matches Err(msg) && msg@ == e,
        },
{
    let mut map = LastMoveMonoMap::new();
    let mut i: usize = 0;
    while i < m.entries.len()
        invariant
            i <= m.entries@.len(),
            mono_entries_result(m.entries@.take(i as int)) == Ok::<Map<Color, bool>, Seq<char>>(map@),
        decreases m.entries@.len() - i,
    {
        let entry = &m.entries[i];
        proof {
            assert(m.entries@.take(i + 1).drop_last() =~= m.entries@.take(i as int));
            assert(m.entries@.take(i + 1).last() == *entry);
        }
        match Color::from_str(entry.color.value.as_str()) {
            Err(err) => {
                proof {
                    lemma_mono_error(m.entries@, i as int + 1);
                }
                return Err(err);
            },
            Ok(color) => {
                let value = is_true_text(entry.boolean.value.as_str());
                map.insert(color, value);
            },
        }
        i = i + 1;
    }
    assert(m.entries@.take(m.entries@.len() as int) =~= m.entries@);
    Ok(map)
}

/// The colours of the received `<validColors>`.
pub fn parse_valid_colors(v: &ReceivedValidColors) -> (r: Result<Vec<Color>, String>)
    ensures
        match colors_result(v.colors@) {
            Ok(cs) => r matches Ok(out) && out@ == cs,
            Err(e) => r matches Err(msg) && msg@ == e,
        },
{
    let mut out: Vec<Color> = Vec::new();
    let mut i: usize = 0;
    while i < v.colors.len()
        invariant
            i <= v.colors@.len(),
            colors_result(v.colors@.take(i as int)) == Ok::<Seq<Color>, Seq<char>>(out@),
        decreases v.colors@.len() - i,
    {
        proof {
            assert(v.colors@.take(i + 1).drop_last() =~= v.colors@.take(i as int));
            assert(v.colors@.take(i + 1).last() == v.colors@[i as int]);
        }
        match Color::from_str(v.colors[i].value.as_str()) {
            Err(err) => {
                proof {
                    lemma_colors_error(v.colors@, i as int + 1);
                }
                return Err(err);
            },
            Ok(c) => {
                out.push(c);
            },
        }
        i = i + 1;
    }
    assert(v.colors@.take(v.colors@.len() as int) =~= v.colors@);
    Ok(out)
}

impl GameState {
    /// Builds the game state that a received `<state>` describes; missing
    /// parts take their defaults (turn 0, start piece PENTO_L, empty board,
    /// no last move, empty mono record, all 21 shapes, all four colours).
    pub fn try_from(recv: ReceivedState) -> (r: Result<GameState, String>)
        ensures
            match state_error(recv) {
                Some(e) => r matches Err(m) && m@ == e,
                None => r matches Ok(s) && state_matches(recv, s),
            },
    {
        let turn = match recv.turn {
            Some(t) => t,
            None => 0,
        };
        let start_piece = match &recv.start_piece {
            Some(t) => match PieceShape::from_str(t.as_str()) {
                Ok(s) => s,
                Err(err) => {
                    return Err(err);
                },
            },
            None => PieceShape::PentoL,
        };
        let board = match recv.board {
            Some(b) => match Board::try_from(b) {
                Ok(b) => b,
                Err(err) => {
                    return Err(err);
                },
            },
            None => {
                let b = Board::new_empty();
                proof {
                    lemma_empty_board_view(b);
                }
                b
            },
        };
        let last_move = match &recv.last_move {
            Some(lm) => match parse_last_move(lm) {
                Ok(m) => m,
                Err(err) => {
                    return Err(err);
                },
            },
            None => None,
        };
        let last_move_mono = match &recv.last_move_mono {
            Some(m) => match parse_last_move_mono(m) {
                Ok(map) => map,
                Err(err) => {
                    return Err(err);
                },
            },
            None => LastMoveMonoMap::new(),
        };
        let blue_shapes = match parse_shapes(
            match recv.blue_shapes {
                Some(s) => Some(s.shapes),
                None => None,
            },
        ) {
            Ok(v) => v,
            Err(err) => {
                return Err(err);
            },
        };
        let yellow_shapes = match parse_shapes(
            match recv.yellow_shapes {
                Some(s) => Some(s.shapes),
                None => None,
            },
        ) {
            Ok(v) => v,
            Err(err) => {
                return Err(err);
            },
        };
        let red_shapes = match parse_shapes(
            match recv.red_shapes {
                Some(s) => Some(s.shapes),
                None => None,
            },
        ) {
            Ok(v) => v,
            Err(err) => {
                return Err(err);
            },
        };
        let green_shapes = match parse_shapes(
            match recv.green_shapes {
                Some(s) => Some(s.shapes),
                None => None,
            },
        ) {
            Ok(v) => v,
            Err(err) => {
                return Err(err);
            },
        };
        let valid_colors = match &recv.valid_colors {
            Some(v) => match parse_valid_colors(v) {
                Ok(cs) => cs,
                Err(err) => {
                    return Err(err);
                },
            },
            None => {
                let mut cs: Vec<Color> = Vec::new();
                cs.push(Color::Blue);
                cs.push(Color::Yellow);
                cs.push(Color::Red);
                cs.push(Color::Green);
                assert(cs@ =~= seq![Color::Blue, Color::Yellow, Color::Red, Color::Green]);
                cs
            },
        };
        Ok(
            GameState {
                turn,
                start_piece,
                last_move,
                board,
                last_move_mono,
                blue_shapes,
                yellow_shapes,
                red_shapes,
                green_shapes,
                valid_colors,
            },
        )
    }
}

// ___ Score / GameResult ___

#[derive(Debug, Clone, PartialEq, Eq)]
pub struct ScoreDefinition {
    pub fragments: Vec<ScoreFragment>,
}

#[derive(Debug, Clone, PartialEq, Eq)]
pub struct GameResult {
    pub definition: ScoreDefinition,
    /// One (Team, PlayerScore) per player, in the order the server sent them.
    pub scores: Vec<(Team, PlayerScore)>,
    pub winner: Option<Winner>,
}

/// The fragments (name, aggregation, relevance) that the received definition
/// lists, or the error of the first naming no aggregation.
pub open spec fn fragments_result(fs: Seq<ReceivedFragment>) -> Result<Seq<(Seq<char>, ScoreAggregation, bool)>, Seq<char>>
    decreases fs.len(),
{
    if fs.len() == 0 {
        Ok(Seq::empty())
    } else {
        match fragments_result(fs.drop_last()) {
            Err(e) => Err(e),
            Ok(v) => {
                let f = fs.last();
                match token_result(aggregation_from_token(trim_spec(f.aggregation.value@)), "score aggregation"@, f.aggregation.value@) {
                    Err(e) => Err(e),
                    Ok(a) => Ok(v.push((f.name@, a, true_text(f.relevant_for_ranking.value@)))),
                }
            },
        }
    }
}

/// The trimmed value texts of received score parts, or the error of the
/// first that is no floating-point literal.
pub open spec fn parts_result(ps: Seq<ReceivedPart>) -> Result<Seq<Seq<char>>, Seq<char>>
    decreases ps.len(),
{
    if ps.len() == 0 {
        Ok(Seq::empty())
    } else {
        match parts_result(ps.drop_last()) {
            Err(e) => Err(e),
            Ok(v) => {
                let t = trim_spec(ps.last().value@);
                if float_text(t) {
                    Ok(v.push(t))
                } else {
                    Err(float_error(t))
                }
            },
        }
    }
}

/// The (team, value texts) of the received score entries that hold a score,
/// or the error of the first entry naming no team or holding a value that is
/// no number.
pub open spec fn scores_result(es: Seq<ReceivedScoreEntry>) -> Result<Seq<(Team, Seq<Seq<char>>)>, Seq<char>>
    decreases es.len(),
{
    if es.len() == 0 {
        Ok(Seq::empty())
    } else {
        match scores_result(es.drop_last()) {
            Err(e) => Err(e),
            Ok(v) => {
                let entry = es.last();
                match token_result(team_from_token(trim_spec(entry.player.team@)), "team"@, entry.player.team@) {
                    Err(e) => Err(e),
                    Ok(team) => match entry.score {
                        Some(score) => match parts_result(score.parts@) {
                            Err(e) => Err(e),
                            Ok(ps) => Ok(v.push((team, ps))),
                        },
                        None => Ok(v),
                    },
                }
            },
        }
    }
}

pub open spec fn definition_result(data: ReceivedData) -> Result<Seq<(Seq<char>, ScoreAggregation, bool)>, Seq<char>> {
    match data.definition {
        None => Ok(Seq::empty()),
        Some(d) => fragments_result(d.fragments@),
    }
}

pub open spec fn data_scores_result(data: ReceivedData) -> Result<Seq<(Team, Seq<Seq<char>>)>, Seq<char>> {
    match data.scores {
        None => Ok(Seq::empty()),
        Some(s) => scores_result(s.entries@),
    }
}

/// The first error in building a game result: in the definition, else in the scores.
pub open spec fn result_error(data: ReceivedData) -> Option<Seq<char>> {
    if err_of(definition_result(data)) is Some {
        err_of(definition_result(data))
    } else {
        err_of(data_scores_result(data))
    }
}

/// The view of a score fragment.
pub open spec fn fragment_view(f: ScoreFragment) -> (Seq<char>, ScoreAggregation, bool) {
    (f.name@, f.aggregation, f.relevant_for_ranking)
}

/// The view of a player's score: its team and its value texts.
pub open spec fn score_view(s: (Team, PlayerScore)) -> (Team, Seq<Seq<char>>) {
    (s.0, s.1.parts@.map_values(|p: String| p@))
}

/// Whether `w` is the winner record that a received `<winner>` describes: a
/// team only when its text names one, regular unless the text says otherwise.
pub open spec fn winner_matches(rw: ReceivedWinner, w: Winner) -> bool {
    &&& w.team == (match rw.team {
        Some(t) => team_from_token(trim_spec(t@)),
        None => None,
    })
    &&& w.regular == (match rw.regular {
        Some(t) => true_text(t@),
        None => true,
    })
    &&& match rw.reason {
        Some(t) => w.reason matches Some(r) && r@ == t@,
        None => w.reason is None,
    }
}

/// Whether `r` is the game result that `data` describes.
pub open spec fn result_matches(data: ReceivedData, r: GameResult) -> bool {
    &&& definition_result(data) matches Ok(fs) && r.definition.fragments@.map_values(|f: ScoreFragment| fragment_view(f)) == fs
    &&& data_scores_result(data) matches Ok(ss) && r.scores@.map_values(|s: (Team, PlayerScore)| score_view(s)) == ss
    &&& match data.winner {
        Some(rw) => r.winner matches Some(w) && winner_matches(rw, w),
        None => r.winner is None,
    }
}

/// Once a prefix of the fragments fails, all of them fail the same way.
pub proof fn lemma_fragments_error(fs: Seq<ReceivedFragment>, n: int)
    requires
        0 <= n <= fs.len(),
        fragments_result(fs.take(n)) is Err,
    ensures
        fragments_result(fs) == fragments_result(fs.take(n)),
    decreases fs.len() - n,
{
    if n < fs.len() {
        assert(fs.take(n + 1).drop_last() =~= fs.take(n));
        lemma_fragments_error(fs, n + 1);
    } else {
        assert(fs.take(n) =~= fs);
    }
}

/// Once a prefix of the score entries fails, all of them fail the same way.
pub proof fn lemma_scores_error(es: Seq<ReceivedScoreEntry>, n: int)
    requires
        0 <= n <= es.len(),
        scores_result(es.take(n)) is Err,
    ensures
        scores_result(es) == scores_result(es.take(n)),
    decreases es.len() - n,
{
    if n < es.len() {
        assert(es.take(n + 1).drop_last() =~= es.take(n));
        lemma_scores_error(es, n + 1);
    } else {
        assert(es.take(n) =~= es);
    }
}

/// Once a prefix of the score parts fails, all of them fail the same way.
pub proof fn lemma_parts_error(ps: Seq<ReceivedPart>, n: int)
    requires
        0 <= n <= ps.len(),
        parts_result(ps.take(n)) is Err,
    ensures
        parts_result(ps) == parts_result(ps.take(n)),
    decreases ps.len() - n,
{
    if n < ps.len() {
        assert(ps.take(n + 1).drop_last() =~= ps.take(n));
        lemma_parts_error(ps, n + 1);
    } else {
        assert(ps.take(n) =~= ps);
    }
}

/// The fragments of a received `<definition>`.
pub fn parse_fragments(d: &ReceivedDefinition) -> (r: Result<Vec<ScoreFragment>, String>)
    ensures
        match fragments_result(d.fragments@) {
            Ok(fs) => r matches Ok(out) && out@.map_values(|f: ScoreFragment| fragment_view(f)) == fs,
            Err(e) => r matches Err(msg) && msg@ == e,
        },
{
    let mut out: Vec<ScoreFragment> = Vec::new();
    let mut i: usize = 0;
    assert(out@.map_values(|f: ScoreFragment| fragment_view(f)) =~= Seq::empty());
    assert(d.fragments@.take(0) =~= Seq::empty());
    while i < d.fragments.len()
        invariant
            i <= d.fragments@.len(),
            fragments_result(d.fragments@.take(i as int)) == Ok::<Seq<(Seq<char>, ScoreAggregation, bool)>, Seq<char>>(out@.map_values(|f: ScoreFragment| fragment_view(f))),
        decreases d.fragments@.len() - i,
    {
        let f = &d.fragments[i];
        proof {
            assert(d.fragments@.take(i + 1).drop_last() =~= d.fragments@.take(i as int));
            assert(d.fragments@.take(i + 1).last() == *f);
        }
        match ScoreAggregation::from_str(f.aggregation.value.as_str()) {
            Err(err) => {
                proof {
                    lemma_fragments_error(d.fragments@, i as int + 1);
                }
                return Err(err);
            },
            Ok(aggregation) => {
                let relevant = is_true_text(f.relevant_for_ranking.value.as_str());
                let ghost before = out@;
                out.push(ScoreFragment { name: f.name.clone(), aggregation, relevant_for_ranking: relevant });
                assert(out@.map_values(|f: ScoreFragment| fragment_view(f)) =~= before.map_values(|f: ScoreFragment| fragment_view(f)).push(fragment_view(out@[out@.len() - 1])));
            },
        }
        i = i + 1;
    }
    assert(d.fragments@.take(d.fragments@.len() as int) =~= d.fragments@);
    Ok(out)
}

/// The value texts of a received score, each trimmed and checked to be a
/// floating-point literal.
fn score_parts(score: &ReceivedScore) -> (r: Result<PlayerScore, String>)
    ensures
        match parts_result(score.parts@) {
            Ok(ps) => r matches Ok(out) && out.parts@.map_values(|p: String| p@) == ps,
            Err(e) => r matches Err(msg) && msg@ == e,
        },
{
    let mut parts: Vec<String> = Vec::new();
    let mut i: usize = 0;
    assert(score.parts@.take(0) =~= Seq::empty());
    assert(parts@.map_values(|p: String| p@) =~= Seq::empty());
    while i < score.parts.len()
        invariant
            i <= score.parts@.len(),
            parts_result(score.parts@.take(i as int)) == Ok::<Seq<Seq<char>>, Seq<char>>(parts@.map_values(|p: String| p@)),
        decreases score.parts@.len() - i,
    {
        proof {
            assert(score.parts@.take(i + 1).drop_last() =~= score.parts@.take(i as int));
            assert(score.parts@.take(i + 1).last() == score.parts@[i as int]);
        }
        let t = trim(score.parts[i].value.as_str());
        if !is_float_literal(t) {
            proof {
                lemma_parts_error(score.parts@, i as int + 1);
            }
            if t.unicode_len() == 0 {
                proof {
                    reveal_strlit("cannot parse float from empty string");
                }
                return Err("cannot parse float from empty string".to_string());
            }
            return Err("invalid float literal".to_string());
        }
        let ghost before = parts@;
        parts.push(t.to_string());
        assert(parts@.map_values(|p: String| p@) =~= before.map_values(|p: String| p@).push(t@));
        i = i + 1;
    }
    assert(score.parts@.take(score.parts@.len() as int) =~= score.parts@);
    Ok(PlayerScore { parts })
}

/// The received score entries that hold a score, in order.
pub open spec fn scored_entries(es: Seq<ReceivedScoreEntry>) -> Seq<ReceivedScoreEntry> {
    es.filter(|e: ReceivedScoreEntry| e.score is Some)
}

/// Each parsed score belongs to the entry it came from: the scores are read
/// one for each received entry that holds a score, in order, and the k-th
/// carries the team that its own entry names and that entry's value texts.
pub proof fn law_scores_follow_entries(es: Seq<ReceivedScoreEntry>)
    ensures
        scores_result(es) is Ok ==> ({
            let v = scores_result(es)->Ok_0;
            let sc = scored_entries(es);
            &&& v.len() == sc.len()
            &&& forall|k: int|
                0 <= k < v.len() ==> team_from_token(trim_spec((#[trigger] sc[k]).player.team@)) == Some(
                    v[k].0,
                ) && parts_result(sc[k].score->Some_0.parts@) == Ok::<Seq<Seq<char>>, Seq<char>>(v[k].1)
        }),
    decreases es.len(),
{
    reveal_with_fuel(Seq::<ReceivedScoreEntry>::filter, 1);
    if es.len() > 0 && scores_result(es) is Ok {
        let p = es.drop_last();
        law_scores_follow_entries(p);
        let v = scores_result(es)->Ok_0;
        let vp = scores_result(p)->Ok_0;
        let sc = scored_entries(es);
        let scp = scored_entries(p);
        let e = es.last();
        if e.score is Some {
            assert(sc == scp.push(e));
            assert forall|k: int| 0 <= k < v.len() implies team_from_token(trim_spec((#[trigger] sc[k]).player.team@)) == Some(
                v[k].0,
            ) && parts_result(sc[k].score->Some_0.parts@) == Ok::<Seq<Seq<char>>, Seq<char>>(v[k].1) by {
                if k < vp.len() {
                    assert(sc[k] == scp[k]);
                    assert(v[k] == vp[k]);
                }
            }
        } else {
            assert(sc == scp);
        }
    }
}

/// The scores of a received `<scores>`.
pub fn parse_scores(s: &ReceivedScores) -> (r: Result<Vec<(Team, PlayerScore)>, String>)
    ensures
        match scores_result(s.entries@) {
            Ok(ss) => r matches Ok(out) && out@.map_values(|x: (Team, PlayerScore)| score_view(x)) == ss,
            Err(e) => r matches Err(msg) && msg@ == e,
        },
{
    let mut out: Vec<(Team, PlayerScore)> = Vec::new();
    let mut i: usize = 0;
    assert(out@.map_values(|x: (Team, PlayerScore)| score_view(x)) =~= Seq::empty());
    assert(s.entries@.take(0) =~= Seq::empty());
    while i < s.entries.len()
        invariant
            i <= s.entries@.len(),
            scores_result(s.entries@.take(i as int)) == Ok::<Seq<(Team, Seq<Seq<char>>)>, Seq<char>>(out@.map_values(|x: (Team, PlayerScore)| score_view(x))),
        decreases s.entries@.len() - i,
    {
        let entry = &s.entries[i];
        proof {
            assert(s.entries@.take(i + 1).drop_last() =~= s.entries@.take(i as int));
            assert(s.entries@.take(i + 1).last() == *entry);
        }
        match Team::from_str(entry.player.team.as_str()) {
            Err(err) => {
                proof {
                    lemma_scores_error(s.entries@, i as int + 1);
                }
                return Err(err);
            },
            Ok(team) => {
                if let Some(score) = &entry.score {
                    let ps = match score_parts(score) {
                        Ok(ps) => ps,
                        Err(err) => {
                            proof {
                                lemma_scores_error(s.entries@, i as int + 1);
                            }
                            return Err(err);
                        },
                    };
                    let ghost before = out@;
                    out.push((team, ps));
                    assert(out@.map_values(|x: (Team, PlayerScore)| score_view(x)) =~= before.map_values(|x: (Team, PlayerScore)| score_view(x)).push(score_view(out@[out@.len() - 1])));
                }
            },
        }
        i = i + 1;
    }
    assert(s.entries@.take(s.entries@.len() as int) =~= s.entries@);
    Ok(out)
}

/// The winner record of a received `<winner>`.
pub fn winner_from_received(w: &ReceivedWinner) -> (r: Winner)
    ensures
        winner_matches(*w, r),
{
    let team = match &w.team {
        Some(t) => match Team::from_str(t.as_str()) {
            Ok(team) => Some(team),
            Err(_) => None,
        },
        None => None,
    };
    let regular = match &w.regular {
        Some(t) => is_true_text(t.as_str()),
        None => true,
    };
    let reason = match &w.reason {
        Some(t) => Some(t.clone()),
        None => None,
    };
    Winner { team, regular, reason }
}

impl GameResult {
    /// Builds the game result of a received `<data class="result">`; fails on
    /// the first fragment naming no aggregation or entry naming no team.
    pub fn try_from(data: ReceivedData) -> (r: Result<GameResult, String>)
        ensures
            match result_error(data) {
                Some(e) => r matches Err(m) && m@ == e,
                None => r matches Ok(res) && result_matches(data, res),
            },
    {
        let fragments = match &data.definition {
            Some(d) => match parse_fragments(d) {
                Ok(fs) => fs,
                Err(err) => {
                    return Err(err);
                },
            },
            None => Vec::new(),
        };
        let scores = match &data.scores {
            Some(s) => match parse_scores(s) {
                Ok(ss) => ss,
                Err(err) => {
                    return Err(err);
                },
            },
            None => Vec::new(),
        };
        let winner = match &data.winner {
            Some(w) => Some(winner_from_received(w)),
            None => None,
        };
        proof {
            assert(fragments@.map_values(|f: ScoreFragment| fragment_view(f)) =~= definition_result(data)->Ok_0);
            assert(scores@.map_values(|s: (Team, PlayerScore)| score_view(s)) =~= data_scores_result(data)->Ok_0);
        }
        Ok(GameResult { definition: ScoreDefinition { fragments }, scores, winner })
    }
}


/// A message of the game room.
#[derive(Debug, Clone, PartialEq, Eq)]
pub enum RoomMessage {
    Memento(Box<GameState>),
    Result(Box<GameResult>),
    WelcomeMessage { color: Team },
    MoveRequest,
}

/// A room prepared by an administrator, with its two reservation codes.
#[derive(Debug, PartialEq, Eq)]
pub struct PreparedRoom {
    pub reservations: (String, String),
    pub room_id: String,
}

impl Clone for PreparedRoom {
    fn clone(&self) -> (r: PreparedRoom)
        ensures
            r == *self,
    {
        PreparedRoom {
            reservations: (self.reservations.0.clone(), self.reservations.1.clone()),
            room_id: self.room_id.clone(),
        }
    }
}

/// A message for an administrating client.
#[derive(Debug, Clone, PartialEq, Eq)]
pub enum AdminMessage {
    /// (reservation, reservation)
    Prepared(PreparedRoom),
}

/// A message from the server, as the client handles it.
#[derive(Debug, Clone, PartialEq, Eq)]
pub enum ComMessage {
    Joined(Joined),
    Left(Left),
    Room(Box<RoomMessage>),
    Admin(AdminMessage),
}

/// The error text for a room message of unknown class `c`.
pub open spec fn unknown_class_text(c: Seq<char>) -> Seq<char> {
    "unknown room message class '"@ + c + "'"@
}

/// Why a received `<room>` is no room message, if it is none: a missing
/// `<data>` or class, a memento without a valid state, a result that cannot
/// be built, a welcome message without a valid colour, or an unknown class.
pub open spec fn room_error(recv: ReceivedRoom) -> Option<Seq<char>> {
    match recv.data {
        None => Some("missing room message <data>"@),
        Some(data) => match data.class {
            None => Some("missing room message class"@),
            Some(c) => if c@ == "memento"@ {
                match data.state {
                    None => Some("memento should contain <state>"@),
                    Some(st) => state_error(st),
                }
            } else if c@ == "result"@ {
                result_error(data)
            } else if c@ == "welcomeMessage"@ {
                match data.color_attr {
                    None => Some("welcomeMessage should have a color attribute"@),
                    Some(t) => err_of(token_result(team_from_token(trim_spec(t@)), "team"@, t@)),
                }
            } else if c@ == "moveRequest"@ {
                None
            } else {
                Some(unknown_class_text(c@))
            },
        },
    }
}

/// Whether `m` is the room message that a received `<room>` without error describes.
pub open spec fn room_matches(recv: ReceivedRoom, m: RoomMessage) -> bool {
    let data = recv.data->Some_0;
    let c = data.class->Some_0;
    if c@ == "memento"@ {
        m matches RoomMessage::Memento(s) && state_matches(data.state->Some_0, *s)
    } else if c@ == "result"@ {
        m matches RoomMessage::Result(r) && result_matches(data, *r)
    } else if c@ == "welcomeMessage"@ {
        m matches RoomMessage::WelcomeMessage { color } && team_from_token(
            trim_spec(data.color_attr->Some_0@),
        ) == Some(color)
    } else {
        m is MoveRequest
    }
}

impl RoomMessage {
    /// Builds the room message of a received `<room>` by the class of its `<data>`.
    pub fn try_from(recv_room: ReceivedRoom) -> (r: Result<RoomMessage, String>)
        ensures
            match room_error(recv_room) {
                Some(e) => r matches Err(m) && m@ == e,
                None => r matches Ok(m) && room_matches(recv_room, m),
            },
    {
        let data = match recv_room.data {
            Some(d) => d,
            None => {
                return Err("missing room message <data>".to_string());
            },
        };
        let class = match &data.class {
            Some(c) => c.as_str(),
            None => {
                return Err("missing room message class".to_string());
            },
        };
        if str_equal(class, "memento") {
            match data.state {
                Some(st) => match GameState::try_from(st) {
                    Ok(state) => Ok(RoomMessage::Memento(Box::new(state))),
                    Err(e) => Err(e),
                },
                None => Err("memento should contain <state>".to_string()),
            }
        } else if str_equal(class, "result") {
            match GameResult::try_from(data) {
                Ok(result) => Ok(RoomMessage::Result(Box::new(result))),
                Err(e) => Err(e),
            }
        } else if str_equal(class, "welcomeMessage") {
            match &data.color_attr {
                Some(t) => match Team::from_str(t.as_str()) {
                    Ok(color) => Ok(RoomMessage::WelcomeMessage { color }),
                    Err(e) => Err(e),
                },
                None => Err("welcomeMessage should have a color attribute".to_string()),
            }
        } else if str_equal(class, "moveRequest") {
            Ok(RoomMessage::MoveRequest)
        } else {
            let mut m = String::from_str("unknown room message class '");
            m.append(class);
            m.append("'");
            proof {
                assert(m@ =~= unknown_class_text(class@));
            }
            Err(m)
        }
    }
}

} // verus!
