//! The rules of Blokus: which moves are valid (with the specific mistake of an
//! invalid one), and the enumeration of all valid moves of the current colour.
use vstd::prelude::*;

use crate::internal::{
    in_board, advance_spec, law_advance, with_turn, colored_spec, corner_ok, current_color_spec, first_move_spec, lemma_colored_spec, on_board,
    undeployed_spec, valid_corners, valid_fields_of, valid_fields_spec, Board, GameState,
    BOARD_LENGTH,
};
use crate::neutral::{
    color_index, color_of, content_of, diagonal_neighbors_spec, piece_cells, piece_fits,
    piece_shape_cells, BlokusMoveMistake, Color, Coordinates, FieldContent, Move, Piece, Rotation,
};
use crate::piece_shape::{
    bbox, is_variant_rep, lemma_max_bounds, lemma_transform_aligned, lemma_transform_cells,
    lemma_variants_upto, max_x0, max_y0, transform_spec, variants_spec,
    PieceShape, ShapeVariant,
};

verus! {

/// The mistake of placing a cell of `color` at `c`, if any.
pub open spec fn cell_mistake(b: Board, color: Color, c: Coordinates) -> Option<BlokusMoveMistake> {
    if !on_board(c) {
        Some(BlokusMoveMistake::OutOfBounds)
    } else if b.at(c) != FieldContent::Empty {
        Some(BlokusMoveMistake::Obstructed)
    } else if b.borders_spec(c, color) {
        Some(BlokusMoveMistake::TouchesSameColor)
    } else {
        None
    }
}

/// The mistake of the first cell of `cs` (in order) that has one.
pub open spec fn first_cell_mistake(b: Board, color: Color, cs: Seq<Coordinates>) -> Option<
    BlokusMoveMistake,
>
    decreases cs.len(),
{
    if cs.len() == 0 {
        None
    } else {
        match first_cell_mistake(b, color, cs.drop_last()) {
            Some(m) => Some(m),
            None => cell_mistake(b, color, cs.last()),
        }
    }
}

/// Whether `c` lies on the outer ring of the board.
pub open spec fn border_cell(c: Coordinates) -> bool {
    c.x == 0 || c.y == 0 || c.x == BOARD_LENGTH - 1 || c.y == BOARD_LENGTH - 1
}

/// Whether some cell of `cs` lies on the outer ring of the board.
pub open spec fn touches_border(cs: Seq<Coordinates>) -> bool {
    exists|i: int| 0 <= i < cs.len() && border_cell(#[trigger] cs[i])
}

/// Whether some cell of `cs` touches a cell of `color` by a corner.
pub open spec fn shares_corner(b: Board, color: Color, cs: Seq<Coordinates>) -> bool {
    exists|i: int| 0 <= i < cs.len() && b.corners_spec(#[trigger] cs[i], color)
}

/// Why placing `p` in state `s` is invalid, checked in this order: the colour
/// is not on turn; the first piece of a colour is not the start piece; a later
/// piece was already placed; a cell is off the board, occupied, or next to the
/// own colour (the first such cell decides); the first piece touches no border;
/// a later piece touches the own colour by no corner. `None` if valid.
pub open spec fn set_move_mistake(s: GameState, p: Piece) -> Option<BlokusMoveMistake> {
    let color = p.color;
    let first = first_move_spec(s, color);
    let cells = piece_cells(p);
    if color != current_color_spec(s) {
        Some(BlokusMoveMistake::WrongColor)
    } else if first && p.kind != s.start_piece {
        Some(BlokusMoveMistake::WrongShape)
    } else if !first && !undeployed_spec(s, color).contains(p.kind) {
        Some(BlokusMoveMistake::DuplicateShape)
    } else if first_cell_mistake(s.board, color, cells) is Some {
        first_cell_mistake(s.board, color, cells)
    } else if first && !touches_border(cells) {
        Some(BlokusMoveMistake::NotOnBorder)
    } else if !first && !shares_corner(s.board, color, cells) {
        Some(BlokusMoveMistake::NoSharedCorner)
    } else {
        None
    }
}

/// Why skipping the turn of `color` in state `s` is invalid, if it is.
pub open spec fn skip_move_mistake(s: GameState, color: Color) -> Option<BlokusMoveMistake> {
    if color != current_color_spec(s) {
        Some(BlokusMoveMistake::WrongColor)
    } else if first_move_spec(s, color) {
        Some(BlokusMoveMistake::SkipFirstTurn)
    } else {
        None
    }
}

/// Why the move is invalid in state `s`, if it is.
pub open spec fn move_mistake(s: GameState, m: Move) -> Option<BlokusMoveMistake> {
    match m {
        Move::SetMove { piece } => set_move_mistake(s, piece),
        Move::Skip { color } => skip_move_mistake(s, color),
    }
}

/// Whether the cells of a placed piece have `i32` coordinates.
pub open spec fn move_fits(m: Move) -> bool {
    match m {
        Move::SetMove { piece } => piece_fits(piece),
        Move::Skip { .. } => true,
    }
}

/// `Ok(())` for no mistake, else `Err` of the mistake.
pub open spec fn mistake_result(o: Option<BlokusMoveMistake>) -> Result<(), BlokusMoveMistake> {
    match o {
        Some(m) => Err(m),
        None => Ok(()),
    }
}

/// Whether `pos` lies on the outer ring of the board.
pub fn is_on_border(pos: Coordinates) -> (r: bool)
    ensures
        r == border_cell(pos),
{
    let l = BOARD_LENGTH as i32;
    pos.x == 0 || pos.y == 0 || pos.x == l - 1 || pos.y == l - 1
}

/// Checks a Set move: `Ok(())` if it is valid, else the first mistake found.
pub fn validate_set_move(state: &GameState, mv: &Piece) -> (r: Result<(), BlokusMoveMistake>)
    requires
        piece_fits(*mv),
    ensures
        r == mistake_result(set_move_mistake(*state, *mv)),
{
    let color = mv.color;
    if color != state.current_color() {
        return Err(BlokusMoveMistake::WrongColor);
    }
    let first = state.is_first_move_for(color);
    if first {
        if mv.kind != state.start_piece {
            return Err(BlokusMoveMistake::WrongShape);
        }
    } else {
        let list = state.undeployed(color);
        let mut found = false;
        let mut i: usize = 0;
        while i < list.len()
            invariant
                i <= list@.len(),
                found == exists|k: int| 0 <= k < i && list@[k] == mv.kind,
            decreases list@.len() - i,
        {
            if list[i] == mv.kind {
                found = true;
            }
            i = i + 1;
        }
        if !found {
            return Err(BlokusMoveMistake::DuplicateShape);
        }
    }
    let coords = mv.coordinates();
    let ghost b = state.board;
    let mut i: usize = 0;
    while i < coords.len()
        invariant
            i <= coords@.len(),
            coords@ == piece_cells(*mv),
            b == state.board,
            color == mv.color,
            color == current_color_spec(*state),
            first == first_move_spec(*state, color),
            first ==> mv.kind == state.start_piece,
            !first ==> undeployed_spec(*state, color).contains(mv.kind),
            first_cell_mistake(b, color, coords@.take(i as int)) is None,
            forall|k: int| 0 <= k < i ==> on_board(#[trigger] coords@[k]),
        decreases coords@.len() - i,
    {
        let c = coords[i];
        proof {
            assert(coords@.take(i + 1).drop_last() =~= coords@.take(i as int));
            assert(coords@.take(i + 1).last() == c);
        }
        if !Board::contains(c.x, c.y) {
            assert(cell_mistake(b, color, c) == Some(BlokusMoveMistake::OutOfBounds));
            proof {
                lemma_first_cell_mistake_prefix(b, color, coords@, i as int + 1);
            }
            return Err(BlokusMoveMistake::OutOfBounds);
        }
        if state.board.is_obstructed(c) {
            assert(cell_mistake(b, color, c) == Some(BlokusMoveMistake::Obstructed));
            proof {
                lemma_first_cell_mistake_prefix(b, color, coords@, i as int + 1);
            }
            return Err(BlokusMoveMistake::Obstructed);
        }
        if state.board.borders_on_color(c, color) {
            proof {
                lemma_first_cell_mistake_prefix(b, color, coords@, i as int + 1);
            }
            return Err(BlokusMoveMistake::TouchesSameColor);
        }
        i = i + 1;
    }
    assert(coords@.take(coords@.len() as int) =~= coords@);
    if first {
        let mut any = false;
        let mut k: usize = 0;
        while k < coords.len()
            invariant
                k <= coords@.len(),
                any == exists|j: int| 0 <= j < k && border_cell(#[trigger] coords@[j]),
            decreases coords@.len() - k,
        {
            if is_on_border(coords[k]) {
                any = true;
            }
            k = k + 1;
        }
        if !any {
            return Err(BlokusMoveMistake::NotOnBorder);
        }
    } else {
        let mut any = false;
        let mut k: usize = 0;
        while k < coords.len()
            invariant
                k <= coords@.len(),
                forall|j: int| 0 <= j < coords@.len() ==> on_board(#[trigger] coords@[j]),
                any == exists|j: int| 0 <= j < k && state.board.corners_spec(#[trigger] coords@[j], color),
            decreases coords@.len() - k,
        {
            assert(on_board(coords@[k as int]));
            if state.board.corners_on_color(coords[k], color) {
                any = true;
            }
            k = k + 1;
        }
        if !any {
            return Err(BlokusMoveMistake::NoSharedCorner);
        }
    }
    Ok(())
}

/// Once a prefix of the cells has a mistake, the whole list has the same one.
pub proof fn lemma_first_cell_mistake_prefix(b: Board, color: Color, cs: Seq<Coordinates>, n: int)
    requires
        0 <= n <= cs.len(),
        first_cell_mistake(b, color, cs.take(n)) is Some,
    ensures
        first_cell_mistake(b, color, cs) == first_cell_mistake(b, color, cs.take(n)),
    decreases cs.len() - n,
{
    if n < cs.len() {
        assert(cs.take(n + 1).drop_last() =~= cs.take(n));
        lemma_first_cell_mistake_prefix(b, color, cs, n + 1);
    } else {
        assert(cs.take(n) =~= cs);
    }
}

/// Checks a Skip move: `Ok(())` if it is valid, else the mistake.
pub fn validate_skip_move(state: &GameState, color: Color) -> (r: Result<(), BlokusMoveMistake>)
    ensures
        r == mistake_result(skip_move_mistake(*state, color)),
{
    if color != state.current_color() {
        return Err(BlokusMoveMistake::WrongColor);
    }
    if state.is_first_move_for(color) {
        return Err(BlokusMoveMistake::SkipFirstTurn);
    }
    Ok(())
}

/// Checks a move: `Ok(())` if it is valid, else the first mistake found.
pub fn validate_move(state: &GameState, mv: &Move) -> (r: Result<(), BlokusMoveMistake>)
    requires
        move_fits(*mv),
    ensures
        r == mistake_result(move_mistake(*state, *mv)),
{
    match mv {
        Move::SetMove { piece } => validate_set_move(state, piece),
        Move::Skip { color } => validate_skip_move(state, *color),
    }
}

// ___ Move generation ___

/// A valid Set move of the colour on turn whose (rotation, flip) is the one
/// that `variants` keeps for its cell list.
pub open spec fn valid_placement(s: GameState, m: Move) -> bool {
    match m {
        Move::SetMove { piece } => {
            &&& piece_fits(piece)
            &&& is_variant_rep(piece.kind, piece.rotation, piece.is_flipped)
            &&& set_move_mistake(s, piece) is None
        },
        Move::Skip { .. } => false,
    }
}

/// A list of valid placements without repetitions.
pub open spec fn good_moves(s: GameState, out: Seq<Move>) -> bool {
    &&& forall|i: int| 0 <= i < out.len() ==> valid_placement(s, #[trigger] out[i])
    &&& out.no_duplicates()
}

/// Everything in `a` is still in `b`.
pub open spec fn grows(a: Seq<Move>, b: Seq<Move>) -> bool {
    forall|m: Move| #[trigger] a.contains(m) ==> b.contains(m)
}

/// The piece of the given colour, shape, orientation and position.
pub open spec fn placed(color: Color, kind: PieceShape, r: Rotation, f: bool, x: int, y: int) -> Piece {
    Piece { color, kind, rotation: r, is_flipped: f, position: Coordinates { x: x as i32, y: y as i32 } }
}

/// If placing `p` is valid, the list holds it.
pub open spec fn covered(s: GameState, out: Seq<Move>, p: Piece) -> bool {
    set_move_mistake(s, p) is None ==> out.contains(Move::SetMove { piece: p })
}

/// The Set move of the piece of the given colour, shape and orientation at `(x, y)`.
pub open spec fn set_at(color: Color, kind: PieceShape, r: Rotation, f: bool, x: int, y: int) -> Move {
    Move::SetMove { piece: placed(color, kind, r, f, x, y) }
}

/// Whether `m` is a Set move without mistake in `s`.
pub open spec fn accepted(s: GameState, m: Move) -> bool {
    m matches Move::SetMove { piece } && set_move_mistake(s, piece) is None
}

/// `out` followed by those of the candidate moves `cands`, in order, that
/// are accepted in `s` and not listed before.
pub open spec fn extend_valid(s: GameState, out: Seq<Move>, cands: Seq<Move>) -> Seq<Move>
    decreases cands.len(),
{
    if cands.len() == 0 {
        out
    } else {
        let prev = extend_valid(s, out, cands.drop_last());
        if accepted(s, cands.last()) && !prev.contains(cands.last()) {
            prev.push(cands.last())
        } else {
            prev
        }
    }
}

/// Extending by two lists of candidates is extending by the first, then by
/// the second.
pub proof fn lemma_extend_concat(s: GameState, out: Seq<Move>, a: Seq<Move>, b: Seq<Move>)
    ensures
        extend_valid(s, out, a + b) == extend_valid(s, extend_valid(s, out, a), b),
    decreases b.len(),
{
    if b.len() == 0 {
        assert(a + b =~= a);
    } else {
        lemma_extend_concat(s, out, a, b.drop_last());
        assert((a + b).drop_last() =~= a + b.drop_last());
        assert((a + b).last() == b.last());
    }
}

/// The first `n` positions `(0, y) .. (n - 1, y)` of a row, as Set moves.
pub open spec fn row_seq(color: Color, kind: PieceShape, r: Rotation, f: bool, y: int, n: int) -> Seq<Move> {
    Seq::new(n as nat, |x: int| set_at(color, kind, r, f, x, y))
}

/// The first `n` positions `(x, y_lo) ..` of a column, as Set moves.
pub open spec fn col_seq(color: Color, kind: PieceShape, r: Rotation, f: bool, x: int, y_lo: int, n: int) -> Seq<Move> {
    Seq::new(n as nat, |i: int| set_at(color, kind, r, f, x, y_lo + i))
}

/// The columns `x_start ..= x_start + n - 1`, each `h` positions down from
/// `y_lo`, one after the other, as Set moves.
pub open spec fn block_seq(color: Color, kind: PieceShape, r: Rotation, f: bool, x_start: int, y_lo: int, h: int, n: int) -> Seq<Move>
    decreases n,
{
    if n <= 0 {
        Seq::empty()
    } else {
        block_seq(color, kind, r, f, x_start, y_lo, h, n - 1) + col_seq(color, kind, r, f, x_start + n - 1, y_lo, h)
    }
}

/// For the first `k` of `fields` in order, the positions of a piece
/// `mdx` wide and `mdy` high beyond its position whose box holds the field.
pub open spec fn fields_seq(color: Color, kind: PieceShape, r: Rotation, f: bool, fields: Seq<Coordinates>, mdx: int, mdy: int, k: int) -> Seq<Move>
    decreases k,
{
    if k <= 0 {
        Seq::empty()
    } else {
        fields_seq(color, kind, r, f, fields, mdx, mdy, k - 1) + block_seq(
            color,
            kind,
            r,
            f,
            fields[k - 1].x - mdx,
            fields[k - 1].y - mdy,
            mdy + 1,
            mdx + 1,
        )
    }
}

/// The candidates around all of `fields` for the first `j` variants of `kind`.
pub open spec fn variants_seq(color: Color, kind: PieceShape, fields: Seq<Coordinates>, j: int) -> Seq<Move>
    decreases j,
{
    if j <= 0 {
        Seq::empty()
    } else {
        let v = variants_spec(kind)[j - 1];
        let t = transform_spec(kind, v.0, v.1);
        variants_seq(color, kind, fields, j - 1) + fields_seq(color, kind, v.0, v.1, fields, max_x0(t), max_y0(t), fields.len() as int)
    }
}

/// The candidates around all of `fields` for every variant of the first `i`
/// of `kinds`.
pub open spec fn kinds_seq(color: Color, kinds: Seq<PieceShape>, fields: Seq<Coordinates>, i: int) -> Seq<Move>
    decreases i,
{
    if i <= 0 {
        Seq::empty()
    } else {
        kinds_seq(color, kinds, fields, i - 1) + variants_seq(color, kinds[i - 1], fields, variants_spec(kinds[i - 1]).len() as int)
    }
}

/// The candidates along the four edges (top, right, bottom, left) for a
/// variant `mx` wide and `my` high beyond its position.
pub open spec fn edge_seq(color: Color, kind: PieceShape, r: Rotation, f: bool, mx: int, my: int) -> Seq<Move> {
    row_seq(color, kind, r, f, 0, 20 - mx) + col_seq(color, kind, r, f, 19 - mx, 0, 20 - my) + row_seq(
        color,
        kind,
        r,
        f,
        19 - my,
        20 - mx,
    ) + col_seq(color, kind, r, f, 0, 0, 20 - my)
}

/// The edge candidates for the first `j` variants of `kind`.
pub open spec fn start_seq(color: Color, kind: PieceShape, j: int) -> Seq<Move>
    decreases j,
{
    if j <= 0 {
        Seq::empty()
    } else {
        let v = variants_spec(kind)[j - 1];
        let t = transform_spec(kind, v.0, v.1);
        start_seq(color, kind, j - 1) + edge_seq(color, kind, v.0, v.1, max_x0(t), max_y0(t))
    }
}

/// The moves that `possible_moves` lists, in the order it lists them: the
/// candidates in generation order (on a colour's first move the start piece
/// along the edges, variant by variant; later every undeployed shape, variant
/// by variant, around each valid field in turn) that are valid, each at its
/// first occurrence.
pub open spec fn listed_moves(s: GameState) -> Seq<Move> {
    let color = current_color_spec(s);
    if first_move_spec(s, color) {
        extend_valid(s, Seq::empty(), start_seq(color, s.start_piece, variants_spec(s.start_piece).len() as int))
    } else {
        let kinds = undeployed_spec(s, color);
        extend_valid(
            s,
            Seq::empty(),
            kinds_seq(color, kinds, valid_fields_spec(s.board, color), kinds.len() as int),
        )
    }
}

/// Whether the bounding box of a piece at `p`, `mx` wide and `my` high beyond
/// its position, contains `f`.
pub open spec fn around(p: Coordinates, f: Coordinates, mx: int, my: int) -> bool {
    f.x - mx <= p.x <= f.x && f.y - my <= p.y <= f.y
}

/// Every move of `b` is already in `a` or places the piece of the given
/// colour, shape and orientation at a position in the box `x_lo..=x_hi`,
/// `y_lo..=y_hi`.
pub open spec fn added_within(
    a: Seq<Move>,
    b: Seq<Move>,
    color: Color,
    kind: PieceShape,
    r: Rotation,
    f: bool,
    x_lo: int,
    x_hi: int,
    y_lo: int,
    y_hi: int,
) -> bool {
    forall|m: Move|
        #[trigger] b.contains(m) ==> a.contains(m) || (m matches Move::SetMove { piece }
            && piece.color == color && piece.kind == kind && piece.rotation == r
            && piece.is_flipped == f && x_lo <= piece.position.x <= x_hi && y_lo
            <= piece.position.y <= y_hi)
}

/// Moves added in two steps within two boxes lie within any box holding both.
proof fn lemma_added_within_trans(
    a: Seq<Move>,
    b: Seq<Move>,
    c: Seq<Move>,
    color: Color,
    kind: PieceShape,
    r: Rotation,
    f: bool,
    x1: (int, int, int, int),
    x2: (int, int, int, int),
    x3: (int, int, int, int),
)
    requires
        added_within(a, b, color, kind, r, f, x1.0, x1.1, x1.2, x1.3),
        added_within(b, c, color, kind, r, f, x2.0, x2.1, x2.2, x2.3),
        grows(a, b),
        x3.0 <= x1.0,
        x1.1 <= x3.1,
        x3.2 <= x1.2,
        x1.3 <= x3.3,
        x3.0 <= x2.0,
        x2.1 <= x3.1,
        x3.2 <= x2.2,
        x2.3 <= x3.3,
    ensures
        added_within(a, c, color, kind, r, f, x3.0, x3.1, x3.2, x3.3),
{
    assert forall|m: Move| #[trigger] c.contains(m) implies a.contains(m) || (m matches Move::SetMove { piece }
        && piece.color == color && piece.kind == kind && piece.rotation == r
        && piece.is_flipped == f && x3.0 <= piece.position.x <= x3.1 && x3.2
        <= piece.position.y <= x3.3) by {
        if !b.contains(m) {
        } else {
            assert(b.contains(m));
        }
    }
}

fn contains_move(out: &Vec<Move>, m: &Move) -> (r: bool)
    ensures
        r == out@.contains(*m),
{
    let mut i: usize = 0;
    while i < out.len()
        invariant
            i <= out@.len(),
            forall|k: int| 0 <= k < i ==> out@[k] != *m,
        decreases out@.len() - i,
    {
        if out[i] == *m {
            return true;
        }
        i = i + 1;
    }
    false
}

/// Adds the Set move of the described piece to `out` when it is valid and
/// not listed yet; returns whether it is valid.
fn try_add_start(
    state: &GameState,
    kind: PieceShape,
    color: Color,
    rotation: Rotation,
    is_flipped: bool,
    pos: Coordinates,
    out: &mut Vec<Move>,
) -> (r: bool)
    requires
        is_variant_rep(kind, rotation, is_flipped),
        pos.x <= 19,
        pos.y <= 19,
        good_moves(*state, old(out)@),
    ensures
        good_moves(*state, final(out)@),
        grows(old(out)@, final(out)@),
        r == (set_move_mistake(*state, Piece { color, kind, rotation, is_flipped, position: pos })
            is None),
        covered(*state, final(out)@, Piece { color, kind, rotation, is_flipped, position: pos }),
        added_within(
            old(out)@,
            final(out)@,
            color,
            kind,
            rotation,
            is_flipped,
            pos.x as int,
            pos.x as int,
            pos.y as int,
            pos.y as int,
        ),
        final(out)@ == extend_valid(
            *state,
            old(out)@,
            seq![set_at(color, kind, rotation, is_flipped, pos.x as int, pos.y as int)],
        ),
{
    proof {
        let m0 = set_at(color, kind, rotation, is_flipped, pos.x as int, pos.y as int);
        assert(seq![m0].drop_last() =~= Seq::<Move>::empty());
        assert(seq![m0].last() == m0);
        assert(extend_valid(*state, old(out)@, seq![m0].drop_last()) == old(out)@);
        assert(m0 == Move::SetMove { piece: Piece { color, kind, rotation, is_flipped, position: pos } });
        assert(extend_valid(*state, old(out)@, seq![m0]) == if accepted(*state, m0) && !old(out)@.contains(m0) {
            old(out)@.push(m0)
        } else {
            old(out)@
        });
    }
    let piece = Piece::new(color, kind, rotation, is_flipped, pos);
    proof {
        lemma_transform_cells(kind, rotation, is_flipped);
    }
    if validate_set_move(state, &piece).is_ok() {
        let m = Move::SetMove { piece };
        if !contains_move(out, &m) {
            out.push(m);
            proof {
                assert forall|i: int| 0 <= i < out@.len() implies valid_placement(*state, #[trigger] out@[i]) by {
                    if i < old(out)@.len() {
                        assert(out@[i] == old(out)@[i]);
                    }
                }
                assert forall|mm: Move| #[trigger] old(out)@.contains(mm) implies out@.contains(mm) by {
                    let k = choose|k: int| 0 <= k < old(out)@.len() && old(out)@[k] == mm;
                    assert(out@[k] == mm);
                }
                assert(out@[out@.len() - 1] == m);
                assert forall|mm: Move| #[trigger] out@.contains(mm) implies old(out)@.contains(mm) || mm == m by {
                    let k = choose|k: int| 0 <= k < out@.len() && out@[k] == mm;
                    if k < old(out)@.len() {
                        assert(old(out)@[k] == mm);
                    }
                }
            }
        }
        true
    } else {
        false
    }
}

/// Tries the piece at `(x, y)` for `x` in `0..=x_hi` and the given row `y`.
fn add_row(
    state: &GameState,
    kind: PieceShape,
    color: Color,
    rotation: Rotation,
    is_flipped: bool,
    y: i32,
    x_hi: i32,
    out: &mut Vec<Move>,
)
    requires
        is_variant_rep(kind, rotation, is_flipped),
        0 <= x_hi <= 19,
        y <= 19,
        good_moves(*state, old(out)@),
    ensures
        good_moves(*state, final(out)@),
        grows(old(out)@, final(out)@),
        forall|x: int|
            0 <= x <= x_hi ==> covered(
                *state,
                final(out)@,
                #[trigger] placed(color, kind, rotation, is_flipped, x, y as int),
            ),
        added_within(old(out)@, final(out)@, color, kind, rotation, is_flipped, 0, x_hi as int, y as int, y as int),
        final(out)@ == extend_valid(*state, old(out)@, row_seq(color, kind, rotation, is_flipped, y as int, x_hi + 1)),
{
    let mut x: i32 = 0;
    while x <= x_hi
        invariant
            0 <= x,
            x <= x_hi + 1,
            x_hi <= 19,
            y <= 19,
            is_variant_rep(kind, rotation, is_flipped),
            good_moves(*state, out@),
            grows(old(out)@, out@),
            forall|xx: int|
                0 <= xx < x ==> covered(
                    *state,
                    out@,
                    #[trigger] placed(color, kind, rotation, is_flipped, xx, y as int),
                ),
            added_within(old(out)@, out@, color, kind, rotation, is_flipped, 0, x_hi as int, y as int, y as int),
            out@ == extend_valid(*state, old(out)@, row_seq(color, kind, rotation, is_flipped, y as int, x as int)),
        decreases x_hi + 1 - x,
    {
        let ghost before = out@;
        let _ = try_add_start(state, kind, color, rotation, is_flipped, Coordinates::new(x, y), out);
        proof {
            let m0 = set_at(color, kind, rotation, is_flipped, x as int, y as int);
            let rs = row_seq(color, kind, rotation, is_flipped, y as int, x as int);
            assert(row_seq(color, kind, rotation, is_flipped, y as int, x + 1) =~= rs + seq![m0]);
            lemma_extend_concat(*state, old(out)@, rs, seq![m0]);
            assert forall|xx: int| 0 <= xx < x + 1 implies covered(
                *state,
                out@,
                #[trigger] placed(color, kind, rotation, is_flipped, xx, y as int),
            ) by {
                if xx < x {
                    assert(covered(*state, before, placed(color, kind, rotation, is_flipped, xx, y as int)));
                    assert(before.contains(Move::SetMove { piece: placed(color, kind, rotation, is_flipped, xx, y as int) }) ==> out@.contains(Move::SetMove { piece: placed(color, kind, rotation, is_flipped, xx, y as int) }));
                } else {
                    assert(placed(color, kind, rotation, is_flipped, xx, y as int) == Piece { color, kind, rotation, is_flipped, position: Coordinates { x, y } });
                }
            }
            assert forall|mm: Move| #[trigger] old(out)@.contains(mm) implies out@.contains(mm) by {
                assert(before.contains(mm));
            }
            lemma_added_within_trans(
                old(out)@, before, out@, color, kind, rotation, is_flipped,
                (0, x_hi as int, y as int, y as int),
                (x as int, x as int, y as int, y as int),
                (0, x_hi as int, y as int, y as int),
            );
        }
        x = x + 1;
    }
}

/// Tries the piece at `(x, y)` for the given column `x` and `y` in `y_lo..=y_hi`.
fn add_column(
    state: &GameState,
    kind: PieceShape,
    color: Color,
    rotation: Rotation,
    is_flipped: bool,
    x: i32,
    y_lo: i32,
    y_hi: i32,
    out: &mut Vec<Move>,
)
    requires
        is_variant_rep(kind, rotation, is_flipped),
        -8 <= y_lo <= y_hi + 1,
        y_hi <= 19,
        x <= 19,
        good_moves(*state, old(out)@),
    ensures
        good_moves(*state, final(out)@),
        grows(old(out)@, final(out)@),
        forall|y: int|
            y_lo <= y <= y_hi ==> covered(
                *state,
                final(out)@,
                #[trigger] placed(color, kind, rotation, is_flipped, x as int, y),
            ),
        added_within(old(out)@, final(out)@, color, kind, rotation, is_flipped, x as int, x as int, y_lo as int, y_hi as int),
        final(out)@ == extend_valid(*state, old(out)@, col_seq(color, kind, rotation, is_flipped, x as int, y_lo as int, y_hi - y_lo + 1)),
{
    let mut y: i32 = y_lo;
    while y <= y_hi
        invariant
            y_lo <= y,
            y <= y_hi + 1,
            -8 <= y_lo,
            y_hi <= 19,
            x <= 19,
            is_variant_rep(kind, rotation, is_flipped),
            good_moves(*state, out@),
            grows(old(out)@, out@),
            forall|yy: int|
                y_lo <= yy < y ==> covered(
                    *state,
                    out@,
                    #[trigger] placed(color, kind, rotation, is_flipped, x as int, yy),
                ),
            added_within(old(out)@, out@, color, kind, rotation, is_flipped, x as int, x as int, y_lo as int, y_hi as int),
            out@ == extend_valid(*state, old(out)@, col_seq(color, kind, rotation, is_flipped, x as int, y_lo as int, y - y_lo)),
        decreases y_hi + 1 - y,
    {
        let ghost before = out@;
        let _ = try_add_start(state, kind, color, rotation, is_flipped, Coordinates::new(x, y), out);
        proof {
            let m0 = set_at(color, kind, rotation, is_flipped, x as int, y as int);
            let cs = col_seq(color, kind, rotation, is_flipped, x as int, y_lo as int, y - y_lo);
            assert(col_seq(color, kind, rotation, is_flipped, x as int, y_lo as int, y - y_lo + 1) =~= cs + seq![m0]);
            lemma_extend_concat(*state, old(out)@, cs, seq![m0]);
            assert forall|yy: int| y_lo <= yy < y + 1 implies covered(
                *state,
                out@,
                #[trigger] placed(color, kind, rotation, is_flipped, x as int, yy),
            ) by {
                if yy < y {
                    assert(covered(*state, before, placed(color, kind, rotation, is_flipped, x as int, yy)));
                    assert(before.contains(Move::SetMove { piece: placed(color, kind, rotation, is_flipped, x as int, yy) }) ==> out@.contains(Move::SetMove { piece: placed(color, kind, rotation, is_flipped, x as int, yy) }));
                } else {
                    assert(placed(color, kind, rotation, is_flipped, x as int, yy) == Piece { color, kind, rotation, is_flipped, position: Coordinates { x, y } });
                }
            }
            assert forall|mm: Move| #[trigger] old(out)@.contains(mm) implies out@.contains(mm) by {
                assert(before.contains(mm));
            }
            lemma_added_within_trans(
                old(out)@, before, out@, color, kind, rotation, is_flipped,
                (x as int, x as int, y_lo as int, y_hi as int),
                (x as int, x as int, y as int, y as int),
                (x as int, x as int, y_lo as int, y_hi as int),
            );
        }
        y = y + 1;
    }
}

/// The extent of cells within `0..=8` is itself within `0..=8`.
pub proof fn lemma_small_extent(t: Seq<(i32, i32)>)
    requires
        forall|i: int| 0 <= i < t.len() ==> 0 <= #[trigger] t[i].0 <= 8 && 0 <= t[i].1 <= 8,
    ensures
        0 <= max_x0(t) <= 8,
        0 <= max_y0(t) <= 8,
{
    lemma_max_bounds(t);
    if max_x0(t) != 0 {
        let k = choose|i: int| 0 <= i < t.len() && (#[trigger] t[i]).0 == max_x0(t);
        assert(t[k].0 <= 8);
    }
    if max_y0(t) != 0 {
        let k = choose|i: int| 0 <= i < t.len() && (#[trigger] t[i]).1 == max_y0(t);
        assert(t[k].0 <= 8);
        assert(t[k].1 <= 8);
    }
}

/// When the cells have no mistake as a list, no single cell has one.
pub proof fn lemma_first_cell_none(b: Board, color: Color, cs: Seq<Coordinates>)
    requires
        first_cell_mistake(b, color, cs) is None,
    ensures
        forall|i: int| 0 <= i < cs.len() ==> cell_mistake(b, color, #[trigger] cs[i]) is None,
    decreases cs.len(),
{
    if cs.len() > 0 {
        lemma_first_cell_none(b, color, cs.drop_last());
        assert forall|i: int| 0 <= i < cs.len() implies cell_mistake(b, color, #[trigger] cs[i]) is None by {
            if i < cs.len() - 1 {
                assert(cs[i] == cs.drop_last()[i]);
            }
        }
    }
}

/// The board cells of a fitting piece are its position plus its shape cells.
pub proof fn lemma_piece_cells(p: Piece)
    requires
        piece_fits(p),
    ensures
        piece_cells(p).len() == piece_shape_cells(p).len(),
        forall|i: int|
            0 <= i < piece_cells(p).len() ==> (#[trigger] piece_cells(p)[i]).x == p.position.x
                + piece_shape_cells(p)[i].0 && piece_cells(p)[i].y == p.position.y
                + piece_shape_cells(p)[i].1,
{
    lemma_transform_cells(p.kind, p.rotation, p.is_flipped);
    assert forall|i: int| 0 <= i < piece_cells(p).len() implies (#[trigger] piece_cells(p)[i]).x
        == p.position.x + piece_shape_cells(p)[i].0 && piece_cells(p)[i].y == p.position.y
        + piece_shape_cells(p)[i].1 by {
        let t = transform_spec(p.kind, p.rotation, p.is_flipped);
        assert(piece_shape_cells(p) == t);
        assert(0 <= t[i].0 <= 8 && 0 <= t[i].1 <= 8);
        assert(p.position.x + piece_shape_cells(p)[i].0 <= i32::MAX);
    }
}

/// A valid first piece lies inside the board and its bounding box touches an edge.
pub proof fn lemma_start_position(s: GameState, p: Piece)
    requires
        piece_fits(p),
        set_move_mistake(s, p) is None,
        first_move_spec(s, p.color),
    ensures
        0 <= p.position.x <= 19 - max_x0(piece_shape_cells(p)),
        0 <= p.position.y <= 19 - max_y0(piece_shape_cells(p)),
        p.position.y == 0 || p.position.x == 19 - max_x0(piece_shape_cells(p)) || p.position.y
            == 19 - max_y0(piece_shape_cells(p)) || p.position.x == 0,
{
    let t = piece_shape_cells(p);
    let cells = piece_cells(p);
    lemma_transform_cells(p.kind, p.rotation, p.is_flipped);
    lemma_transform_aligned(p.kind, p.rotation, p.is_flipped);
    lemma_max_bounds(t);
    lemma_piece_cells(p);
    lemma_first_cell_none(s.board, p.color, cells);
    let kx = choose|i: int| 0 <= i < t.len() && (#[trigger] t[i]).0 == 0;
    let ky = choose|i: int| 0 <= i < t.len() && (#[trigger] t[i]).1 == 0;
    assert(cell_mistake(s.board, p.color, cells[kx]) is None);
    assert(cell_mistake(s.board, p.color, cells[ky]) is None);
    if max_x0(t) != 0 {
        let k = choose|i: int| 0 <= i < t.len() && (#[trigger] t[i]).0 == max_x0(t);
        assert(cell_mistake(s.board, p.color, cells[k]) is None);
    }
    if max_y0(t) != 0 {
        let k = choose|i: int| 0 <= i < t.len() && (#[trigger] t[i]).1 == max_y0(t);
        assert(cell_mistake(s.board, p.color, cells[k]) is None);
    }
    let j = choose|i: int| 0 <= i < cells.len() && border_cell(#[trigger] cells[i]);
    assert(cell_mistake(s.board, p.color, cells[j]) is None);
    assert(t[j].0 <= max_x0(t) && t[j].1 <= max_y0(t));
}

/// Whether a piece lies along the board's edge the way the start scan tries
/// it: its bounding box on the board and on the top, right, bottom or left
/// edge.
pub open spec fn start_line(p: Piece) -> bool {
    let mx = max_x0(piece_shape_cells(p));
    let my = max_y0(piece_shape_cells(p));
    &&& 0 <= p.position.x <= 19 - mx
    &&& 0 <= p.position.y <= 19 - my
    &&& (p.position.y == 0 || p.position.x == 19 - mx || p.position.y == 19 - my
        || p.position.x == 0)
}

/// Whether `p` is a valid piece of the colour on turn and the start shape,
/// in the orientation of one of its variants, along the board's edge.
pub open spec fn start_candidate(s: GameState, p: Piece) -> bool {
    &&& p.color == current_color_spec(s)
    &&& p.kind == s.start_piece
    &&& is_variant_rep(p.kind, p.rotation, p.is_flipped)
    &&& piece_fits(p)
    &&& set_move_mistake(s, p) is None
    &&& start_line(p)
}

/// Whether `m` places a piece that `start_candidate` admits.
pub open spec fn listed_start(s: GameState, m: Move) -> bool {
    m matches Move::SetMove { piece } && start_candidate(s, piece)
}

/// Valid start-piece moves added along one edge line of the board keep every
/// listed move a start candidate.
proof fn lemma_listed_start_step(
    s: GameState,
    a: Seq<Move>,
    b: Seq<Move>,
    r: Rotation,
    f: bool,
    bx: (int, int, int, int),
)
    requires
        forall|k: int| 0 <= k < a.len() ==> listed_start(s, #[trigger] a[k]),
        added_within(a, b, current_color_spec(s), s.start_piece, r, f, bx.0, bx.1, bx.2, bx.3),
        good_moves(s, b),
        is_variant_rep(s.start_piece, r, f),
        0 <= max_x0(transform_spec(s.start_piece, r, f)) <= 8,
        0 <= max_y0(transform_spec(s.start_piece, r, f)) <= 8,
        ({
            let mx = max_x0(transform_spec(s.start_piece, r, f));
            let my = max_y0(transform_spec(s.start_piece, r, f));
            ||| bx.2 == bx.3 && (bx.2 == 0 || bx.2 == 19 - my) && bx.0 == 0 && bx.1 == 19 - mx
            ||| bx.0 == bx.1 && (bx.0 == 0 || bx.0 == 19 - mx) && bx.2 == 0 && bx.3 == 19 - my
        }),
    ensures
        forall|k: int| 0 <= k < b.len() ==> listed_start(s, #[trigger] b[k]),
{
    assert forall|k: int| 0 <= k < b.len() implies listed_start(s, #[trigger] b[k]) by {
        let m = b[k];
        assert(b.contains(m));
        if a.contains(m) {
            let j = choose|j: int| 0 <= j < a.len() && a[j] == m;
            assert(listed_start(s, a[j]));
        } else {
            assert(valid_placement(s, b[k]));
        }
    }
}

/// Whether `p` is a valid piece of `color` and shape `kind` along the
/// board's edge whose orientation is that of one of the first `j` entries of
/// `vs`.
pub open spec fn start_target(s: GameState, color: Color, kind: PieceShape, vs: Seq<ShapeVariant>, j: int, p: Piece) -> bool {
    &&& p.color == color
    &&& p.kind == kind
    &&& exists|k: int| 0 <= k < j && (#[trigger] vs[k]).rotation == p.rotation && vs[k].is_flipped == p.is_flipped
    &&& piece_fits(p)
    &&& set_move_mistake(s, p) is None
    &&& start_line(p)
}

/// Extending by the four edges of the variant at `j`, one edge after the
/// other, extends the list of the first `j` variants to that of `j + 1`.
proof fn lemma_edge_extend(
    s: GameState,
    color: Color,
    kind: PieceShape,
    j: int,
    o0: Seq<Move>,
    o1: Seq<Move>,
    o2: Seq<Move>,
    o3: Seq<Move>,
    o4: Seq<Move>,
)
    requires
        0 <= j,
        ({
            let v = variants_spec(kind)[j];
            let t = transform_spec(kind, v.0, v.1);
            let mx = max_x0(t);
            let my = max_y0(t);
            &&& o0 == extend_valid(s, Seq::empty(), start_seq(color, kind, j))
            &&& o1 == extend_valid(s, o0, row_seq(color, kind, v.0, v.1, 0, 20 - mx))
            &&& o2 == extend_valid(s, o1, col_seq(color, kind, v.0, v.1, 19 - mx, 0, 20 - my))
            &&& o3 == extend_valid(s, o2, row_seq(color, kind, v.0, v.1, 19 - my, 20 - mx))
            &&& o4 == extend_valid(s, o3, col_seq(color, kind, v.0, v.1, 0, 0, 20 - my))
        }),
    ensures
        o4 == extend_valid(s, Seq::empty(), start_seq(color, kind, j + 1)),
{
    let v = variants_spec(kind)[j];
    let t = transform_spec(kind, v.0, v.1);
    let mx = max_x0(t);
    let my = max_y0(t);
    let a = row_seq(color, kind, v.0, v.1, 0, 20 - mx);
    let b = col_seq(color, kind, v.0, v.1, 19 - mx, 0, 20 - my);
    let c = row_seq(color, kind, v.0, v.1, 19 - my, 20 - mx);
    let d = col_seq(color, kind, v.0, v.1, 0, 0, 20 - my);
    lemma_extend_concat(s, o0, a, b);
    lemma_extend_concat(s, o0, a + b, c);
    lemma_extend_concat(s, o0, a + b + c, d);
    assert(edge_seq(color, kind, v.0, v.1, mx, my) == a + b + c + d);
    lemma_extend_concat(s, Seq::empty(), start_seq(color, kind, j), a + b + c + d);
}

/// All valid Set moves that place `start_piece` along the border, each
/// listed once; on a colour's first move these are all its valid moves.
#[verifier::rlimit(60)]
pub fn possible_start_moves(state: &GameState) -> (r: Vec<Move>)
    ensures
        good_moves(*state, r@),
        forall|k: int| 0 <= k < r@.len() ==> listed_start(*state, #[trigger] r@[k]),
        forall|p: Piece| #[trigger] start_candidate(*state, p) ==> r@.contains(Move::SetMove { piece: p }),
        first_move_spec(*state, current_color_spec(*state)) ==> forall|m: Move|
            #[trigger] valid_placement(*state, m) ==> r@.contains(m),
        r@ == extend_valid(
            *state,
            Seq::empty(),
            start_seq(current_color_spec(*state), state.start_piece, variants_spec(state.start_piece).len() as int),
        ),
{
    let color = state.current_color();
    let kind = state.start_piece;
    let l = BOARD_LENGTH as i32;
    let variants = kind.variants();
    proof {
        lemma_variants_upto(kind, 8);
    }
    let mut out: Vec<Move> = Vec::new();
    let mut j: usize = 0;
    while j < variants.len()
        invariant
            j <= variants@.len(),
            color == current_color_spec(*state),
            kind == state.start_piece,
            l == 20,
            variants@.len() == variants_spec(kind).len(),
            forall|i: int| 0 <= i < variants@.len() ==> #[trigger] variants@[i]@ == variants_spec(kind)[i],
            good_moves(*state, out@),
            forall|k: int| 0 <= k < out@.len() ==> listed_start(*state, #[trigger] out@[k]),
            forall|p: Piece| #[trigger] start_target(*state, color, kind, variants@, j as int, p) ==> out@.contains(Move::SetMove { piece: p }),
            out@ == extend_valid(*state, Seq::empty(), start_seq(color, kind, j as int)),
        decreases variants@.len() - j,
    {
        let variant = &variants[j];
        let rotation = variant.rotation;
        let is_flipped = variant.is_flipped;
        proof {
            lemma_variants_upto(kind, 8);
        }
        assert(variants@[j as int]@ == variants_spec(kind)[j as int]);
        assert(is_variant_rep(kind, rotation, is_flipped));
        assert(variant.shape@ == transform_spec(kind, rotation, is_flipped));
        proof {
            lemma_transform_cells(kind, rotation, is_flipped);
            lemma_max_bounds(variant.shape@);
            lemma_small_extent(variant.shape@);
        }
        let (max_dx, max_dy) = bbox(variant.shape.as_slice());
        let ghost o0 = out@;
        // Top edge: y = 0, x ranges so the shape stays in-bounds.
        add_row(state, kind, color, rotation, is_flipped, 0, l - 1 - max_dx, &mut out);
        let ghost o1 = out@;
        proof {
            lemma_listed_start_step(*state, o0, o1, rotation, is_flipped, (0, 19 - max_dx as int, 0, 0));
        }
        // Right edge: x = l-1-max_dx.
        add_column(state, kind, color, rotation, is_flipped, l - 1 - max_dx, 0, l - 1 - max_dy, &mut out);
        let ghost o2 = out@;
        proof {
            lemma_listed_start_step(*state, o1, o2, rotation, is_flipped, (19 - max_dx as int, 19 - max_dx as int, 0, 19 - max_dy as int));
        }
        // Bottom edge: y = l-1-max_dy.
        add_row(state, kind, color, rotation, is_flipped, l - 1 - max_dy, l - 1 - max_dx, &mut out);
        let ghost o3 = out@;
        proof {
            lemma_listed_start_step(*state, o2, o3, rotation, is_flipped, (0, 19 - max_dx as int, 19 - max_dy as int, 19 - max_dy as int));
        }
        // Left edge: x = 0.
        add_column(state, kind, color, rotation, is_flipped, 0, 0, l - 1 - max_dy, &mut out);
        proof {
            lemma_edge_extend(*state, color, kind, j as int, o0, o1, o2, o3, out@);
        }
        proof {
            lemma_listed_start_step(*state, o3, out@, rotation, is_flipped, (0, 0, 0, 19 - max_dy as int));
        }
        proof {
            assert forall|p: Piece| #[trigger] start_target(*state, color, kind, variants@, j + 1, p) implies out@.contains(Move::SetMove { piece: p }) by {
                let m = Move::SetMove { piece: p };
                let k = choose|k: int| 0 <= k < j + 1 && (#[trigger] variants@[k]).rotation == p.rotation && variants@[k].is_flipped == p.is_flipped;
                if k < j {
                    assert(start_target(*state, color, kind, variants@, j as int, p));
                    assert(o0.contains(m));
                    assert(o1.contains(m));
                    assert(o2.contains(m));
                    assert(o3.contains(m));
                } else {
                    let x = p.position.x as int;
                    let y = p.position.y as int;
                    assert(p == placed(color, kind, rotation, is_flipped, x, y));
                    if y == 0 {
                        assert(covered(*state, o1, placed(color, kind, rotation, is_flipped, x, 0)));
                        assert(o1.contains(m));
                        assert(o2.contains(m));
                        assert(o3.contains(m));
                    } else if x == 19 - max_dx {
                        assert(covered(*state, o2, placed(color, kind, rotation, is_flipped, (l - 1 - max_dx) as int, y)));
                        assert(o2.contains(m));
                        assert(o3.contains(m));
                    } else if y == 19 - max_dy {
                        assert(covered(*state, o3, placed(color, kind, rotation, is_flipped, x, (l - 1 - max_dy) as int)));
                        assert(o3.contains(m));
                    } else {
                        assert(covered(*state, out@, placed(color, kind, rotation, is_flipped, 0, y)));
                    }
                }
            }
        }
        j = j + 1;
    }
    proof {
        assert forall|p: Piece| #[trigger] start_candidate(*state, p) implies out@.contains(Move::SetMove { piece: p }) by {
            let k = choose|k: int| 0 <= k < variants_spec(p.kind).len() && (#[trigger] variants_spec(p.kind)[k]).0 == p.rotation && variants_spec(p.kind)[k].1 == p.is_flipped;
            assert(variants@[k]@ == variants_spec(kind)[k]);
            assert(start_target(*state, color, kind, variants@, j as int, p));
        }
        assert forall|m: Move| first_move_spec(*state, current_color_spec(*state)) && #[trigger] valid_placement(*state, m) implies out@.contains(m) by {
            if let Move::SetMove { piece } = m {
                lemma_start_position(*state, piece);
                assert(start_candidate(*state, piece));
            }
        }
    }
    out
}

/// Tries the piece at every position whose bounding box, `max_dx` wide and
/// `max_dy` high beyond the position, contains `field`.
fn add_around(
    state: &GameState,
    kind: PieceShape,
    color: Color,
    rotation: Rotation,
    is_flipped: bool,
    field: Coordinates,
    max_dx: i32,
    max_dy: i32,
    out: &mut Vec<Move>,
)
    requires
        is_variant_rep(kind, rotation, is_flipped),
        on_board(field),
        0 <= max_dx <= 8,
        0 <= max_dy <= 8,
        good_moves(*state, old(out)@),
    ensures
        good_moves(*state, final(out)@),
        grows(old(out)@, final(out)@),
        forall|x: int, y: int|
            field.x - max_dx <= x <= field.x && field.y - max_dy <= y <= field.y ==> covered(
                *state,
                final(out)@,
                #[trigger] placed(color, kind, rotation, is_flipped, x, y),
            ),
        added_within(
            old(out)@,
            final(out)@,
            color,
            kind,
            rotation,
            is_flipped,
            field.x - max_dx,
            field.x as int,
            field.y - max_dy,
            field.y as int,
        ),
        final(out)@ == extend_valid(
            *state,
            old(out)@,
            block_seq(color, kind, rotation, is_flipped, field.x - max_dx, field.y - max_dy, max_dy + 1, max_dx + 1),
        ),
{
    // Slide the piece so the valid field is somewhere inside its bounding box.
    let x_start = field.x - max_dx;
    let y_start = field.y - max_dy;
    let mut dx: i32 = x_start;
    while dx <= field.x
        invariant
            x_start == field.x - max_dx,
            y_start == field.y - max_dy,
            x_start <= dx <= field.x + 1,
            on_board(field),
            0 <= max_dx <= 8,
            0 <= max_dy <= 8,
            is_variant_rep(kind, rotation, is_flipped),
            good_moves(*state, out@),
            grows(old(out)@, out@),
            forall|x: int, y: int|
                x_start <= x < dx && y_start <= y <= field.y ==> covered(
                    *state,
                    out@,
                    #[trigger] placed(color, kind, rotation, is_flipped, x, y),
                ),
            added_within(
                old(out)@,
                out@,
                color,
                kind,
                rotation,
                is_flipped,
                x_start as int,
                field.x as int,
                y_start as int,
                field.y as int,
            ),
            out@ == extend_valid(
                *state,
                old(out)@,
                block_seq(color, kind, rotation, is_flipped, x_start as int, y_start as int, max_dy + 1, dx - x_start),
            ),
        decreases field.x + 1 - dx,
    {
        let ghost before = out@;
        add_column(state, kind, color, rotation, is_flipped, dx, y_start, field.y, out);
        proof {
            lemma_extend_concat(
                *state,
                old(out)@,
                block_seq(color, kind, rotation, is_flipped, x_start as int, y_start as int, max_dy + 1, dx - x_start),
                col_seq(color, kind, rotation, is_flipped, dx as int, y_start as int, max_dy + 1),
            );
            assert forall|x: int, y: int| x_start <= x < dx + 1 && y_start <= y <= field.y implies covered(
                *state,
                out@,
                #[trigger] placed(color, kind, rotation, is_flipped, x, y),
            ) by {
                if x < dx {
                    let m = Move::SetMove { piece: placed(color, kind, rotation, is_flipped, x, y) };
                    assert(covered(*state, before, placed(color, kind, rotation, is_flipped, x, y)));
                    assert(before.contains(m) ==> out@.contains(m));
                } else {
                    assert(covered(*state, out@, placed(color, kind, rotation, is_flipped, dx as int, y)));
                }
            }
            assert forall|mm: Move| #[trigger] old(out)@.contains(mm) implies out@.contains(mm) by {
                assert(before.contains(mm));
            }
            lemma_added_within_trans(
                old(out)@, before, out@, color, kind, rotation, is_flipped,
                (x_start as int, field.x as int, y_start as int, field.y as int),
                (dx as int, dx as int, y_start as int, field.y as int),
                (x_start as int, field.x as int, y_start as int, field.y as int),
            );
        }
        dx = dx + 1;
    }
}

/// A corner candidate that qualifies is among the valid corners.
pub proof fn lemma_valid_corners_contains(b: Board, color: Color, ds: Seq<Coordinates>, q: int)
    requires
        0 <= q < ds.len(),
        corner_ok(b, color, ds[q]),
    ensures
        valid_corners(b, color, ds).contains(ds[q]),
    decreases ds.len(),
{
    let v = valid_corners(b, color, ds);
    if q == ds.len() - 1 {
        assert(v[v.len() - 1] == ds[q]);
    } else {
        assert(ds.drop_last()[q] == ds[q]);
        lemma_valid_corners_contains(b, color, ds.drop_last(), q);
        let prev = valid_corners(b, color, ds.drop_last());
        let k = choose|k: int| 0 <= k < prev.len() && prev[k] == ds[q];
        assert(v[k] == ds[q]);
    }
}

/// A valid corner of a listed cell is among the valid fields.
pub proof fn lemma_valid_fields_of_contains(b: Board, color: Color, cs: Seq<Coordinates>, i: int, c: Coordinates)
    requires
        0 <= i < cs.len(),
        valid_corners(b, color, diagonal_neighbors_spec(cs[i])).contains(c),
    ensures
        valid_fields_of(b, color, cs).contains(c),
    decreases cs.len(),
{
    let v = valid_fields_of(b, color, cs);
    let prev = valid_fields_of(b, color, cs.drop_last());
    let last = valid_corners(b, color, diagonal_neighbors_spec(cs.last()));
    assert(v == prev + last);
    if i == cs.len() - 1 {
        let k = choose|k: int| 0 <= k < last.len() && last[k] == c;
        assert(v[prev.len() + k] == c);
    } else {
        assert(cs.drop_last()[i] == cs[i]);
        lemma_valid_fields_of_contains(b, color, cs.drop_last(), i, c);
        let k = choose|k: int| 0 <= k < prev.len() && prev[k] == c;
        assert(v[k] == c);
    }
}

/// Each diagonal neighbour of a board cell has that cell as its opposite diagonal neighbour.
pub proof fn lemma_diagonal_symmetric(c: Coordinates, q: int)
    requires
        on_board(c),
        0 <= q < 4,
    ensures
        diagonal_neighbors_spec(diagonal_neighbors_spec(c)[q])[3 - q] == c,
{
}

/// An empty cell off the own colour that touches the own colour by a corner
/// is a valid field of that colour.
pub proof fn lemma_corner_is_valid_field(b: Board, color: Color, c: Coordinates)
    requires
        corner_ok(b, color, c),
        b.corners_spec(c, color),
    ensures
        valid_fields_spec(b, color).contains(c),
{
    let q = choose|q: int|
        0 <= q < 4 && on_board(#[trigger] diagonal_neighbors_spec(c)[q]) && b.at(
            diagonal_neighbors_spec(c)[q],
        ) == content_of(color);
    let d = diagonal_neighbors_spec(c)[q];
    lemma_colored_spec(b, content_of(color));
    let cs = colored_spec(b, content_of(color));
    assert(cs.contains(d));
    let i0 = choose|i: int| 0 <= i < cs.len() && cs[i] == d;
    lemma_diagonal_symmetric(c, q);
    let dn = diagonal_neighbors_spec(d);
    lemma_valid_corners_contains(b, color, dn, 3 - q);
    lemma_valid_fields_of_contains(b, color, cs, i0, c);
}

/// Every valid corner among `ds` is one of `ds` and can start a new piece.
proof fn lemma_valid_corners_members(b: Board, color: Color, ds: Seq<Coordinates>)
    ensures
        forall|k: int|
            0 <= k < valid_corners(b, color, ds).len() ==> corner_ok(
                b,
                color,
                #[trigger] valid_corners(b, color, ds)[k],
            ) && ds.contains(valid_corners(b, color, ds)[k]),
    decreases ds.len(),
{
    if ds.len() > 0 {
        let p = ds.drop_last();
        lemma_valid_corners_members(b, color, p);
        let prev = valid_corners(b, color, p);
        let v = valid_corners(b, color, ds);
        assert forall|k: int| 0 <= k < v.len() implies corner_ok(b, color, #[trigger] v[k]) && ds.contains(v[k]) by {
            if k < prev.len() {
                assert(v[k] == prev[k]);
                let j = choose|j: int| 0 <= j < p.len() && p[j] == prev[k];
                assert(ds[j] == p[j]);
            } else {
                assert(v[k] == ds[ds.len() - 1]);
            }
        }
    }
}

/// Every valid field of the cells `cs` can start a new piece and is a
/// diagonal neighbour of one of them.
proof fn lemma_valid_fields_of_members(b: Board, color: Color, cs: Seq<Coordinates>)
    ensures
        forall|k: int|
            0 <= k < valid_fields_of(b, color, cs).len() ==> corner_ok(
                b,
                color,
                #[trigger] valid_fields_of(b, color, cs)[k],
            ) && exists|i: int|
                0 <= i < cs.len() && diagonal_neighbors_spec(cs[i]).contains(
                    valid_fields_of(b, color, cs)[k],
                ),
    decreases cs.len(),
{
    if cs.len() > 0 {
        let p = cs.drop_last();
        lemma_valid_fields_of_members(b, color, p);
        let prev = valid_fields_of(b, color, p);
        let ds = diagonal_neighbors_spec(cs.last());
        let last = valid_corners(b, color, ds);
        lemma_valid_corners_members(b, color, ds);
        let v = valid_fields_of(b, color, cs);
        assert forall|k: int| 0 <= k < v.len() implies corner_ok(b, color, #[trigger] v[k]) && exists|i: int|
            0 <= i < cs.len() && diagonal_neighbors_spec(cs[i]).contains(v[k]) by {
            if k < prev.len() {
                assert(v[k] == prev[k]);
                let i = choose|i: int| 0 <= i < p.len() && diagonal_neighbors_spec(p[i]).contains(prev[k]);
                assert(cs[i] == p[i]);
            } else {
                assert(v[k] == last[k - prev.len()]);
                assert(cs[cs.len() - 1] == cs.last());
            }
        }
    }
}

/// The valid fields of a colour are exactly the cells on the board that are
/// empty, have no cardinal neighbour of the colour, and touch the colour by
/// a corner.
pub proof fn lemma_valid_fields_members(b: Board, color: Color)
    ensures
        forall|d: Coordinates|
            #[trigger] valid_fields_spec(b, color).contains(d) <==> corner_ok(b, color, d)
                && b.corners_spec(d, color),
{
    let cs = colored_spec(b, content_of(color));
    lemma_colored_spec(b, content_of(color));
    lemma_valid_fields_of_members(b, color, cs);
    let v = valid_fields_spec(b, color);
    assert forall|d: Coordinates| #[trigger] v.contains(d) <==> corner_ok(b, color, d) && b.corners_spec(d, color) by {
        if v.contains(d) {
            let k = choose|k: int| 0 <= k < v.len() && v[k] == d;
            let i = choose|i: int| 0 <= i < cs.len() && diagonal_neighbors_spec(cs[i]).contains(v[k]);
            let c = cs[i];
            assert(cs.contains(c));
            let q = choose|q: int| 0 <= q < diagonal_neighbors_spec(c).len() && diagonal_neighbors_spec(c)[q] == d;
            lemma_diagonal_symmetric(c, q);
            assert(diagonal_neighbors_spec(d)[3 - q] == c);
            assert(on_board(diagonal_neighbors_spec(d)[3 - q]));
        }
        if corner_ok(b, color, d) && b.corners_spec(d, color) {
            lemma_corner_is_valid_field(b, color, d);
        }
    }
}

/// A valid later piece has a cell that is a valid field of its colour, so its
/// bounding box contains one.
pub proof fn lemma_normal_position(s: GameState, p: Piece)
    requires
        piece_fits(p),
        set_move_mistake(s, p) is None,
        !first_move_spec(s, p.color),
    ensures
        exists|i: int|
            0 <= i < valid_fields_spec(s.board, p.color).len() && around(
                p.position,
                #[trigger] valid_fields_spec(s.board, p.color)[i],
                max_x0(piece_shape_cells(p)),
                max_y0(piece_shape_cells(p)),
            ),
{
    let b = s.board;
    let color = p.color;
    let t = piece_shape_cells(p);
    let cells = piece_cells(p);
    lemma_transform_cells(p.kind, p.rotation, p.is_flipped);
    lemma_max_bounds(t);
    lemma_piece_cells(p);
    assert(first_cell_mistake(b, color, cells) is None);
    assert(shares_corner(b, color, cells));
    lemma_first_cell_none(b, color, cells);
    let j = choose|i: int| 0 <= i < cells.len() && b.corners_spec(#[trigger] cells[i], color);
    let c = cells[j];
    assert(cell_mistake(b, color, c) is None);
    lemma_corner_is_valid_field(b, color, c);
    let vf = valid_fields_spec(b, color);
    let k = choose|k: int| 0 <= k < vf.len() && vf[k] == c;
    assert(0 <= t[j].0 && t[j].0 <= max_x0(t));
    assert(0 <= t[j].1 && t[j].1 <= max_y0(t));
    assert(around(p.position, vf[k], max_x0(t), max_y0(t)));
}

/// Whether the bounding box of `p` holds a field where a piece of its colour
/// may touch the colour by a corner.
pub open spec fn near_corner(s: GameState, p: Piece) -> bool {
    exists|i: int|
        0 <= i < valid_fields_spec(s.board, p.color).len() && around(
            p.position,
            #[trigger] valid_fields_spec(s.board, p.color)[i],
            max_x0(piece_shape_cells(p)),
            max_y0(piece_shape_cells(p)),
        )
}

/// Whether `p` is a valid piece of the colour on turn, of an undeployed
/// shape, in the orientation of one of the shape's variants, whose bounding
/// box holds a field next to the colour by a corner.
pub open spec fn normal_candidate(s: GameState, p: Piece) -> bool {
    &&& p.color == current_color_spec(s)
    &&& undeployed_spec(s, p.color).contains(p.kind)
    &&& is_variant_rep(p.kind, p.rotation, p.is_flipped)
    &&& piece_fits(p)
    &&& set_move_mistake(s, p) is None
    &&& near_corner(s, p)
}

/// Whether `m` places a piece that `normal_candidate` admits.
pub open spec fn listed_normal(s: GameState, m: Move) -> bool {
    m matches Move::SetMove { piece } && normal_candidate(s, piece)
}

/// Every move of `b` is already in `a` or places the piece of the given
/// colour, shape and orientation so that its bounding box, `mx` wide and
/// `my` high beyond its position, holds one of `fields`.
pub open spec fn added_near(
    a: Seq<Move>,
    b: Seq<Move>,
    color: Color,
    kind: PieceShape,
    r: Rotation,
    f: bool,
    fields: Seq<Coordinates>,
    mx: int,
    my: int,
) -> bool {
    forall|m: Move|
        #[trigger] b.contains(m) ==> a.contains(m) || (m matches Move::SetMove { piece }
            && piece.color == color && piece.kind == kind && piece.rotation == r
            && piece.is_flipped == f && exists|kk: int|
            0 <= kk < fields.len() && around(piece.position, #[trigger] fields[kk], mx, my))
}

/// Valid moves of an undeployed shape added near the corner fields keep
/// every listed move a normal candidate.
proof fn lemma_listed_normal_step(
    s: GameState,
    a: Seq<Move>,
    b: Seq<Move>,
    kind: PieceShape,
    r: Rotation,
    f: bool,
)
    requires
        forall|k: int| 0 <= k < a.len() ==> listed_normal(s, #[trigger] a[k]),
        added_near(
            a,
            b,
            current_color_spec(s),
            kind,
            r,
            f,
            valid_fields_spec(s.board, current_color_spec(s)),
            max_x0(transform_spec(kind, r, f)),
            max_y0(transform_spec(kind, r, f)),
        ),
        good_moves(s, b),
        undeployed_spec(s, current_color_spec(s)).contains(kind),
        is_variant_rep(kind, r, f),
    ensures
        forall|k: int| 0 <= k < b.len() ==> listed_normal(s, #[trigger] b[k]),
{
    assert forall|k: int| 0 <= k < b.len() implies listed_normal(s, #[trigger] b[k]) by {
        let m = b[k];
        assert(b.contains(m));
        if a.contains(m) {
            let j = choose|j: int| 0 <= j < a.len() && a[j] == m;
            assert(listed_normal(s, a[j]));
        } else {
            assert(valid_placement(s, b[k]));
            if let Move::SetMove { piece } = m {
                let kk = choose|kk: int|
                    0 <= kk < valid_fields_spec(s.board, current_color_spec(s)).len() && around(
                        piece.position,
                        #[trigger] valid_fields_spec(s.board, current_color_spec(s))[kk],
                        max_x0(transform_spec(kind, r, f)),
                        max_y0(transform_spec(kind, r, f)),
                    );
                assert(near_corner(s, piece));
            }
        }
    }
}

/// Whether `p` is a valid piece of `color` near a corner field whose shape
/// is among the first `i` of `kinds`.
pub open spec fn normal_target(s: GameState, color: Color, kinds: Seq<PieceShape>, i: int, p: Piece) -> bool {
    &&& p.color == color
    &&& exists|k: int| 0 <= k < i && #[trigger] kinds[k] == p.kind
    &&& is_variant_rep(p.kind, p.rotation, p.is_flipped)
    &&& piece_fits(p)
    &&& set_move_mistake(s, p) is None
    &&& near_corner(s, p)
}

/// Whether `p` is a valid piece of `color` and shape `kind` near a corner
/// field whose orientation is that of one of the first `j` entries of `vs`.
pub open spec fn variant_target(s: GameState, color: Color, kind: PieceShape, vs: Seq<ShapeVariant>, j: int, p: Piece) -> bool {
    &&& p.color == color
    &&& p.kind == kind
    &&& exists|k: int| 0 <= k < j && (#[trigger] vs[k]).rotation == p.rotation && vs[k].is_flipped == p.is_flipped
    &&& piece_fits(p)
    &&& set_move_mistake(s, p) is None
    &&& near_corner(s, p)
}

/// Adds the valid later pieces of `color`, shape `kind` and the given
/// orientation whose bounding box contains one of `fields`.
fn add_variant_normal(
    state: &GameState,
    kind: PieceShape,
    color: Color,
    variant: &ShapeVariant,
    fields: &Vec<Coordinates>,
    out: &mut Vec<Move>,
)
    requires
        is_variant_rep(kind, variant.rotation, variant.is_flipped),
        variant.shape@ == transform_spec(kind, variant.rotation, variant.is_flipped),
        fields@ == valid_fields_spec(state.board, color),
        forall|k: int| 0 <= k < fields@.len() ==> on_board(#[trigger] fields@[k]),
        good_moves(*state, old(out)@),
    ensures
        good_moves(*state, final(out)@),
        grows(old(out)@, final(out)@),
        forall|p: Piece|
            p.color == color && p.kind == kind && p.rotation == variant.rotation && p.is_flipped
                == variant.is_flipped && piece_fits(p) && near_corner(*state, p)
                ==> #[trigger] covered(*state, final(out)@, p),
        added_near(
            old(out)@,
            final(out)@,
            color,
            kind,
            variant.rotation,
            variant.is_flipped,
            fields@,
            max_x0(transform_spec(kind, variant.rotation, variant.is_flipped)),
            max_y0(transform_spec(kind, variant.rotation, variant.is_flipped)),
        ),
        final(out)@ == extend_valid(
            *state,
            old(out)@,
            fields_seq(
                color,
                kind,
                variant.rotation,
                variant.is_flipped,
                fields@,
                max_x0(transform_spec(kind, variant.rotation, variant.is_flipped)),
                max_y0(transform_spec(kind, variant.rotation, variant.is_flipped)),
                fields@.len() as int,
            ),
        ),
{
    let rotation = variant.rotation;
    let is_flipped = variant.is_flipped;
    proof {
        lemma_transform_cells(kind, rotation, is_flipped);
        lemma_small_extent(variant.shape@);
    }
    let (max_dx, max_dy) = bbox(variant.shape.as_slice());
    let mut k: usize = 0;
    while k < fields.len()
        invariant
            k <= fields@.len(),
            rotation == variant.rotation,
            is_flipped == variant.is_flipped,
            max_dx == max_x0(transform_spec(kind, rotation, is_flipped)),
            max_dy == max_y0(transform_spec(kind, rotation, is_flipped)),
            0 <= max_dx <= 8,
            0 <= max_dy <= 8,
            is_variant_rep(kind, rotation, is_flipped),
            forall|kk: int| 0 <= kk < fields@.len() ==> on_board(#[trigger] fields@[kk]),
            good_moves(*state, out@),
            grows(old(out)@, out@),
            forall|p: Piece|
                p.color == color && p.kind == kind && p.rotation == rotation && p.is_flipped
                    == is_flipped && (exists|kk: int| 0 <= kk < k && around(p.position, #[trigger] fields@[kk], max_dx as int, max_dy as int))
                    ==> #[trigger] covered(*state, out@, p),
            added_near(old(out)@, out@, color, kind, rotation, is_flipped, fields@, max_dx as int, max_dy as int),
            out@ == extend_valid(
                *state,
                old(out)@,
                fields_seq(color, kind, rotation, is_flipped, fields@, max_dx as int, max_dy as int, k as int),
            ),
        decreases fields@.len() - k,
    {
        let ghost before = out@;
        let field = fields[k];
        add_around(state, kind, color, rotation, is_flipped, field, max_dx, max_dy, out);
        proof {
            lemma_extend_concat(
                *state,
                old(out)@,
                fields_seq(color, kind, rotation, is_flipped, fields@, max_dx as int, max_dy as int, k as int),
                block_seq(color, kind, rotation, is_flipped, field.x - max_dx, field.y - max_dy, max_dy + 1, max_dx + 1),
            );
            assert forall|p: Piece|
                p.color == color && p.kind == kind && p.rotation == rotation && p.is_flipped
                    == is_flipped && (exists|kk: int| 0 <= kk < k + 1 && around(p.position, #[trigger] fields@[kk], max_dx as int, max_dy as int))
                    implies #[trigger] covered(*state, out@, p) by {
                let kk = choose|kk: int| 0 <= kk < k + 1 && around(p.position, #[trigger] fields@[kk], max_dx as int, max_dy as int);
                let m = Move::SetMove { piece: p };
                if kk < k {
                    assert(covered(*state, before, p));
                    assert(before.contains(m) ==> out@.contains(m));
                } else {
                    let x = p.position.x as int;
                    let y = p.position.y as int;
                    assert(p == placed(color, kind, rotation, is_flipped, x, y));
                    assert(covered(*state, out@, placed(color, kind, rotation, is_flipped, x, y)));
                }
            }
            assert forall|mm: Move| #[trigger] old(out)@.contains(mm) implies out@.contains(mm) by {
                assert(before.contains(mm));
            }
            assert forall|mm: Move| #[trigger] out@.contains(mm) implies old(out)@.contains(mm) || (mm matches Move::SetMove { piece }
                && piece.color == color && piece.kind == kind && piece.rotation == rotation
                && piece.is_flipped == is_flipped && exists|kk: int|
                0 <= kk < fields@.len() && around(piece.position, #[trigger] fields@[kk], max_dx as int, max_dy as int)) by {
                if !before.contains(mm) {
                    if let Move::SetMove { piece } = mm {
                        assert(around(piece.position, fields@[k as int], max_dx as int, max_dy as int));
                    }
                }
            }
        }
        k = k + 1;
    }
    proof {
        assert forall|p: Piece|
            p.color == color && p.kind == kind && p.rotation == rotation && p.is_flipped
                == is_flipped && piece_fits(p) && near_corner(*state, p)
                implies #[trigger] covered(*state, out@, p) by {
            if set_move_mistake(*state, p) is None {
                let i = choose|i: int|
                    0 <= i < valid_fields_spec(state.board, p.color).len() && around(
                        p.position,
                        #[trigger] valid_fields_spec(state.board, p.color)[i],
                        max_x0(piece_shape_cells(p)),
                        max_y0(piece_shape_cells(p)),
                    );
                assert(around(p.position, fields@[i], max_dx as int, max_dy as int));
            }
        }
    }
}

/// All valid Set moves of undeployed shapes near the colour's corner
/// fields, each listed once; after a colour's first move these are all its
/// valid moves.
pub fn possible_moves_normal(state: &GameState) -> (r: Vec<Move>)
    ensures
        good_moves(*state, r@),
        forall|k: int| 0 <= k < r@.len() ==> listed_normal(*state, #[trigger] r@[k]),
        forall|p: Piece| #[trigger] normal_candidate(*state, p) ==> r@.contains(Move::SetMove { piece: p }),
        !first_move_spec(*state, current_color_spec(*state)) ==> forall|m: Move|
            #[trigger] valid_placement(*state, m) ==> r@.contains(m),
        r@ == extend_valid(
            *state,
            Seq::empty(),
            kinds_seq(
                current_color_spec(*state),
                undeployed_spec(*state, current_color_spec(*state)),
                valid_fields_spec(state.board, current_color_spec(*state)),
                undeployed_spec(*state, current_color_spec(*state)).len() as int,
            ),
        ),
{
    let color = state.current_color();
    let valid_fields = state.board.valid_fields(color);
    proof {
        lemma_valid_fields_on_board(state.board, color);
    }
    let kinds = state.undeployed(color);
    let mut out: Vec<Move> = Vec::new();
    let mut i: usize = 0;
    while i < kinds.len()
        invariant
            i <= kinds@.len(),
            color == current_color_spec(*state),
            kinds@ == undeployed_spec(*state, color),
            valid_fields@ == valid_fields_spec(state.board, color),
            forall|k: int| 0 <= k < valid_fields@.len() ==> on_board(#[trigger] valid_fields@[k]),
            good_moves(*state, out@),
            forall|k: int| 0 <= k < out@.len() ==> listed_normal(*state, #[trigger] out@[k]),
            forall|p: Piece| #[trigger] normal_target(*state, color, kinds@, i as int, p) ==> out@.contains(Move::SetMove { piece: p }),
            out@ == extend_valid(*state, Seq::empty(), kinds_seq(color, kinds@, valid_fields@, i as int)),
        decreases kinds@.len() - i,
    {
        let kind = kinds[i];
        let variants = kind.variants();
        let ghost at_kind = out@;
        let mut j: usize = 0;
        while j < variants.len()
            invariant
                i < kinds@.len(),
                j <= variants@.len(),
                kind == kinds@[i as int],
                color == current_color_spec(*state),
                kinds@ == undeployed_spec(*state, color),
                valid_fields@ == valid_fields_spec(state.board, color),
                forall|k: int| 0 <= k < valid_fields@.len() ==> on_board(#[trigger] valid_fields@[k]),
                variants@.len() == variants_spec(kind).len(),
                forall|k: int| 0 <= k < variants@.len() ==> #[trigger] variants@[k]@ == variants_spec(kind)[k],
                good_moves(*state, out@),
                forall|k: int| 0 <= k < out@.len() ==> listed_normal(*state, #[trigger] out@[k]),
                grows(at_kind, out@),
                forall|p: Piece| #[trigger] variant_target(*state, color, kind, variants@, j as int, p) ==> out@.contains(Move::SetMove { piece: p }),
                at_kind == extend_valid(*state, Seq::empty(), kinds_seq(color, kinds@, valid_fields@, i as int)),
                out@ == extend_valid(*state, at_kind, variants_seq(color, kind, valid_fields@, j as int)),
            decreases variants@.len() - j,
        {
            let variant = &variants[j];
            proof {
                lemma_variants_upto(kind, 8);
            }
            assert(variants@[j as int]@ == variants_spec(kind)[j as int]);
            assert(is_variant_rep(kind, variant.rotation, variant.is_flipped));
            let ghost before = out@;
            add_variant_normal(state, kind, color, variant, &valid_fields, &mut out);
            proof {
                let t = transform_spec(kind, variant.rotation, variant.is_flipped);
                lemma_extend_concat(
                    *state,
                    at_kind,
                    variants_seq(color, kind, valid_fields@, j as int),
                    fields_seq(color, kind, variant.rotation, variant.is_flipped, valid_fields@, max_x0(t), max_y0(t), valid_fields@.len() as int),
                );
                assert(variants_seq(color, kind, valid_fields@, j + 1) == variants_seq(color, kind, valid_fields@, j as int)
                    + fields_seq(color, kind, variant.rotation, variant.is_flipped, valid_fields@, max_x0(t), max_y0(t), valid_fields@.len() as int));
                assert(variant.shape@ == transform_spec(kind, variant.rotation, variant.is_flipped));
                assert(kinds@.contains(kind));
                lemma_listed_normal_step(*state, before, out@, kind, variant.rotation, variant.is_flipped);
                assert forall|p: Piece| #[trigger] variant_target(*state, color, kind, variants@, j + 1, p) implies out@.contains(Move::SetMove { piece: p }) by {
                    let k = choose|k: int| 0 <= k < j + 1 && (#[trigger] variants@[k]).rotation == p.rotation && variants@[k].is_flipped == p.is_flipped;
                    if k < j {
                        assert(variant_target(*state, color, kind, variants@, j as int, p));
                        assert(before.contains(Move::SetMove { piece: p }));
                    } else {
                        assert(covered(*state, out@, p));
                    }
                }
                assert forall|mm: Move| #[trigger] at_kind.contains(mm) implies out@.contains(mm) by {
                    assert(before.contains(mm));
                }
            }
            j = j + 1;
        }
        proof {
            lemma_extend_concat(
                *state,
                Seq::empty(),
                kinds_seq(color, kinds@, valid_fields@, i as int),
                variants_seq(color, kind, valid_fields@, variants_spec(kind).len() as int),
            );
            assert(kinds_seq(color, kinds@, valid_fields@, i + 1) == kinds_seq(color, kinds@, valid_fields@, i as int)
                + variants_seq(color, kind, valid_fields@, variants_spec(kind).len() as int));
            assert forall|p: Piece| #[trigger] normal_target(*state, color, kinds@, i + 1, p) implies out@.contains(Move::SetMove { piece: p }) by {
                let k = choose|k: int| 0 <= k < i + 1 && #[trigger] kinds@[k] == p.kind;
                if k < i {
                    assert(normal_target(*state, color, kinds@, i as int, p));
                    assert(at_kind.contains(Move::SetMove { piece: p }));
                } else {
                    let kv = choose|kv: int| 0 <= kv < variants_spec(p.kind).len() && (#[trigger] variants_spec(p.kind)[kv]).0 == p.rotation && variants_spec(p.kind)[kv].1 == p.is_flipped;
                    assert(variants@[kv]@ == variants_spec(kind)[kv]);
                    assert(variant_target(*state, color, kind, variants@, j as int, p));
                }
            }
        }
        i = i + 1;
    }
    proof {
        assert forall|p: Piece| #[trigger] normal_candidate(*state, p) implies out@.contains(Move::SetMove { piece: p }) by {
            let k = choose|k: int| 0 <= k < kinds@.len() && kinds@[k] == p.kind;
            assert(normal_target(*state, color, kinds@, i as int, p));
        }
        assert forall|m: Move| !first_move_spec(*state, current_color_spec(*state)) && #[trigger] valid_placement(*state, m) implies out@.contains(m) by {
            if let Move::SetMove { piece } = m {
                assert(undeployed_spec(*state, color).contains(piece.kind));
                lemma_normal_position(*state, piece);
                assert(normal_candidate(*state, piece));
            }
        }
    }
    out
}

/// Every valid field is on the board.
pub proof fn lemma_valid_fields_on_board(b: Board, color: Color)
    ensures
        forall|k: int| 0 <= k < valid_fields_spec(b, color).len() ==> on_board(#[trigger] valid_fields_spec(b, color)[k]),
{
    lemma_valid_fields_of_on_board(b, color, colored_spec(b, content_of(color)));
}

/// Every valid corner is on the board.
pub proof fn lemma_valid_corners_on_board(b: Board, color: Color, ds: Seq<Coordinates>)
    ensures
        forall|k: int| 0 <= k < valid_corners(b, color, ds).len() ==> on_board(#[trigger] valid_corners(b, color, ds)[k]),
    decreases ds.len(),
{
    if ds.len() > 0 {
        lemma_valid_corners_on_board(b, color, ds.drop_last());
        let prev = valid_corners(b, color, ds.drop_last());
        let v = valid_corners(b, color, ds);
        assert forall|k: int| 0 <= k < v.len() implies on_board(#[trigger] v[k]) by {
            if k < prev.len() {
                assert(v[k] == prev[k]);
            }
        }
    }
}

/// Every valid field of the cells is on the board.
pub proof fn lemma_valid_fields_of_on_board(b: Board, color: Color, cs: Seq<Coordinates>)
    ensures
        forall|k: int| 0 <= k < valid_fields_of(b, color, cs).len() ==> on_board(#[trigger] valid_fields_of(b, color, cs)[k]),
    decreases cs.len(),
{
    if cs.len() > 0 {
        lemma_valid_fields_of_on_board(b, color, cs.drop_last());
        let prev = valid_fields_of(b, color, cs.drop_last());
        let last = valid_corners(b, color, diagonal_neighbors_spec(cs.last()));
        lemma_valid_corners_on_board(b, color, diagonal_neighbors_spec(cs.last()));
        let v = valid_fields_of(b, color, cs);
        assert forall|k: int| 0 <= k < v.len() implies on_board(#[trigger] v[k]) by {
            if k < prev.len() {
                assert(v[k] == prev[k]);
            } else {
                assert(v[k] == last[k - prev.len()]);
            }
        }
    }
}

/// All valid Set moves the current color can play this turn (each listed once),
/// or an empty list if none.
pub fn possible_moves(state: &GameState) -> (r: Vec<Move>)
    ensures
        good_moves(*state, r@),
        forall|m: Move| #[trigger] valid_placement(*state, m) ==> r@.contains(m),
        r@ == listed_moves(*state),
{
    if state.is_first_move_for(state.current_color()) {
        possible_start_moves(state)
    } else {
        possible_moves_normal(state)
    }
}

/// The possible moves; if there are none, a single Skip move of the current color.
pub fn sensible_moves(state: &GameState) -> (r: Vec<Move>)
    ensures
        (exists|m: Move| #[trigger] valid_placement(*state, m)) ==> good_moves(*state, r@) && forall|m: Move| #[trigger] valid_placement(*state, m) ==> r@.contains(m),
        !(exists|m: Move| #[trigger] valid_placement(*state, m)) ==> r@ == seq![Move::Skip { color: current_color_spec(*state) }],
        r@ == if listed_moves(*state).len() > 0 {
            listed_moves(*state)
        } else {
            seq![Move::Skip { color: current_color_spec(*state) }]
        },
{
    let moves = possible_moves(state);
    if moves.len() == 0 {
        proof {
            assert forall|m: Move| !#[trigger] valid_placement(*state, m) by {
                if valid_placement(*state, m) {
                    assert(moves@.contains(m));
                }
            }
        }
        let mut v: Vec<Move> = Vec::new();
        v.push(Move::Skip { color: state.current_color() });
        v
    } else {
        proof {
            assert(valid_placement(*state, moves@[0]));
        }
        moves
    }
}


// ___ Colours that are out of moves ___

/// `s` with the turn counter at the first turn of colour `c`, so that `c` is
/// on turn and nothing else changes.
pub open spec fn on_turn(s: GameState, c: Color) -> GameState {
    GameState { turn: color_index(c) as u32, ..s }
}

/// Whether colour `c` could place some piece in `s`, were it on turn.
pub open spec fn can_place(s: GameState, c: Color) -> bool {
    exists|p: Piece|
        p.color == c && piece_fits(p) && #[trigger] set_move_mistake(on_turn(s, c), p) is None
}

/// Whether placing is possible depends only on the board, the start piece
/// and the undeployed lists.
pub proof fn lemma_can_place_same(a: GameState, b: GameState)
    requires
        a.board == b.board,
        a.start_piece == b.start_piece,
        a.blue_shapes == b.blue_shapes,
        a.yellow_shapes == b.yellow_shapes,
        a.red_shapes == b.red_shapes,
        a.green_shapes == b.green_shapes,
    ensures
        forall|c: Color| #[trigger] can_place(a, c) == can_place(b, c),
{
    assert forall|c: Color| #[trigger] can_place(a, c) == can_place(b, c) by {
        assert forall|p: Piece| #[trigger] set_move_mistake(on_turn(a, c), p) == set_move_mistake(
            on_turn(b, c),
            p,
        ) by {
            assert(undeployed_spec(on_turn(a, c), p.color) == undeployed_spec(on_turn(b, c), p.color));
        }
        if can_place(a, c) {
            let p = choose|p: Piece|
                p.color == c && piece_fits(p) && #[trigger] set_move_mistake(on_turn(a, c), p) is None;
            assert(set_move_mistake(on_turn(b, c), p) is None);
        }
        if can_place(b, c) {
            let p = choose|p: Piece|
                p.color == c && piece_fits(p) && #[trigger] set_move_mistake(on_turn(b, c), p) is None;
            assert(set_move_mistake(on_turn(a, c), p) is None);
        }
    }
}

/// Whether colour `c` has a legal Set move in `state`, were it on turn.
fn color_can_place(state: &mut GameState, c: Color) -> (r: bool)
    ensures
        *final(state) == *old(state),
        r == can_place(*old(state), c),
{
    let turn = state.turn;
    state.turn = match c {
        Color::Blue => 0,
        Color::Yellow => 1,
        Color::Red => 2,
        Color::Green => 3,
    };
    let ghost st = *state;
    assert(st == on_turn(*old(state), c));
    assert(color_of(color_index(c)) == c);
    let moves = possible_moves(state);
    let r = moves.len() > 0;
    proof {
        if r {
            assert(valid_placement(st, moves@[0]));
            if let Move::SetMove { piece } = moves@[0] {
                assert(piece.color == c);
                assert(set_move_mistake(on_turn(*old(state), c), piece) is None);
            }
        } else if can_place(*old(state), c) {
            let p = choose|p: Piece|
                p.color == c && piece_fits(p) && #[trigger] set_move_mistake(on_turn(*old(state), c), p) is None;
            law_generation_complete(st, p, moves@);
        }
    }
    state.turn = turn;
    r
}

/// Removes from `valid_colors` every colour that cannot place any piece any
/// more, keeping the order of the others; nothing else changes.
pub fn remove_valid_colors(state: &mut GameState)
    ensures
        final(state).valid_colors@ == old(state).valid_colors@.filter(
            |c: Color| can_place(*old(state), c),
        ),
        *final(state) == (GameState { valid_colors: final(state).valid_colors, ..*old(state) }),
{
    let ghost s0 = *state;
    let ghost keep = |c: Color| can_place(s0, c);
    let mut kept: Vec<Color> = Vec::new();
    let mut i: usize = 0;
    while i < state.valid_colors.len()
        invariant
            *state == s0,
            i <= s0.valid_colors@.len(),
            keep == (|c: Color| can_place(s0, c)),
            kept@ == s0.valid_colors@.take(i as int).filter(keep),
        decreases s0.valid_colors@.len() - i,
    {
        let c = state.valid_colors[i];
        let ok = color_can_place(state, c);
        proof {
            reveal_with_fuel(Seq::<Color>::filter, 1);
            assert(s0.valid_colors@.take(i + 1).drop_last() =~= s0.valid_colors@.take(i as int));
        }
        if ok {
            kept.push(c);
        }
        i = i + 1;
    }
    assert(s0.valid_colors@.take(s0.valid_colors@.len() as int) =~= s0.valid_colors@);
    state.valid_colors = kept;
}


/// Removing the colours that are out of moves and then advancing keeps
/// exactly the colours of before that can still place a piece; while one is
/// left and the turn counter has room, the colour put on turn has a valid
/// placement, so `possible_moves` lists a move for it.
pub proof fn law_removal_leaves_a_move(s: GameState, s1: GameState, t: GameState)
    requires
        s1.valid_colors@ == s.valid_colors@.filter(|c: Color| can_place(s, c)),
        s1 == (GameState { valid_colors: s1.valid_colors, ..s }),
        t == with_turn(s1, advance_spec(s1.valid_colors@, s1.turn).0),
        s.turn + 4 <= u32::MAX,
    ensures
        forall|c: Color|
            #[trigger] t.valid_colors@.contains(c) <==> s.valid_colors@.contains(c) && can_place(s, c),
        t.valid_colors@.len() > 0 ==> exists|mv: Move| #[trigger] valid_placement(t, mv),
{
    let f = |c: Color| can_place(s, c);
    let vc = s.valid_colors@;
    assert(t.valid_colors@ == vc.filter(f));
    lemma_can_place_same(s, t);
    assert forall|c: Color| #[trigger] t.valid_colors@.contains(c) <==> vc.contains(c) && can_place(s, c) by {
        if t.valid_colors@.contains(c) {
            let i = choose|i: int| 0 <= i < vc.filter(f).len() && vc.filter(f)[i] == c;
            vc.lemma_filter_pred(f, i);
            vc.lemma_filter_contains_rev(f, c);
        }
        if vc.contains(c) && can_place(s, c) {
            let j = choose|j: int| 0 <= j < vc.len() && vc[j] == c;
            vc.lemma_filter_contains(f, j);
        }
    }
    if t.valid_colors@.len() > 0 {
        law_advance(vc.filter(f), s.turn);
        let c = current_color_spec(t);
        assert(t.valid_colors@.contains(c));
        assert(can_place(t, c));
        let p = choose|p: Piece|
            p.color == c && piece_fits(p) && #[trigger] set_move_mistake(on_turn(t, c), p) is None;
        assert(color_of(color_index(c)) == c);
        assert(set_move_mistake(t, p) is None);
        if !exists|mv: Move| #[trigger] valid_placement(t, mv) {
            law_generation_complete(t, p, Seq::empty());
        }
    }
}

/// A board cell touches `color` at a side exactly when one of the four cells
/// above, below, left and right of it is on the board and holds `color`.
pub proof fn law_side_contact(b: Board, color: Color, p: Coordinates)
    requires
        on_board(p),
    ensures
        b.borders_spec(p, color) <==> ((in_board(p.x as int, p.y - 1) && b.cell(p.x as int, p.y - 1)
            == content_of(color)) || (in_board(p.x as int, p.y + 1) && b.cell(p.x as int, p.y + 1)
            == content_of(color)) || (in_board(p.x - 1, p.y as int) && b.cell(p.x - 1, p.y as int)
            == content_of(color)) || (in_board(p.x + 1, p.y as int) && b.cell(p.x + 1, p.y as int)
            == content_of(color))),
{
    let n = crate::neutral::neighbors_spec(p);
    assert(n[0].x == p.x && n[0].y == p.y - 1);
    assert(n[1].x == p.x && n[1].y == p.y + 1);
    assert(n[2].x == p.x - 1 && n[2].y == p.y);
    assert(n[3].x == p.x + 1 && n[3].y == p.y);
    if (in_board(p.x as int, p.y - 1) && b.cell(p.x as int, p.y - 1) == content_of(color)) {
        assert(on_board(n[0]));
    }
    if (in_board(p.x as int, p.y + 1) && b.cell(p.x as int, p.y + 1) == content_of(color)) {
        assert(on_board(n[1]));
    }
    if (in_board(p.x - 1, p.y as int) && b.cell(p.x - 1, p.y as int) == content_of(color)) {
        assert(on_board(n[2]));
    }
    if (in_board(p.x + 1, p.y as int) && b.cell(p.x + 1, p.y as int) == content_of(color)) {
        assert(on_board(n[3]));
    }
}

/// A piece one of whose cells has a side neighbour `(x, y)` on the board that
/// holds the piece's own colour is refused; if everything else about it is
/// fine, the refusal is `TouchesSameColor`.
pub proof fn law_side_contact_refused(s: GameState, p: Piece, i: int, x: int, y: int)
    requires
        0 <= i < piece_cells(p).len(),
        in_board(x, y),
        s.board.cell(x, y) == content_of(p.color),
        ({
            let c = piece_cells(p)[i];
            (x == c.x && (y == c.y - 1 || y == c.y + 1)) || (y == c.y && (x == c.x - 1 || x == c.x + 1))
        }),
    ensures
        set_move_mistake(s, p) is Some,
        on_board(piece_cells(p)[i]) && s.board.at(piece_cells(p)[i]) == FieldContent::Empty
            ==> cell_mistake(s.board, p.color, piece_cells(p)[i]) == Some(BlokusMoveMistake::TouchesSameColor),
{
    let c = piece_cells(p)[i];
    if on_board(c) {
        law_side_contact(s.board, p.color, c);
    }
    if set_move_mistake(s, p) is None {
        lemma_first_cell_none(s.board, p.color, piece_cells(p));
        assert(cell_mistake(s.board, p.color, c) is None);
    }
}

/// The border is the board's outer ring, alike on all four sides: it is kept
/// by mirroring the board left to right or top to bottom and by swapping rows
/// with columns; the cells of the first column are on it and the inner cells
/// are not.
pub proof fn law_border_ring(c: Coordinates)
    requires
        on_board(c),
    ensures
        border_cell(c) == border_cell(Coordinates { x: (BOARD_LENGTH - 1 - c.x) as i32, y: c.y }),
        border_cell(c) == border_cell(Coordinates { x: c.x, y: (BOARD_LENGTH - 1 - c.y) as i32 }),
        border_cell(c) == border_cell(Coordinates { x: c.y, y: c.x }),
        c.x == 0 ==> border_cell(c),
        1 <= c.x < BOARD_LENGTH - 1 && 1 <= c.y < BOARD_LENGTH - 1 ==> !border_cell(c),
{
}

/// On a colour's first move, the start piece placed on free cells that do
/// not touch its own colour at a side is valid as soon as one of its cells
/// lies in the first or last row or column; every list holding all valid
/// placements (as `possible_moves` returns) then places it, up to orientation.
pub proof fn law_first_placement_on_edge(s: GameState, p: Piece, i: int, out: Seq<Move>)
    requires
        piece_fits(p),
        p.color == current_color_spec(s),
        first_move_spec(s, p.color),
        p.kind == s.start_piece,
        forall|k: int| 0 <= k < piece_cells(p).len() ==> cell_mistake(s.board, p.color, #[trigger] piece_cells(p)[k]) is None,
        0 <= i < piece_cells(p).len(),
        piece_cells(p)[i].x == 0 || piece_cells(p)[i].y == 0 || piece_cells(p)[i].x == BOARD_LENGTH - 1
            || piece_cells(p)[i].y == BOARD_LENGTH - 1,
        forall|m: Move| #[trigger] valid_placement(s, m) ==> out.contains(m),
    ensures
        set_move_mistake(s, p) is None,
        exists|q: Piece|
            #![trigger out.contains(Move::SetMove { piece: q })]
            out.contains(Move::SetMove { piece: q }) && q.color == p.color && q.kind == p.kind
                && piece_cells(q).to_set() == piece_cells(p).to_set(),
{
    let cells = piece_cells(p);
    lemma_first_cell_all_none(s.board, p.color, cells);
    assert(border_cell(cells[i]));
    assert(touches_border(cells));
    law_generation_complete(s, p, out);
}

/// A listed move is accepted: every valid placement fits in `i32`
/// coordinates and has no mistake, so `validate_move` passes it and
/// `make_move` applies it.
pub proof fn law_listed_moves_accepted(s: GameState, m: Move)
    requires
        valid_placement(s, m),
    ensures
        move_fits(m),
        mistake_result(move_mistake(s, m)) == Ok::<(), BlokusMoveMistake>(()),
{
}

/// Where every cell is without mistake, no first mistake is found.
proof fn lemma_first_cell_all_none(b: Board, color: Color, cs: Seq<Coordinates>)
    requires
        forall|i: int| 0 <= i < cs.len() ==> cell_mistake(b, color, #[trigger] cs[i]) is None,
    ensures
        first_cell_mistake(b, color, cs) is None,
    decreases cs.len(),
{
    if cs.len() > 0 {
        assert forall|i: int| 0 <= i < cs.drop_last().len() implies cell_mistake(
            b,
            color,
            #[trigger] cs.drop_last()[i],
        ) is None by {
            assert(cs.drop_last()[i] == cs[i]);
        }
        lemma_first_cell_all_none(b, color, cs.drop_last());
        assert(cell_mistake(b, color, cs[cs.len() - 1]) is None);
    }
}

/// Two pieces at the same position whose shape cells form the same set
/// cover the same board cells.
proof fn lemma_same_cell_set(p: Piece, q: Piece)
    requires
        q.position == p.position,
        piece_shape_cells(q).to_set() == piece_shape_cells(p).to_set(),
    ensures
        forall|x: Coordinates| piece_cells(q).contains(x) ==> piece_cells(p).contains(x),
        forall|x: Coordinates| piece_cells(p).contains(x) ==> piece_cells(q).contains(x),
        forall|c: (i32, i32)| piece_shape_cells(q).contains(c) ==> piece_shape_cells(p).contains(c),
{
    let sq = piece_shape_cells(q);
    let sp = piece_shape_cells(p);
    assert forall|c: (i32, i32)| sq.contains(c) implies sp.contains(c) by {
        assert(sq.to_set().contains(c));
        assert(sp.to_set().contains(c));
    }
    assert forall|c: (i32, i32)| sp.contains(c) implies sq.contains(c) by {
        assert(sp.to_set().contains(c));
        assert(sq.to_set().contains(c));
    }
    assert forall|x: Coordinates| piece_cells(q).contains(x) implies piece_cells(p).contains(x) by {
        let i = choose|i: int| 0 <= i < piece_cells(q).len() && piece_cells(q)[i] == x;
        assert(sq.contains(sq[i]));
        let j = choose|j: int| 0 <= j < sp.len() && sp[j] == sq[i];
        assert(piece_cells(p)[j] == x);
    }
    assert forall|x: Coordinates| piece_cells(p).contains(x) implies piece_cells(q).contains(x) by {
        let i = choose|i: int| 0 <= i < piece_cells(p).len() && piece_cells(p)[i] == x;
        assert(sp.contains(sp[i]));
        let j = choose|j: int| 0 <= j < sq.len() && sq[j] == sp[i];
        assert(piece_cells(q)[j] == x);
    }
}

/// Placing a piece or another of the same colour and shape on the same set
/// of cells is equally valid.
proof fn lemma_same_cells_same_validity(s: GameState, p: Piece, q: Piece)
    requires
        q.color == p.color,
        q.kind == p.kind,
        q.position == p.position,
        piece_shape_cells(q).to_set() == piece_shape_cells(p).to_set(),
        piece_fits(p),
        set_move_mistake(s, p) is None,
    ensures
        piece_fits(q),
        set_move_mistake(s, q) is None,
{
    lemma_same_cell_set(p, q);
    let cp = piece_cells(p);
    let cq = piece_cells(q);
    let color = p.color;
    let first = first_move_spec(s, color);
    assert forall|i: int| 0 <= i < piece_shape_cells(q).len() implies p.position.x
        + #[trigger] piece_shape_cells(q)[i].0 <= i32::MAX && p.position.y
        + piece_shape_cells(q)[i].1 <= i32::MAX by {
        assert(piece_shape_cells(q).contains(piece_shape_cells(q)[i]));
        let j = choose|j: int|
            0 <= j < piece_shape_cells(p).len() && piece_shape_cells(p)[j] == piece_shape_cells(
                q,
            )[i];
        assert(p.position.x + piece_shape_cells(p)[j].0 <= i32::MAX);
    }
    lemma_first_cell_none(s.board, color, cp);
    assert forall|i: int| 0 <= i < cq.len() implies cell_mistake(s.board, color, #[trigger] cq[i])
        is None by {
        assert(cq.contains(cq[i]));
        let j = choose|j: int| 0 <= j < cp.len() && cp[j] == cq[i];
        assert(cell_mistake(s.board, color, cp[j]) is None);
    }
    lemma_first_cell_all_none(s.board, color, cq);
    if first {
        let i = choose|i: int| 0 <= i < cp.len() && border_cell(#[trigger] cp[i]);
        assert(cp.contains(cp[i]));
        let j = choose|j: int| 0 <= j < cq.len() && cq[j] == cp[i];
        assert(border_cell(cq[j]));
        assert(touches_border(cq));
    } else {
        let i = choose|i: int| 0 <= i < cp.len() && s.board.corners_spec(#[trigger] cp[i], color);
        assert(cp.contains(cp[i]));
        let j = choose|j: int| 0 <= j < cq.len() && cq[j] == cp[i];
        assert(s.board.corners_spec(cq[j], color));
        assert(shares_corner(s.board, color, cq));
    }
}

/// Every valid placement of a piece, in whatever rotation and flip, is
/// among the generated moves up to orientation: some generated move places
/// the same shape of the same colour on the same set of cells.
pub proof fn law_generation_complete(s: GameState, p: Piece, out: Seq<Move>)
    requires
        piece_fits(p),
        set_move_mistake(s, p) is None,
        forall|m: Move| #[trigger] valid_placement(s, m) ==> out.contains(m),
    ensures
        exists|q: Piece|
            #![trigger out.contains(Move::SetMove { piece: q })]
            out.contains(Move::SetMove { piece: q }) && q.color == p.color && q.kind == p.kind
                && piece_cells(q).to_set() == piece_cells(p).to_set(),
{
    crate::piece_shape::law_variants(p.kind);
    let t = transform_spec(p.kind, p.rotation, p.is_flipped);
    let k = choose|k: int|
        0 <= k < variants_spec(p.kind).len() && (#[trigger] variants_spec(p.kind)[k]).2.to_set()
            == t.to_set();
    let v = variants_spec(p.kind)[k];
    let q = Piece { rotation: v.0, is_flipped: v.1, ..p };
    assert(v.2 == transform_spec(p.kind, v.0, v.1));
    assert(piece_shape_cells(q).to_set() == piece_shape_cells(p).to_set());
    lemma_same_cells_same_validity(s, p, q);
    lemma_same_cell_set(p, q);
    assert(piece_cells(q).to_set() =~= piece_cells(p).to_set());
    assert(is_variant_rep(q.kind, q.rotation, q.is_flipped));
    assert(valid_placement(s, Move::SetMove { piece: q }));
    assert(out.contains(Move::SetMove { piece: q }));
}

} // verus!
