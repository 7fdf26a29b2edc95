//! Applying a move to a game state and taking it back again.
use vstd::prelude::*;

use crate::internal::{
    advance_spec, in_board, undeployed_spec, Board, GameState, BOARD_LENGTH, VALIDATE_MOVE,
};
use crate::neutral::{
    content_of, move_color, piece_cells, Color, Coordinates, FieldContent, Move, PieceShape,
};
use crate::piece_shape::{shape_at, shape_index};
use crate::rules::{
    cell_mistake, lemma_first_cell_none, move_fits, move_mistake, set_move_mistake,
    validate_move,
};
use crate::internal::on_board;

verus! {

/// Records enough to reverse a single Set/Skip move.
#[derive(Debug, Clone)]
pub struct MoveChange {
    pub color: Color,
    /// For Set: occupied cells (previously empty) we colored.
    pub set_cells: Vec<Coordinates>,
    /// The kind that was removed from this color's undeployed list, if any.
    pub kind_removed: Option<PieceShape>,
    /// Previous turn counter.
    pub prev_turn: u32,
    /// Previous `last_move` value.
    pub prev_last_move: Option<Move>,
    /// Number of turns that were advanced.
    pub turns_advanced: u32,
    /// Whether `last_move_mono` was modified and what the previous value was (if any).
    pub prev_mono_entry: Option<(Color, Option<bool>)>,
}

/// The board view with every on-board cell of `cells` set to `content`.
pub open spec fn paint_view(v: Seq<Seq<FieldContent>>, cells: Seq<Coordinates>, content: FieldContent) -> Seq<
    Seq<FieldContent>,
>
    decreases cells.len(),
{
    if cells.len() == 0 {
        v
    } else {
        let prev = paint_view(v, cells.drop_last(), content);
        let c = cells.last();
        if in_board(c.x as int, c.y as int) {
            prev.update(c.y as int, prev[c.y as int].update(c.x as int, content))
        } else {
            prev
        }
    }
}

/// The position of the first occurrence of `k` in `s` (`s.len()` if none).
pub open spec fn first_index(s: Seq<PieceShape>, k: PieceShape) -> int
    decreases s.len(),
{
    if s.len() == 0 {
        0
    } else if s[0] == k {
        0
    } else {
        1 + first_index(s.drop_first(), k)
    }
}

/// `s` without the first occurrence of `k`, if any.
pub open spec fn removed_first(s: Seq<PieceShape>, k: PieceShape) -> Seq<PieceShape> {
    if s.contains(k) {
        s.remove(first_index(s, k))
    } else {
        s
    }
}

/// How often `k` occurs in `s`.
pub open spec fn count_of(s: Seq<PieceShape>, k: PieceShape) -> nat
    decreases s.len(),
{
    if s.len() == 0 {
        0
    } else {
        count_of(s.drop_last(), k) + if s.last() == k {
            1nat
        } else {
            0nat
        }
    }
}

/// The occurrences in `s` of the shapes with ordinal below `n`, grouped by
/// ordinal in increasing order.
pub open spec fn sorted_upto(s: Seq<PieceShape>, n: nat) -> Seq<PieceShape>
    decreases n,
{
    if n == 0 {
        Seq::empty()
    } else {
        sorted_upto(s, (n - 1) as nat) + Seq::new(
            count_of(s, shape_at(n - 1)),
            |i: int| shape_at(n - 1),
        )
    }
}

/// `s` sorted by shape ordinal.
pub open spec fn sorted_by_index_spec(s: Seq<PieceShape>) -> Seq<PieceShape> {
    sorted_upto(s, 21)
}

/// The state after the valid move `m` was applied to `s`, and the change record.
pub open spec fn after_make(s: GameState, m: Move, t: GameState, ch: MoveChange) -> bool {
    let color = move_color(m);
    let adv = advance_spec(s.valid_colors@, s.turn);
    &&& t.start_piece == s.start_piece
    &&& t.valid_colors == s.valid_colors
    &&& t.turn == adv.0
    &&& t.last_move == Some(m)
    &&& ch.color == color
    &&& ch.prev_turn == s.turn
    &&& ch.prev_last_move == s.last_move
    &&& ch.turns_advanced == (if adv.0 >= s.turn {
        (adv.0 - s.turn) as u32
    } else {
        0u32
    })
    &&& forall|c: Color| c != color ==> #[trigger] undeployed_spec(t, c) == undeployed_spec(s, c)
    &&& match m {
        Move::SetMove { piece } => {
            let old_list = undeployed_spec(s, color);
            let new_list = removed_first(old_list, piece.kind);
            &&& t.board@ == paint_view(s.board@, piece_cells(piece), content_of(color))
            &&& ch.set_cells@ == piece_cells(piece)
            &&& undeployed_spec(t, color) == new_list
            &&& ch.kind_removed == (if old_list.contains(piece.kind) {
                Some(piece.kind)
            } else {
                None
            })
            &&& if new_list.len() == 0 {
                &&& t.last_move_mono@ == s.last_move_mono@.insert(
                    color,
                    piece.kind == PieceShape::Mono,
                )
                &&& ch.prev_mono_entry == Some(
                    (
                        color,
                        if s.last_move_mono@.contains_key(color) {
                            Some(s.last_move_mono@[color])
                        } else {
                            None
                        },
                    ),
                )
            } else {
                &&& t.last_move_mono@ == s.last_move_mono@
                &&& ch.prev_mono_entry is None
            }
        },
        Move::Skip { .. } => {
            &&& t.board@ == s.board@
            &&& ch.set_cells@.len() == 0
            &&& undeployed_spec(t, color) == undeployed_spec(s, color)
            &&& ch.kind_removed is None
            &&& t.last_move_mono@ == s.last_move_mono@
            &&& ch.prev_mono_entry is None
        },
    }
}

/// The state after the change record `ch` was taken back from `s`.
pub open spec fn after_unmake(s: GameState, ch: MoveChange, t: GameState) -> bool {
    let old_list = undeployed_spec(s, ch.color);
    &&& t.start_piece == s.start_piece
    &&& t.valid_colors == s.valid_colors
    &&& t.turn == ch.prev_turn
    &&& t.last_move == ch.prev_last_move
    &&& t.board@ == paint_view(s.board@, ch.set_cells@, FieldContent::Empty)
    &&& forall|c: Color| c != ch.color ==> #[trigger] undeployed_spec(t, c) == undeployed_spec(s, c)
    &&& undeployed_spec(t, ch.color) == match ch.kind_removed {
        Some(k) => if old_list.contains(k) {
            old_list
        } else {
            sorted_by_index_spec(old_list.push(k))
        },
        None => old_list,
    }
    &&& t.last_move_mono@ == match ch.prev_mono_entry {
        Some((c, Some(v))) => s.last_move_mono@.insert(c, v),
        Some((c, None)) => s.last_move_mono@.remove(c),
        None => s.last_move_mono@,
    }
}

/// The shape with the given ordinal.
pub fn shape_of_index(k: usize) -> (r: PieceShape)
    requires
        k < 21,
    ensures
        r == shape_at(k as int),
{
    PieceShape::ALL[k]
}

/// Every shape is the shape at its own ordinal, which lies in `0..21`.
pub proof fn lemma_shape_at_index(s: PieceShape)
    ensures
        shape_at(shape_index(s)) == s,
        0 <= shape_index(s) < 21,
{
}

/// Sorts the shapes by ordinal.
pub fn sort_by_index(v: &mut Vec<PieceShape>)
    ensures
        final(v)@ == sorted_by_index_spec(old(v)@),
{
    let mut counts: Vec<usize> = Vec::new();
    let mut k: usize = 0;
    while k < 21
        invariant
            k <= 21,
            counts@.len() == k,
            forall|j: int| 0 <= j < k ==> #[trigger] counts@[j] == 0,
        decreases 21 - k,
    {
        counts.push(0);
        k = k + 1;
    }
    let mut i: usize = 0;
    while i < v.len()
        invariant
            i <= v@.len(),
            v@ == old(v)@,
            counts@.len() == 21,
            forall|j: int| 0 <= j < 21 ==> #[trigger] counts@[j] == count_of(v@.take(i as int), shape_at(j)),
        decreases v@.len() - i,
    {
        let s = v[i];
        let idx = s.to_index();
        proof {
            lemma_shape_at_index(s);
            assert(v@.take(i + 1).drop_last() =~= v@.take(i as int));
            assert forall|j: int| 0 <= j < 21 implies count_of(v@.take(i as int), shape_at(j)) <= i by {
                lemma_count_le(v@.take(i as int), shape_at(j));
            }
        }
        let c = counts[idx];
        counts.set(idx, c + 1);
        i = i + 1;
    }
    assert(v@.take(v@.len() as int) =~= v@);
    let mut out: Vec<PieceShape> = Vec::new();
    let mut k: usize = 0;
    while k < 21
        invariant
            k <= 21,
            v@ == old(v)@,
            counts@.len() == 21,
            forall|j: int| 0 <= j < 21 ==> #[trigger] counts@[j] == count_of(v@, shape_at(j)),
            out@ == sorted_upto(v@, k as nat),
        decreases 21 - k,
    {
        let s = shape_of_index(k);
        let n = counts[k];
        let ghost base = out@;
        let mut c: usize = 0;
        while c < n
            invariant
                c <= n,
                out@ == base + Seq::new(c as nat, |j: int| shape_at(k as int)),
                s == shape_at(k as int),
            decreases n - c,
        {
            out.push(s);
            c = c + 1;
            assert(out@ =~= base + Seq::new(c as nat, |j: int| shape_at(k as int)));
        }
        assert(out@ =~= sorted_upto(v@, (k + 1) as nat));
        k = k + 1;
    }
    *v = out;
}

/// A shape occurs in a list at most as often as the list is long.
pub proof fn lemma_count_le(s: Seq<PieceShape>, k: PieceShape)
    ensures
        count_of(s, k) <= s.len(),
    decreases s.len(),
{
    if s.len() > 0 {
        lemma_count_le(s.drop_last(), k);
    }
}

/// The first index of `k` is the position `i` that holds it after none before.
pub proof fn lemma_first_index(s: Seq<PieceShape>, k: PieceShape, i: int)
    requires
        0 <= i < s.len(),
        s[i] == k,
        forall|j: int| 0 <= j < i ==> s[j] != k,
    ensures
        first_index(s, k) == i,
    decreases i,
{
    if i > 0 {
        lemma_first_index(s.drop_first(), k, i - 1);
    }
}

impl Move {
    /// Apply this move to `state`, returning the change record needed for `unmake_move`.
    /// The move is validated first; an invalid move leaves the state unchanged.
    /// The valid colours stay as they are, also those of a colour left without
    /// a legal placement: a position may be arranged between moves (a colour's
    /// shapes handed back before its turn, say), and such a colour still comes
    /// on turn. `remove_valid_colors` takes out the colours that are out of
    /// moves; `law_removal_leaves_a_move` says what that leaves.
    pub fn make_move(&self, state: &mut GameState) -> (r: Result<MoveChange, crate::neutral::BlokusMoveMistake>)
        requires
            move_fits(*self),
        ensures
            match move_mistake(*old(state), *self) {
                Some(e) => r == Err::<MoveChange, crate::neutral::BlokusMoveMistake>(e) && *final(state) == *old(state),
                None => r matches Ok(ch) && after_make(*old(state), *self, *final(state), ch),
            },
    {
        let color = self.color();
        if VALIDATE_MOVE {
            match validate_move(state, self) {
                Err(e) => {
                    return Err(e);
                },
                Ok(()) => {},
            }
        }
        let ghost s0 = *state;
        let prev_turn = state.turn;
        let prev_last_move = state.last_move;
        let mut set_cells: Vec<Coordinates> = Vec::new();
        let mut kind_removed: Option<PieceShape> = None;
        let mut prev_mono_entry: Option<(Color, Option<bool>)> = None;
        match self {
            Move::SetMove { piece } => {
                let coords = piece.coordinates();
                proof {
                    assert(set_move_mistake(s0, *piece) is None);
                    lemma_first_cell_none(s0.board, color, piece_cells(*piece));
                    assert forall|j: int| 0 <= j < coords@.len() implies on_board(#[trigger] coords@[j]) by {
                        assert(cell_mistake(s0.board, color, coords@[j]) is None);
                    }
                }
                let content = color.to_field_content();
                let mut i: usize = 0;
                while i < coords.len()
                    invariant
                        i <= coords@.len(),
                        coords@ == piece_cells(*piece),
                        content == content_of(color),
                        forall|j: int| 0 <= j < coords@.len() ==> on_board(#[trigger] coords@[j]),
                        state.board@ == paint_view(s0.board@, coords@.take(i as int), content),
                        set_cells@ == coords@.take(i as int),
                        *state == (GameState { board: state.board, ..s0 }),
                    decreases coords@.len() - i,
                {
                    let c = coords[i];
                    proof {
                        assert(coords@.take(i + 1).drop_last() =~= coords@.take(i as int));
                        assert(on_board(coords@[i as int]));
                    }
                    if Board::contains(c.x, c.y) {
                        state.board.set(c.x as usize, c.y as usize, content);
                        set_cells.push(c);
                    }
                    i = i + 1;
                }
                assert(coords@.take(coords@.len() as int) =~= coords@);
                let ghost s1 = *state;
                let list = state.undeployed(color);
                let mut idx: usize = 0;
                let mut found = false;
                while !found && idx < list.len()
                    invariant
                        idx <= list@.len(),
                        found ==> idx < list@.len() && list@[idx as int] == piece.kind,
                        forall|j: int| 0 <= j < idx ==> list@[j] != piece.kind,
                    decreases list@.len() - idx + (if found {
                        0int
                    } else {
                        1int
                    }),
                {
                    if list[idx] == piece.kind {
                        found = true;
                    } else {
                        idx = idx + 1;
                    }
                }
                let ghost old_list = undeployed_spec(s1, color);
                if found {
                    proof {
                        lemma_first_index(old_list, piece.kind, idx as int);
                        assert(old_list.contains(piece.kind));
                    }
                    let list_mut = state.undeployed_mut(color);
                    kind_removed = Some(list_mut.remove(idx));
                } else {
                    proof {
                        assert(!old_list.contains(piece.kind));
                    }
                }
                assert(undeployed_spec(*state, color) == removed_first(old_list, piece.kind));
                if state.undeployed(color).len() == 0 {
                    let prev = match state.last_move_mono.get(&color) {
                        Some(v) => Some(*v),
                        None => None,
                    };
                    prev_mono_entry = Some((color, prev));
                    state.last_move_mono.insert(color, piece.kind == PieceShape::Mono);
                }
            },
            Move::Skip { .. } => {},
        }
        let ghost s2 = *state;
        let _ = state.advance();
        state.last_move = Some(*self);
        let turns_advanced = state.turn.saturating_sub(prev_turn);
        Ok(
            MoveChange {
                color,
                set_cells,
                kind_removed,
                prev_turn,
                prev_last_move,
                turns_advanced,
                prev_mono_entry,
            },
        )
    }

    /// Reverse a previously applied move given the [`MoveChange`] record.
    pub fn unmake_move(state: &mut GameState, change: MoveChange)
        ensures
            after_unmake(*old(state), change, *final(state)),
    {
        let ghost s0 = *state;
        let mut i: usize = 0;
        while i < change.set_cells.len()
            invariant
                i <= change.set_cells@.len(),
                state.board@ == paint_view(s0.board@, change.set_cells@.take(i as int), FieldContent::Empty),
                *state == (GameState { board: state.board, ..s0 }),
            decreases change.set_cells@.len() - i,
        {
            let c = change.set_cells[i];
            proof {
                assert(change.set_cells@.take(i + 1).drop_last() =~= change.set_cells@.take(i as int));
            }
            if Board::contains(c.x, c.y) {
                state.board.set(c.x as usize, c.y as usize, FieldContent::Empty);
            }
            i = i + 1;
        }
        assert(change.set_cells@.take(change.set_cells@.len() as int) =~= change.set_cells@);
        // Restore the undeployed list: re-insert the kind in canonical position.
        if let Some(kind) = change.kind_removed {
            let list = state.undeployed_mut(change.color);
            let mut present = false;
            let mut k: usize = 0;
            while k < list.len()
                invariant
                    k <= list@.len(),
                    present == exists|j: int| 0 <= j < k && list@[j] == kind,
                decreases list@.len() - k,
            {
                if list[k] == kind {
                    present = true;
                }
                k = k + 1;
            }
            if !present {
                list.push(kind);
                // Re-sort to canonical PieceShape::ALL order so make/unmake is stable.
                sort_by_index(list);
            }
        }
        // Restore last_move_mono entry.
        if let Some((color, prev)) = change.prev_mono_entry {
            match prev {
                Some(value) => {
                    state.last_move_mono.insert(color, value);
                },
                None => {
                    state.last_move_mono.remove(&color);
                },
            }
        }
        // Restore turn.
        state.turn = change.prev_turn;
        state.last_move = change.prev_last_move;
    }
}

// ___ Laws of make / unmake ___

/// Whether the shapes are in strictly increasing ordinal order (so each occurs once).
pub open spec fn strictly_sorted(s: Seq<PieceShape>) -> bool {
    forall|i: int, j: int| 0 <= i < j < s.len() ==> shape_index(#[trigger] s[i]) < shape_index(#[trigger] s[j])
}

/// Whether two states agree on everything a game observes.
pub open spec fn same_state(a: GameState, b: GameState) -> bool {
    &&& a.turn == b.turn
    &&& a.start_piece == b.start_piece
    &&& a.last_move == b.last_move
    &&& a.board@ == b.board@
    &&& a.last_move_mono@ == b.last_move_mono@
    &&& forall|c: Color| #[trigger] undeployed_spec(a, c) == undeployed_spec(b, c)
    &&& a.valid_colors@ == b.valid_colors@
}

/// The shape at ordinal `k` has ordinal `k`.
pub proof fn lemma_index_of_shape_at(k: int)
    requires
        0 <= k < 21,
    ensures
        shape_index(shape_at(k)) == k,
{
}

/// Pushing a shape counts it once more and leaves the other counts.
pub proof fn lemma_count_push(s: Seq<PieceShape>, x: PieceShape, k: PieceShape)
    ensures
        count_of(s.push(x), k) == count_of(s, k) + if x == k {
            1nat
        } else {
            0nat
        },
{
    assert(s.push(x).drop_last() =~= s);
}

/// Removing an entry counts its shape once less and leaves the other counts.
pub proof fn lemma_count_remove(s: Seq<PieceShape>, i: int, k: PieceShape)
    requires
        0 <= i < s.len(),
    ensures
        count_of(s.remove(i), k) + (if s[i] == k {
            1nat
        } else {
            0nat
        }) == count_of(s, k),
    decreases s.len(),
{
    if i == s.len() - 1 {
        assert(s.remove(i) =~= s.drop_last());
    } else {
        let t = s.drop_last();
        lemma_count_remove(t, i, k);
        assert(s.remove(i) =~= t.remove(i).push(s.last()));
        lemma_count_push(t.remove(i), s.last(), k);
    }
}

/// `sorted_upto` only depends on the counts of the shapes it covers.
pub proof fn lemma_sorted_upto_congr(a: Seq<PieceShape>, b: Seq<PieceShape>, n: nat)
    requires
        forall|k: int| 0 <= k < n ==> count_of(a, #[trigger] shape_at(k)) == count_of(b, shape_at(k)),
    ensures
        sorted_upto(a, n) == sorted_upto(b, n),
    decreases n,
{
    if n > 0 {
        lemma_sorted_upto_congr(a, b, (n - 1) as nat);
        assert(count_of(a, shape_at(n - 1)) == count_of(b, shape_at(n - 1)));
    }
}

/// Shapes that do not occur add nothing past `a`.
pub proof fn lemma_sorted_upto_stable(s: Seq<PieceShape>, a: nat, n: nat)
    requires
        a <= n,
        forall|k: int| a <= k < n ==> count_of(s, #[trigger] shape_at(k)) == 0,
    ensures
        sorted_upto(s, n) == sorted_upto(s, a),
    decreases n,
{
    if n > a {
        lemma_sorted_upto_stable(s, a, (n - 1) as nat);
        assert(count_of(s, shape_at(n - 1)) == 0);
        assert(sorted_upto(s, n) =~= sorted_upto(s, (n - 1) as nat));
    }
}

/// A shape whose ordinal is at least every ordinal in `s` plus one does not occur.
pub proof fn lemma_count_above(s: Seq<PieceShape>, m: int, k: int)
    requires
        forall|j: int| 0 <= j < s.len() ==> shape_index(#[trigger] s[j]) < m,
        0 <= m <= k < 21,
    ensures
        count_of(s, shape_at(k)) == 0,
    decreases s.len(),
{
    lemma_index_of_shape_at(k);
    if s.len() > 0 {
        assert forall|j: int| 0 <= j < s.drop_last().len() implies shape_index(#[trigger] s.drop_last()[j]) < m by {
            assert(s.drop_last()[j] == s[j]);
        }
        lemma_count_above(s.drop_last(), m, k);
        assert(shape_index(s[s.len() - 1]) < m);
    }
}

/// A list in strictly increasing ordinal order is its own sorted form.
pub proof fn lemma_sorted_fixpoint(s: Seq<PieceShape>)
    requires
        strictly_sorted(s),
    ensures
        sorted_by_index_spec(s) == s,
    decreases s.len(),
{
    if s.len() == 0 {
        assert(sorted_upto(s, 21) =~= s) by {
            lemma_sorted_upto_stable(s, 0, 21);
        }
    } else {
        let p = s.drop_last();
        let x = s.last();
        let ix = shape_index(x);
        lemma_shape_at_index(x);
        assert(strictly_sorted(p)) by {
            assert forall|i: int, j: int| 0 <= i < j < p.len() implies shape_index(#[trigger] p[i]) < shape_index(#[trigger] p[j]) by {
                assert(p[i] == s[i] && p[j] == s[j]);
            }
        }
        lemma_sorted_fixpoint(p);
        assert forall|j: int| 0 <= j < p.len() implies shape_index(#[trigger] p[j]) < ix by {
            assert(p[j] == s[j]);
            assert(s[s.len() - 1] == x);
        }
        assert(s =~= p.push(x));
        // The shapes after x occur in neither list.
        assert forall|k: int| ix + 1 <= k < 21 implies count_of(s, #[trigger] shape_at(k)) == 0 by {
            lemma_count_above(p, ix, k);
            lemma_count_push(p, x, shape_at(k));
            lemma_index_of_shape_at(k);
        }
        assert forall|k: int| ix <= k < 21 implies count_of(p, #[trigger] shape_at(k)) == 0 by {
            lemma_count_above(p, ix, k);
        }
        lemma_sorted_upto_stable(s, (ix + 1) as nat, 21);
        lemma_sorted_upto_stable(p, ix as nat, 21);
        // Below x both lists have the same counts.
        assert forall|k: int| 0 <= k < ix implies count_of(s, #[trigger] shape_at(k)) == count_of(p, shape_at(k)) by {
            lemma_count_push(p, x, shape_at(k));
            lemma_index_of_shape_at(k);
        }
        lemma_sorted_upto_congr(s, p, ix as nat);
        lemma_count_push(p, x, x);
        lemma_count_above(p, ix, ix);
        assert(count_of(s, shape_at(ix)) == 1);
        assert(sorted_upto(s, (ix + 1) as nat) =~= sorted_upto(p, ix as nat).push(x));
    }
}

/// Removing one shape and adding it again gives the same sorted form.
pub proof fn lemma_sorted_reinsert(s: Seq<PieceShape>, i: int)
    requires
        0 <= i < s.len(),
    ensures
        sorted_by_index_spec(s.remove(i).push(s[i])) == sorted_by_index_spec(s),
{
    assert forall|k: int| 0 <= k < 21 implies count_of(s.remove(i).push(s[i]), #[trigger] shape_at(k)) == count_of(s, shape_at(k)) by {
        lemma_count_push(s.remove(i), s[i], shape_at(k));
        lemma_count_remove(s, i, shape_at(k));
    }
    lemma_sorted_upto_congr(s.remove(i).push(s[i]), s, 21);
}

/// A strictly sorted list of all 21 shapes holds each shape at its ordinal.
pub proof fn lemma_full_sorted(s: Seq<PieceShape>)
    requires
        strictly_sorted(s),
        s.len() == 21,
    ensures
        forall|k: PieceShape| #[trigger] s.contains(k),
{
    assert forall|i: int| 0 <= i < 21 implies shape_index(#[trigger] s[i]) >= i by {
        lemma_sorted_lower(s, i);
    }
    assert forall|i: int| 0 <= i < 21 implies shape_index(#[trigger] s[i]) <= i by {
        lemma_sorted_upper(s, i);
    }
    assert forall|k: PieceShape| #[trigger] s.contains(k) by {
        lemma_shape_at_index(k);
        let i = shape_index(k);
        assert(shape_index(s[i]) == i);
        lemma_shape_at_index(s[i]);
        assert(s[i] == k);
    }
}

/// In a strictly sorted list the entry at `i` has ordinal at least `i`.
pub proof fn lemma_sorted_lower(s: Seq<PieceShape>, i: int)
    requires
        strictly_sorted(s),
        0 <= i < s.len(),
    ensures
        shape_index(s[i]) >= i,
    decreases i,
{
    lemma_shape_at_index(s[i]);
    if i > 0 {
        lemma_sorted_lower(s, i - 1);
        assert(shape_index(s[i - 1]) < shape_index(s[i]));
    }
}

/// In a strictly sorted list of 21 shapes the entry at `i` has ordinal at
/// most `i`.
pub proof fn lemma_sorted_upper(s: Seq<PieceShape>, i: int)
    requires
        strictly_sorted(s),
        s.len() == 21,
        0 <= i < s.len(),
    ensures
        shape_index(s[i]) <= i,
    decreases 21 - i,
{
    lemma_shape_at_index(s[i]);
    if i < 20 {
        lemma_sorted_upper(s, i + 1);
        assert(shape_index(s[i]) < shape_index(s[i + 1]));
    }
}

/// Whether `v` has 20 rows of 20 cells.
pub open spec fn board_shaped(v: Seq<Seq<FieldContent>>) -> bool {
    v.len() == BOARD_LENGTH && forall|y: int| 0 <= y < BOARD_LENGTH ==> (#[trigger] v[y]).len() == BOARD_LENGTH
}

/// Whether one of `cells` is the cell `(x, y)`.
pub open spec fn lists_cell(cells: Seq<Coordinates>, x: int, y: int) -> bool {
    exists|i: int| 0 <= i < cells.len() && (#[trigger] cells[i]).x == x && cells[i].y == y
}

/// Painting sets exactly the listed board cells.
pub proof fn lemma_paint_view(v: Seq<Seq<FieldContent>>, cells: Seq<Coordinates>, content: FieldContent)
    requires
        board_shaped(v),
    ensures
        board_shaped(paint_view(v, cells, content)),
        forall|x: int, y: int|
            in_board(x, y) ==> (#[trigger] paint_view(v, cells, content)[y][x]) == if lists_cell(cells, x, y) {
                content
            } else {
                v[y][x]
            },
    decreases cells.len(),
{
    if cells.len() > 0 {
        let t = cells.drop_last();
        lemma_paint_view(v, t, content);
        let prev = paint_view(v, t, content);
        let c = cells.last();
        let r = paint_view(v, cells, content);
        assert forall|x: int, y: int| in_board(x, y) implies (#[trigger] paint_view(v, cells, content)[y][x]) == if lists_cell(cells, x, y) {
            content
        } else {
            v[y][x]
        } by {
            if lists_cell(t, x, y) {
                let i = choose|i: int| 0 <= i < t.len() && (#[trigger] t[i]).x == x && t[i].y == y;
                assert(cells[i] == t[i]);
            }
            if lists_cell(cells, x, y) && !lists_cell(t, x, y) {
                let i = choose|i: int| 0 <= i < cells.len() && (#[trigger] cells[i]).x == x && cells[i].y == y;
                if i < t.len() {
                    assert(t[i] == cells[i]);
                }
            }
            if c.x == x && c.y == y {
                assert(cells[cells.len() - 1] == c);
            }
        }
    }
}

/// The first index of a shape in a list that holds it is a position of it.
pub proof fn lemma_first_index_bounds(s: Seq<PieceShape>, k: PieceShape)
    requires
        s.contains(k),
    ensures
        0 <= first_index(s, k) < s.len(),
        s[first_index(s, k)] == k,
    decreases s.len(),
{
    if s[0] != k {
        let j = choose|j: int| 0 <= j < s.len() && s[j] == k;
        assert(s.drop_first()[j - 1] == k);
        lemma_first_index_bounds(s.drop_first(), k);
    }
}

/// Taking a valid move back with `unmake_move` restores everything that
/// `make_move` changed: board, turn, last move, mono record, undeployed lists
/// and valid colours, provided the undeployed list of the moving colour is
/// in strictly increasing ordinal order (as in every game the server runs).
pub proof fn law_unmake_restores(s0: GameState, m: Move, s1: GameState, ch: MoveChange, s2: GameState)
    requires
        move_fits(m),
        move_mistake(s0, m) is None,
        strictly_sorted(undeployed_spec(s0, move_color(m))),
        after_make(s0, m, s1, ch),
        after_unmake(s1, ch, s2),
    ensures
        same_state(s0, s2),
{
    lemma_unmake_restores_from(s0, m, s1, ch, s1, s2);
}

/// Taking the record of a valid move back from any state that agrees with
/// the state the move led to restores the state before the move.
proof fn lemma_unmake_restores_from(s0: GameState, m: Move, s1: GameState, ch: MoveChange, s1b: GameState, s2: GameState)
    requires
        move_fits(m),
        move_mistake(s0, m) is None,
        strictly_sorted(undeployed_spec(s0, move_color(m))),
        after_make(s0, m, s1, ch),
        same_state(s1, s1b),
        after_unmake(s1b, ch, s2),
    ensures
        same_state(s0, s2),
{
    let color = move_color(m);
    assert(undeployed_spec(s1b, color) == undeployed_spec(s1, color));
    assert(s1b.board@ == s1.board@);
    assert(board_shaped(s0.board@));
    match m {
        Move::SetMove { piece } => {
            let l = undeployed_spec(s0, color);
            let cells = piece_cells(piece);
            let content = content_of(color);
            assert(set_move_mistake(s0, piece) is None);
            if crate::internal::first_move_spec(s0, color) {
                lemma_full_sorted(l);
            }
            assert(l.contains(piece.kind));
            lemma_first_index_bounds(l, piece.kind);
            let i = first_index(l, piece.kind);
            let n = l.remove(i);
            assert(!n.contains(piece.kind)) by {
                if n.contains(piece.kind) {
                    let j = choose|j: int| 0 <= j < n.len() && n[j] == piece.kind;
                    if j < i {
                        assert(n[j] == l[j]);
                        assert(shape_index(l[j]) < shape_index(l[i]));
                    } else {
                        assert(n[j] == l[j + 1]);
                        assert(shape_index(l[i]) < shape_index(l[j + 1]));
                    }
                }
            }
            lemma_sorted_reinsert(l, i);
            lemma_sorted_fixpoint(l);
            assert(undeployed_spec(s2, color) == l);
            // mono record
            if n.len() == 0 {
                if s0.last_move_mono@.contains_key(color) {
                    assert(s2.last_move_mono@ =~= s0.last_move_mono@);
                } else {
                    assert(s2.last_move_mono@ =~= s0.last_move_mono@);
                }
            }
            // board
            crate::rules::lemma_first_cell_none(s0.board, color, cells);
            lemma_paint_view(s0.board@, cells, content);
            lemma_paint_view(s1.board@, cells, FieldContent::Empty);
            assert forall|y: int| 0 <= y < BOARD_LENGTH implies #[trigger] s2.board@[y] =~= s0.board@[y] by {
                assert forall|x: int| 0 <= x < BOARD_LENGTH implies s2.board@[y][x] == s0.board@[y][x] by {
                    if lists_cell(cells, x, y) {
                        let k = choose|k: int| 0 <= k < cells.len() && (#[trigger] cells[k]).x == x && cells[k].y == y;
                        assert(cell_mistake(s0.board, color, cells[k]) is None);
                        assert(s0.board.at(cells[k]) == FieldContent::Empty);
                    }
                    assert(s2.board@[y][x] == paint_view(s1.board@, cells, FieldContent::Empty)[y][x]);
                }
            }
            assert(s2.board@ =~= s0.board@);
            assert forall|c: Color| #[trigger] undeployed_spec(s0, c) == undeployed_spec(s2, c) by {
                assert(undeployed_spec(s1b, c) == undeployed_spec(s1, c));
                if c != color {
                    assert(undeployed_spec(s1, c) == undeployed_spec(s0, c));
                }
            }
        },
        Move::Skip { .. } => {
            assert(s2.board@ == s1.board@);
            assert forall|c: Color| #[trigger] undeployed_spec(s0, c) == undeployed_spec(s2, c) by {
                assert(undeployed_spec(s1b, c) == undeployed_spec(s1, c));
                if c != color {
                    assert(undeployed_spec(s1, c) == undeployed_spec(s0, c));
                }
            }
        },
    }
}

/// `make_move` keeps every undeployed list that is in strictly increasing
/// ordinal order so (and a refused move changes nothing at all).
pub proof fn law_make_keeps_sorted(s0: GameState, m: Move, s1: GameState, ch: MoveChange, c: Color)
    requires
        strictly_sorted(undeployed_spec(s0, c)),
        after_make(s0, m, s1, ch),
    ensures
        strictly_sorted(undeployed_spec(s1, c)),
{
    if c != move_color(m) {
        assert(undeployed_spec(s1, c) == undeployed_spec(s0, c));
    } else if let Move::SetMove { piece } = m {
        let l = undeployed_spec(s0, move_color(m));
        if l.contains(piece.kind) {
            lemma_first_index_bounds(l, piece.kind);
            let i = first_index(l, piece.kind);
            let n = l.remove(i);
            assert forall|a: int, b: int| 0 <= a < b < n.len() implies shape_index(#[trigger] n[a]) < shape_index(#[trigger] n[b]) by {
                let aa = if a < i { a } else { a + 1 };
                let bb = if b < i { b } else { b + 1 };
                assert(n[a] == l[aa] && n[b] == l[bb]);
            }
        }
    }
}


/// Moves made one after another and taken back last-first return the game
/// to where it started: when each move `ms[i]` was valid in `ss[i]` and led
/// to `ss[i + 1]` with the record `chs[i]`, and the undeployed lists of
/// `ss[0]` are strictly sorted (as in a fresh game), unmaking the records in
/// reverse order from the last state (`us[0]` to `us[n]`) restores `ss[0]`.
pub proof fn law_unwind_restores(ss: Seq<GameState>, ms: Seq<Move>, chs: Seq<MoveChange>, us: Seq<GameState>)
    requires
        chs.len() == ms.len(),
        ss.len() == ms.len() + 1,
        us.len() == ms.len() + 1,
        forall|c: Color| strictly_sorted(#[trigger] undeployed_spec(ss[0], c)),
        forall|i: int|
            0 <= i < ms.len() ==> move_fits(#[trigger] ms[i]) && move_mistake(ss[i], ms[i]) is None
                && after_make(ss[i], ms[i], ss[i + 1], chs[i]),
        us[0] == ss[ms.len() as int],
        forall|k: int| 0 <= k < ms.len() ==> #[trigger] after_unmake(us[k], chs[ms.len() - 1 - k], us[k + 1]),
    ensures
        same_state(ss[0], us[ms.len() as int]),
{
    let n = ms.len() as int;
    lemma_all_sorted(ss, ms, chs, n);
    lemma_unwind_steps(ss, ms, chs, us, n);
}

/// After `k` records were taken back, the state agrees with `ss[n - k]`.
proof fn lemma_unwind_steps(ss: Seq<GameState>, ms: Seq<Move>, chs: Seq<MoveChange>, us: Seq<GameState>, k: int)
    requires
        0 <= k <= ms.len(),
        chs.len() == ms.len(),
        ss.len() == ms.len() + 1,
        us.len() == ms.len() + 1,
        forall|i: int, c: Color| 0 <= i <= ms.len() ==> strictly_sorted(#[trigger] undeployed_spec(ss[i], c)),
        forall|i: int|
            0 <= i < ms.len() ==> move_fits(#[trigger] ms[i]) && move_mistake(ss[i], ms[i]) is None
                && after_make(ss[i], ms[i], ss[i + 1], chs[i]),
        us[0] == ss[ms.len() as int],
        forall|kk: int| 0 <= kk < ms.len() ==> #[trigger] after_unmake(us[kk], chs[ms.len() - 1 - kk], us[kk + 1]),
    ensures
        same_state(ss[ms.len() - k], us[k]),
    decreases k,
{
    let n = ms.len() as int;
    if k > 0 {
        lemma_unwind_steps(ss, ms, chs, us, k - 1);
        let i = n - k;
        assert(move_fits(ms[i]) && after_make(ss[i], ms[i], ss[i + 1], chs[i]));
        let kk = k - 1;
        assert(after_unmake(us[kk], chs[ms.len() - 1 - kk], us[kk + 1]));
        assert(ms.len() - 1 - kk == i);
        assert(strictly_sorted(undeployed_spec(ss[i], move_color(ms[i]))));
        lemma_unmake_restores_from(ss[i], ms[i], ss[i + 1], chs[i], us[k - 1], us[k]);
    }
}

/// Along valid moves from a state with strictly sorted undeployed lists,
/// every state reached has them strictly sorted.
proof fn lemma_all_sorted(ss: Seq<GameState>, ms: Seq<Move>, chs: Seq<MoveChange>, n: int)
    requires
        0 <= n <= ms.len(),
        chs.len() == ms.len(),
        ss.len() == ms.len() + 1,
        forall|c: Color| strictly_sorted(#[trigger] undeployed_spec(ss[0], c)),
        forall|i: int|
            0 <= i < ms.len() ==> move_fits(#[trigger] ms[i]) && move_mistake(ss[i], ms[i]) is None
                && after_make(ss[i], ms[i], ss[i + 1], chs[i]),
    ensures
        forall|i: int, c: Color| 0 <= i <= n ==> strictly_sorted(#[trigger] undeployed_spec(ss[i], c)),
    decreases n,
{
    if n > 0 {
        lemma_all_sorted(ss, ms, chs, n - 1);
        assert forall|c: Color| strictly_sorted(#[trigger] undeployed_spec(ss[n], c)) by {
            assert(move_fits(ms[n - 1]));
            law_make_keeps_sorted(ss[n - 1], ms[n - 1], ss[n], chs[n - 1], c);
        }
    }
}

/// A fresh game holds every colour's undeployed shapes in strictly
/// increasing ordinal order, so that every move of a game played from it
/// can be taken back.
pub proof fn law_initial_lists_sorted(s: GameState, start_piece: PieceShape, c: Color)
    requires
        crate::internal::is_initial(s, start_piece),
    ensures
        strictly_sorted(undeployed_spec(s, c)),
{
    let l = undeployed_spec(s, c);
    assert(l == crate::internal::all_shapes_seq());
    assert forall|i: int, j: int| 0 <= i < j < l.len() implies shape_index(#[trigger] l[i])
        < shape_index(#[trigger] l[j]) by {
        lemma_index_of_shape_at(i);
        lemma_index_of_shape_at(j);
    }
}

} // verus!
