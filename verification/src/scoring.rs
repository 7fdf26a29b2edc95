//! Scoring: points per colour from the undeployed shapes, points per team,
//! and the winner of a finished game.
use vstd::prelude::*;

use crate::internal::{is_over_spec, undeployed_spec, GameState, ROUND_LIMIT, SUM_MAX_SQUARES};
use crate::moves::{
    count_of, lemma_count_push, lemma_count_remove, lemma_index_of_shape_at, lemma_shape_at_index,
    strictly_sorted,
};
use crate::neutral::{team_of, Color, Team, Winner};
use crate::piece_shape::{shape_at, shape_cells, shape_index, PieceShape};
use crate::text::{append_decimal, decimal};

verus! {

/// The number of cells of the shape.
pub open spec fn shape_size(s: PieceShape) -> nat {
    shape_cells(s).len()
}

/// The total number of cells of the shapes.
pub open spec fn sizes_sum(s: Seq<PieceShape>) -> nat
    decreases s.len(),
{
    if s.len() == 0 {
        0
    } else {
        sizes_sum(s.drop_last()) + shape_size(s.last())
    }
}

/// The points of a colour with the given undeployed shapes: all 89 squares
/// minus the undeployed ones; with none left, 89 + 15, and 5 more when the
/// monomino was placed last.
pub open spec fn points_spec(undeployed: Seq<PieceShape>, mono_last: bool) -> int {
    if undeployed.len() == 0 {
        SUM_MAX_SQUARES + 15 + if mono_last {
            5int
        } else {
            0int
        }
    } else {
        SUM_MAX_SQUARES - sizes_sum(undeployed)
    }
}

/// Whether the monomino was the last piece that `c` placed.
pub open spec fn mono_last_spec(s: GameState, c: Color) -> bool {
    s.last_move_mono@.contains_key(c) && s.last_move_mono@[c]
}

pub open spec fn color_points(s: GameState, c: Color) -> int {
    points_spec(undeployed_spec(s, c), mono_last_spec(s, c))
}

/// The points of a team: the sum over its two colours.
pub open spec fn team_points(s: GameState, t: Team) -> int {
    match t {
        Team::One => color_points(s, Color::Blue) + color_points(s, Color::Red),
        Team::Two => color_points(s, Color::Yellow) + color_points(s, Color::Green),
    }
}

/// Whether no colour has more undeployed squares than all pieces together.
pub open spec fn scores_fit(s: GameState) -> bool {
    forall|c: Color| sizes_sum(#[trigger] undeployed_spec(s, c)) <= SUM_MAX_SQUARES
}

/// The reason text for a win by `points`: `<points> hat am meisten Punkte erzielt.`
pub open spec fn win_reason(points: nat) -> Seq<char> {
    decimal(points) + " hat am meisten Punkte erzielt."@
}

/// Whether `r` is the result of `game_result` on `s`.
pub open spec fn is_game_result(s: GameState, r: Option<(Option<Team>, Winner)>) -> bool {
    let one = team_points(s, Team::One);
    let two = team_points(s, Team::Two);
    if !is_over_spec(s) {
        r is None
    } else {
        r matches Some((team, w)) && w.team == team && w.regular && w.reason is Some && if one
            > two {
            team == Some(Team::One) && w.reason->Some_0@ == win_reason(one as nat)
        } else if two > one {
            team == Some(Team::Two) && w.reason->Some_0@ == win_reason(two as nat)
        } else {
            team is None && w.reason->Some_0@ == "Unentschieden"@
        }
    }
}

/// Points of a colour from its undeployed shapes.
pub fn points_from_undeployed(undeployed: &[PieceShape], mono_last: bool) -> (r: u32)
    requires
        sizes_sum(undeployed@) <= SUM_MAX_SQUARES,
    ensures
        r == points_spec(undeployed@, mono_last),
{
    if undeployed.len() == 0 {
        return SUM_MAX_SQUARES + 15 + if mono_last {
            5
        } else {
            0
        };
    }
    let mut sum: u32 = 0;
    let mut i: usize = 0;
    while i < undeployed.len()
        invariant
            i <= undeployed@.len(),
            sizes_sum(undeployed@) <= SUM_MAX_SQUARES,
            sum == sizes_sum(undeployed@.take(i as int)),
        decreases undeployed@.len() - i,
    {
        proof {
            assert(undeployed@.take(i + 1).drop_last() =~= undeployed@.take(i as int));
            lemma_sizes_sum_prefix(undeployed@, i + 1);
        }
        sum = sum + undeployed[i].size() as u32;
        i = i + 1;
    }
    assert(undeployed@.take(undeployed@.len() as int) =~= undeployed@);
    SUM_MAX_SQUARES - sum
}

/// A prefix has at most the size sum of the whole list.
pub proof fn lemma_sizes_sum_prefix(s: Seq<PieceShape>, n: int)
    requires
        0 <= n <= s.len(),
    ensures
        sizes_sum(s.take(n)) <= sizes_sum(s),
    decreases s.len() - n,
{
    if n < s.len() {
        lemma_sizes_sum_prefix(s, n + 1);
        assert(s.take(n + 1).drop_last() =~= s.take(n));
    } else {
        assert(s.take(n) =~= s);
    }
}

impl GameState {
    /// The points of `color` from its undeployed shapes and mono record.
    pub fn points_for_color(&self, color: Color) -> (r: u32)
        requires
            sizes_sum(undeployed_spec(*self, color)) <= SUM_MAX_SQUARES,
        ensures
            r == color_points(*self, color),
    {
        let mono_last = match self.last_move_mono.get(&color) {
            Some(v) => *v,
            None => false,
        };
        points_from_undeployed(self.undeployed(color).as_slice(), mono_last)
    }

    /// The points of `team`: the sum over its two colours.
    pub fn points_for_team(&self, team: Team) -> (r: u32)
        requires
            scores_fit(*self),
        ensures
            r == team_points(*self, team),
    {
        let mut total: u32 = 0;
        let mut i: usize = 0;
        while i < 4
            invariant
                i <= 4,
                scores_fit(*self),
                total == team_points_upto(*self, team, i as int),
                total <= 109 * i,
            decreases 4 - i,
        {
            let c = crate::neutral::color_at(i);
            assert(sizes_sum(undeployed_spec(*self, c)) <= SUM_MAX_SQUARES);
            if c.team() == team {
                total = total + self.points_for_color(c);
            }
            i = i + 1;
        }
        assert(team_points_upto(*self, team, 4) == team_points(*self, team)) by {
            reveal_with_fuel(team_points_upto, 5);
        }
        total
    }

    /// Winner team + reason. `Some((None, ...))` for a tie. `None` if the game isn't over.
    pub fn game_result(&self) -> (r: Option<(Option<Team>, Winner)>)
        requires
            scores_fit(*self),
        ensures
            is_game_result(*self, r),
    {
        if !self.is_over() {
            return None;
        }
        let one = self.points_for_team(Team::One);
        let two = self.points_for_team(Team::Two);
        let (winner_team, reason_text) = if one > two {
            (Some(Team::One), win_reason_text(one))
        } else if two > one {
            (Some(Team::Two), win_reason_text(two))
        } else {
            (None, String::from_str("Unentschieden"))
        };
        Some((winner_team, Winner { team: winner_team, regular: true, reason: Some(reason_text) }))
    }
}

/// The sum of the points of the colours of `t` among the first `n` in turn order.
pub open spec fn team_points_upto(s: GameState, t: Team, n: int) -> int
    decreases n,
{
    if n <= 0 {
        0
    } else {
        team_points_upto(s, t, n - 1) + if team_of(crate::neutral::color_of(n - 1)) == t {
            color_points(s, crate::neutral::color_of(n - 1))
        } else {
            0
        }
    }
}

/// Builds `<points> hat am meisten Punkte erzielt.`
fn win_reason_text(points: u32) -> (r: String)
    ensures
        r@ == win_reason(points as nat),
{
    let mut s = String::new();
    append_decimal(&mut s, points as u64);
    s.append(" hat am meisten Punkte erzielt.");
    assert(s@ =~= win_reason(points as nat));
    s
}

/// The sizes of the shapes with ordinal below `n`.
pub open spec fn total_upto(n: int) -> nat
    decreases n,
{
    if n <= 0 {
        0
    } else {
        total_upto(n - 1) + shape_size(shape_at(n - 1))
    }
}

/// All 21 shapes have 89 squares together.
pub proof fn law_total_squares()
    ensures
        total_upto(21) == SUM_MAX_SQUARES,
{
    reveal_with_fuel(total_upto, 22);
}

/// The size total over the first ordinals grows with their number.
pub proof fn lemma_total_monotone(a: int, b: int)
    requires
        a <= b,
    ensures
        total_upto(a) <= total_upto(b),
    decreases b - a,
{
    if a < b {
        lemma_total_monotone(a, b - 1);
    }
}

/// A strictly sorted list of shapes with ordinals below `n` has at most the
/// size total of the first `n` shapes.
pub proof fn lemma_sorted_sum_bound(s: Seq<PieceShape>, n: int)
    requires
        strictly_sorted(s),
        forall|j: int| 0 <= j < s.len() ==> shape_index(#[trigger] s[j]) < n,
    ensures
        sizes_sum(s) <= total_upto(n),
    decreases s.len(),
{
    if s.len() > 0 {
        let p = s.drop_last();
        let x = s.last();
        let ix = shape_index(x);
        lemma_shape_at_index(x);
        assert(strictly_sorted(p)) by {
            assert forall|i: int, j: int| 0 <= i < j < p.len() implies shape_index(#[trigger] p[i]) < shape_index(#[trigger] p[j]) by {
                assert(p[i] == s[i] && p[j] == s[j]);
            }
        }
        assert forall|j: int| 0 <= j < p.len() implies shape_index(#[trigger] p[j]) < ix by {
            assert(p[j] == s[j]);
            assert(s[s.len() - 1] == x);
        }
        lemma_sorted_sum_bound(p, ix);
        assert(shape_index(s[s.len() - 1]) < n);
        lemma_total_monotone(ix + 1, n);
    }
}

/// A colour whose undeployed shapes are strictly sorted by ordinal (each
/// shape at most once) has at most 89 undeployed squares, so its points are
/// defined.
pub proof fn law_sorted_lists_fit(s: Seq<PieceShape>)
    requires
        strictly_sorted(s),
    ensures
        sizes_sum(s) <= SUM_MAX_SQUARES,
{
    assert forall|j: int| 0 <= j < s.len() implies shape_index(#[trigger] s[j]) < 21 by {
        lemma_shape_at_index(s[j]);
    }
    lemma_sorted_sum_bound(s, 21);
    law_total_squares();
}


/// The size total of the occurrences in `s` of the shapes with ordinal below
/// `n`, counted shape by shape.
pub open spec fn counted_sizes(s: Seq<PieceShape>, n: int) -> int
    decreases n,
{
    if n <= 0 {
        0
    } else {
        counted_sizes(s, n - 1) + count_of(s, shape_at(n - 1)) * shape_size(shape_at(n - 1))
    }
}

/// The shape at ordinal `k` is `x` exactly when `x` has ordinal `k`.
proof fn lemma_shape_at_is(x: PieceShape, k: int)
    requires
        0 <= k < 21,
    ensures
        (shape_at(k) == x) == (shape_index(x) == k),
{
    lemma_shape_at_index(x);
    lemma_index_of_shape_at(k);
}

/// An empty list counts nothing.
proof fn lemma_counted_sizes_empty(n: int)
    ensures
        counted_sizes(Seq::<PieceShape>::empty(), n) == 0,
    decreases n,
{
    if n > 0 {
        lemma_counted_sizes_empty(n - 1);
        let z = shape_size(shape_at(n - 1)) as int;
        assert(count_of(Seq::<PieceShape>::empty(), shape_at(n - 1)) == 0);
        assert(0 * z == 0);
    }
}

/// Pushing a shape adds its size to the count when its ordinal is below `n`.
proof fn lemma_counted_sizes_push(s: Seq<PieceShape>, x: PieceShape, n: int)
    requires
        n <= 21,
    ensures
        counted_sizes(s.push(x), n) == counted_sizes(s, n) + if shape_index(x) < n {
            shape_size(x) as int
        } else {
            0int
        },
    decreases n,
{
    if n > 0 {
        lemma_counted_sizes_push(s, x, n - 1);
        lemma_count_push(s, x, shape_at(n - 1));
        lemma_shape_at_is(x, n - 1);
        let c = count_of(s, shape_at(n - 1)) as int;
        let z = shape_size(shape_at(n - 1)) as int;
        assert((c + 1) * z == c * z + z) by (nonlinear_arith);
    }
}

/// Removing an entry takes its size off the count when its ordinal is below `n`.
proof fn lemma_counted_sizes_remove(s: Seq<PieceShape>, i: int, n: int)
    requires
        0 <= i < s.len(),
        n <= 21,
    ensures
        counted_sizes(s.remove(i), n) + (if shape_index(s[i]) < n {
            shape_size(s[i]) as int
        } else {
            0int
        }) == counted_sizes(s, n),
    decreases n,
{
    if n > 0 {
        lemma_counted_sizes_remove(s, i, n - 1);
        lemma_count_remove(s, i, shape_at(n - 1));
        lemma_shape_at_is(s[i], n - 1);
        let c = count_of(s.remove(i), shape_at(n - 1)) as int;
        let z = shape_size(shape_at(n - 1)) as int;
        assert((c + 1) * z == c * z + z) by (nonlinear_arith);
    }
}

/// The size total of a list, counted shape by shape.
proof fn lemma_sizes_sum_counted(s: Seq<PieceShape>)
    ensures
        sizes_sum(s) == counted_sizes(s, 21),
    decreases s.len(),
{
    if s.len() == 0 {
        assert(s =~= Seq::<PieceShape>::empty());
        lemma_counted_sizes_empty(21);
    } else {
        let p = s.drop_last();
        lemma_sizes_sum_counted(p);
        assert(s == p.push(s.last()));
        lemma_counted_sizes_push(p, s.last(), 21);
        lemma_shape_at_index(s.last());
    }
}

/// A shape that does not occur is counted zero times.
proof fn lemma_count_absent(s: Seq<PieceShape>, k: PieceShape)
    requires
        !s.contains(k),
    ensures
        count_of(s, k) == 0,
    decreases s.len(),
{
    if s.len() > 0 {
        let p = s.drop_last();
        assert(!p.contains(k)) by {
            if p.contains(k) {
                let j = choose|j: int| 0 <= j < p.len() && p[j] == k;
                assert(s[j] == k);
            }
        }
        lemma_count_absent(p, k);
        assert(s[s.len() - 1] != k);
    }
}

/// In a list without repetitions every shape occurs at most once.
proof fn lemma_count_at_most_one(s: Seq<PieceShape>, k: PieceShape)
    requires
        s.no_duplicates(),
    ensures
        count_of(s, k) <= 1,
    decreases s.len(),
{
    if s.len() > 0 {
        let p = s.drop_last();
        assert(p.no_duplicates()) by {
            assert forall|a: int, b: int| 0 <= a < p.len() && 0 <= b < p.len() && a != b implies p[a] != p[b] by {
                assert(p[a] == s[a] && p[b] == s[b]);
            }
        }
        if s.last() == k {
            assert(!p.contains(k)) by {
                if p.contains(k) {
                    let j = choose|j: int| 0 <= j < p.len() && p[j] == k;
                    assert(s[j] == s[s.len() - 1]);
                }
            }
            lemma_count_absent(p, k);
        } else {
            lemma_count_at_most_one(p, k);
        }
    }
}

/// Counting each of the first `n` shapes at most once gives at most their total.
proof fn lemma_counted_sizes_bound(s: Seq<PieceShape>, n: int)
    requires
        s.no_duplicates(),
    ensures
        counted_sizes(s, n) <= total_upto(n),
    decreases n,
{
    if n > 0 {
        lemma_counted_sizes_bound(s, n - 1);
        lemma_count_at_most_one(s, shape_at(n - 1));
        let c = count_of(s, shape_at(n - 1)) as int;
        let z = shape_size(shape_at(n - 1)) as int;
        assert(c * z <= z) by (nonlinear_arith)
            requires
                0 <= c <= 1,
                0 <= z,
        ;
    }
}

/// A colour that holds no shape twice among its undeployed ones has at most
/// 89 undeployed squares, so its points are defined and lie between 0 and
/// 109; the monomino bonus counts only once nothing is left.
pub proof fn law_distinct_lists_fit(undeployed: Seq<PieceShape>, mono_last: bool)
    requires
        undeployed.no_duplicates(),
    ensures
        sizes_sum(undeployed) <= SUM_MAX_SQUARES,
        0 <= points_spec(undeployed, mono_last) <= SUM_MAX_SQUARES + 20,
        undeployed.len() > 0 ==> points_spec(undeployed, mono_last) == points_spec(undeployed, !mono_last),
{
    lemma_sizes_sum_counted(undeployed);
    lemma_counted_sizes_bound(undeployed, 21);
    law_total_squares();
}

/// Placing one of the undeployed shapes (taking it off the list) never
/// lowers a colour's points, whatever the monomino record says.
pub proof fn law_placing_never_lowers_points(
    undeployed: Seq<PieceShape>,
    i: int,
    mono_before: bool,
    mono_after: bool,
)
    requires
        undeployed.no_duplicates(),
        0 <= i < undeployed.len(),
    ensures
        points_spec(undeployed.remove(i), mono_after) >= points_spec(undeployed, mono_before),
{
    lemma_sizes_sum_counted(undeployed);
    lemma_sizes_sum_counted(undeployed.remove(i));
    lemma_counted_sizes_remove(undeployed, i, 21);
    lemma_shape_at_index(undeployed[i]);
    lemma_counted_sizes_bound(undeployed, 21);
    law_total_squares();
}

/// The game goes on while some colour can still play, the round limit is
/// not reached and some colour still has shapes to place: it is not over and
/// has no result yet.
pub proof fn law_game_goes_on(s: GameState, c: Color, r: Option<(Option<Team>, Winner)>)
    requires
        s.valid_colors@.len() > 0,
        s.turn / 4 < ROUND_LIMIT,
        undeployed_spec(s, c).len() > 0,
        is_game_result(s, r),
    ensures
        !is_over_spec(s),
        r is None,
{
}

/// Whether the game is over does not depend on how many colours can still
/// play, only on whether any can: two states that differ only in their
/// non-empty lists of valid colours are over alike.
pub proof fn law_over_ignores_valid_count(s: GameState, t: GameState)
    requires
        t == (GameState { valid_colors: t.valid_colors, ..s }),
        s.valid_colors@.len() > 0,
        t.valid_colors@.len() > 0,
    ensures
        is_over_spec(s) == is_over_spec(t),
{
}

} // verus!
