//! The 21 Blokus piece shapes, their canonical cell sets, and the rotated /
//! flipped / re-aligned variants that move generation places on the board.
use vstd::prelude::*;

use crate::neutral::{
    combine_rotations, parse_result, rotation_of, unknown_token_error, Rotation,
};
use crate::text::{str_equal, trim, trim_spec};

verus! {

/// All 21 piece shapes of Blokus, in the canonical ordinal order.
#[derive(Debug, Clone, Copy, PartialEq, Eq, Hash, PartialOrd, Ord, Structural)]
pub enum PieceShape {
    Mono,
    Domino,
    TrioL,
    TrioI,
    TetroO,
    TetroT,
    TetroI,
    TetroL,
    TetroZ,
    PentoL,
    PentoT,
    PentoV,
    PentoS,
    PentoZ,
    PentoI,
    PentoP,
    PentoW,
    PentoU,
    PentoR,
    PentoX,
    PentoY,
}

/// The ordinal of a shape (0 for `Mono` up to 20 for `PentoY`).
pub open spec fn shape_index(s: PieceShape) -> int {
    match s {
        PieceShape::Mono => 0,
        PieceShape::Domino => 1,
        PieceShape::TrioL => 2,
        PieceShape::TrioI => 3,
        PieceShape::TetroO => 4,
        PieceShape::TetroT => 5,
        PieceShape::TetroI => 6,
        PieceShape::TetroL => 7,
        PieceShape::TetroZ => 8,
        PieceShape::PentoL => 9,
        PieceShape::PentoT => 10,
        PieceShape::PentoV => 11,
        PieceShape::PentoS => 12,
        PieceShape::PentoZ => 13,
        PieceShape::PentoI => 14,
        PieceShape::PentoP => 15,
        PieceShape::PentoW => 16,
        PieceShape::PentoU => 17,
        PieceShape::PentoR => 18,
        PieceShape::PentoX => 19,
        PieceShape::PentoY => 20,
    }
}

/// The shape with ordinal `i` (for `0 <= i < 21`).
pub open spec fn shape_at(i: int) -> PieceShape {
    if i == 0 {
        PieceShape::Mono
    } else if i == 1 {
        PieceShape::Domino
    } else if i == 2 {
        PieceShape::TrioL
    } else if i == 3 {
        PieceShape::TrioI
    } else if i == 4 {
        PieceShape::TetroO
    } else if i == 5 {
        PieceShape::TetroT
    } else if i == 6 {
        PieceShape::TetroI
    } else if i == 7 {
        PieceShape::TetroL
    } else if i == 8 {
        PieceShape::TetroZ
    } else if i == 9 {
        PieceShape::PentoL
    } else if i == 10 {
        PieceShape::PentoT
    } else if i == 11 {
        PieceShape::PentoV
    } else if i == 12 {
        PieceShape::PentoS
    } else if i == 13 {
        PieceShape::PentoZ
    } else if i == 14 {
        PieceShape::PentoI
    } else if i == 15 {
        PieceShape::PentoP
    } else if i == 16 {
        PieceShape::PentoW
    } else if i == 17 {
        PieceShape::PentoU
    } else if i == 18 {
        PieceShape::PentoR
    } else if i == 19 {
        PieceShape::PentoX
    } else {
        PieceShape::PentoY
    }
}

/// The canonical aligned cell set of each shape (without rotation or flip).
pub open spec fn shape_cells(s: PieceShape) -> Seq<(i32, i32)> {
    match s {
        PieceShape::Mono => seq![(0i32, 0i32)],
        PieceShape::Domino => seq![(0i32, 0i32), (1, 0)],
        PieceShape::TrioL => seq![(0i32, 0i32), (0, 1), (1, 1)],
        PieceShape::TrioI => seq![(0i32, 0i32), (0, 1), (0, 2)],
        PieceShape::TetroO => seq![(0i32, 0i32), (1, 0), (0, 1), (1, 1)],
        PieceShape::TetroT => seq![(0i32, 0i32), (1, 0), (2, 0), (1, 1)],
        PieceShape::TetroI => seq![(0i32, 0i32), (0, 1), (0, 2), (0, 3)],
        PieceShape::TetroL => seq![(0i32, 0i32), (0, 1), (0, 2), (1, 2)],
        PieceShape::TetroZ => seq![(0i32, 0i32), (1, 0), (1, 1), (2, 1)],
        PieceShape::PentoL => seq![(0i32, 0i32), (0, 1), (0, 2), (0, 3), (1, 3)],
        PieceShape::PentoT => seq![(0i32, 0i32), (1, 0), (2, 0), (1, 1), (1, 2)],
        PieceShape::PentoV => seq![(0i32, 0i32), (0, 1), (0, 2), (1, 2), (2, 2)],
        PieceShape::PentoS => seq![(1i32, 0i32), (2, 0), (3, 0), (0, 1), (1, 1)],
        PieceShape::PentoZ => seq![(0i32, 0i32), (1, 0), (1, 1), (1, 2), (2, 2)],
        PieceShape::PentoI => seq![(0i32, 0i32), (0, 1), (0, 2), (0, 3), (0, 4)],
        PieceShape::PentoP => seq![(0i32, 0i32), (1, 0), (0, 1), (1, 1), (0, 2)],
        PieceShape::PentoW => seq![(0i32, 0i32), (0, 1), (1, 1), (1, 2), (2, 2)],
        PieceShape::PentoU => seq![(0i32, 0i32), (0, 1), (1, 1), (2, 1), (2, 0)],
        PieceShape::PentoR => seq![(0i32, 1i32), (1, 1), (1, 2), (2, 1), (2, 0)],
        PieceShape::PentoX => seq![(1i32, 0i32), (0, 1), (1, 1), (2, 1), (1, 2)],
        PieceShape::PentoY => seq![(0i32, 1i32), (1, 0), (1, 1), (1, 2), (1, 3)],
    }
}

/// Every cell of every canonical shape lies in `0..=4` in both axes.
pub open spec fn small_cells(s: Seq<(i32, i32)>) -> bool {
    forall|i: int| 0 <= i < s.len() ==> -4 <= #[trigger] s[i].0 <= 4 && -4 <= s[i].1 <= 4
}

/// The canonical cells of a shape: one to five of them, each in `0..=4`.
pub proof fn lemma_shape_cells_small(s: PieceShape)
    ensures
        small_cells(shape_cells(s)),
        forall|i: int|
            0 <= i < shape_cells(s).len() ==> 0 <= #[trigger] shape_cells(s)[i].0 && 0
                <= shape_cells(s)[i].1,
        1 <= shape_cells(s).len() <= 5,
{
}

/// Smallest x over the cells (`i32::MAX` for none).
pub open spec fn min_x(s: Seq<(i32, i32)>) -> int
    decreases s.len(),
{
    if s.len() == 0 {
        i32::MAX as int
    } else {
        let m = min_x(s.drop_last());
        if s.last().0 < m {
            s.last().0 as int
        } else {
            m
        }
    }
}

/// Smallest y over the cells (`i32::MAX` for none).
pub open spec fn min_y(s: Seq<(i32, i32)>) -> int
    decreases s.len(),
{
    if s.len() == 0 {
        i32::MAX as int
    } else {
        let m = min_y(s.drop_last());
        if s.last().1 < m {
            s.last().1 as int
        } else {
            m
        }
    }
}

/// Largest x over the cells and 0.
pub open spec fn max_x0(s: Seq<(i32, i32)>) -> int
    decreases s.len(),
{
    if s.len() == 0 {
        0
    } else {
        let m = max_x0(s.drop_last());
        if s.last().0 > m {
            s.last().0 as int
        } else {
            m
        }
    }
}

/// Largest y over the cells and 0.
pub open spec fn max_y0(s: Seq<(i32, i32)>) -> int
    decreases s.len(),
{
    if s.len() == 0 {
        0
    } else {
        let m = max_y0(s.drop_last());
        if s.last().1 > m {
            s.last().1 as int
        } else {
            m
        }
    }
}

/// The smallest x and y are at most every cell's and, for cells, taken by one.
pub proof fn lemma_min_bounds(s: Seq<(i32, i32)>)
    ensures
        forall|i: int| 0 <= i < s.len() ==> min_x(s) <= #[trigger] s[i].0,
        forall|i: int| 0 <= i < s.len() ==> min_y(s) <= #[trigger] s[i].1,
        s.len() > 0 ==> exists|i: int| 0 <= i < s.len() && #[trigger] s[i].0 == min_x(s),
        s.len() > 0 ==> exists|i: int| 0 <= i < s.len() && #[trigger] s[i].1 == min_y(s),
        min_x(s) <= i32::MAX,
        min_y(s) <= i32::MAX,
    decreases s.len(),
{
    if s.len() > 0 {
        let t = s.drop_last();
        lemma_min_bounds(t);
        assert forall|i: int| 0 <= i < s.len() implies min_x(s) <= #[trigger] s[i].0 by {
            if i < t.len() {
                assert(s[i] == t[i]);
            }
        }
        assert forall|i: int| 0 <= i < s.len() implies min_y(s) <= #[trigger] s[i].1 by {
            if i < t.len() {
                assert(s[i] == t[i]);
            }
        }
        if t.len() > 0 && s.last().0 >= min_x(t) {
            let k = choose|k: int| 0 <= k < t.len() && #[trigger] t[k].0 == min_x(t);
            assert(s[k] == t[k]);
        } else {
            assert(s[s.len() - 1].0 == min_x(s));
        }
        if t.len() > 0 && s.last().1 >= min_y(t) {
            let k = choose|k: int| 0 <= k < t.len() && #[trigger] t[k].1 == min_y(t);
            assert(s[k] == t[k]);
        } else {
            assert(s[s.len() - 1].1 == min_y(s));
        }
    }
}

/// The largest x and y (and 0) are at least every cell's and, when not 0,
/// taken by one.
pub proof fn lemma_max_bounds(s: Seq<(i32, i32)>)
    ensures
        forall|i: int| 0 <= i < s.len() ==> #[trigger] s[i].0 <= max_x0(s),
        forall|i: int| 0 <= i < s.len() ==> #[trigger] s[i].1 <= max_y0(s),
        max_x0(s) == 0 || exists|i: int| 0 <= i < s.len() && #[trigger] s[i].0 == max_x0(s),
        max_y0(s) == 0 || exists|i: int| 0 <= i < s.len() && #[trigger] s[i].1 == max_y0(s),
        0 <= max_x0(s) <= i32::MAX,
        0 <= max_y0(s) <= i32::MAX,
    decreases s.len(),
{
    if s.len() > 0 {
        let t = s.drop_last();
        lemma_max_bounds(t);
        assert forall|i: int| 0 <= i < s.len() implies #[trigger] s[i].0 <= max_x0(s) by {
            if i < t.len() {
                assert(s[i] == t[i]);
            }
        }
        assert forall|i: int| 0 <= i < s.len() implies #[trigger] s[i].1 <= max_y0(s) by {
            if i < t.len() {
                assert(s[i] == t[i]);
            }
        }
        if s.last().0 <= max_x0(t) {
            if max_x0(t) != 0 {
                let k = choose|k: int| 0 <= k < t.len() && #[trigger] t[k].0 == max_x0(t);
                assert(s[k] == t[k]);
            }
        } else {
            assert(s[s.len() - 1].0 == max_x0(s));
        }
        if s.last().1 <= max_y0(t) {
            if max_y0(t) != 0 {
                let k = choose|k: int| 0 <= k < t.len() && #[trigger] t[k].1 == max_y0(t);
                assert(s[k] == t[k]);
            }
        } else {
            assert(s[s.len() - 1].1 == max_y0(s));
        }
    }
}

/// The cells moved so that their smallest x and smallest y are both 0.
pub open spec fn align_spec(s: Seq<(i32, i32)>) -> Seq<(i32, i32)> {
    s.map_values(|c: (i32, i32)| ((c.0 - min_x(s)) as i32, (c.1 - min_y(s)) as i32))
}

/// A cell turned by `r` quarter turns clockwise about the origin.
pub open spec fn rotate_cell(c: (i32, i32), r: Rotation) -> (i32, i32) {
    match r {
        Rotation::Zero => c,
        Rotation::Right => ((-c.1) as i32, c.0),
        Rotation::Mirror => ((-c.0) as i32, (-c.1) as i32),
        Rotation::Left => (c.1, (-c.0) as i32),
    }
}

/// A cell mirrored at the y axis when `f` holds.
pub open spec fn flip_cell(c: (i32, i32), f: bool) -> (i32, i32) {
    if f {
        ((-c.0) as i32, c.1)
    } else {
        c
    }
}

/// The canonical cells of `s`, rotated by `r` and then flipped when `f` holds.
pub open spec fn oriented_cells(s: PieceShape, r: Rotation, f: bool) -> Seq<(i32, i32)> {
    shape_cells(s).map_values(|c: (i32, i32)| flip_cell(rotate_cell(c, r), f))
}

/// The cells of `s` rotated by `r`, flipped when `f` holds, and re-aligned to
/// the origin.
pub open spec fn transform_spec(s: PieceShape, r: Rotation, f: bool) -> Seq<(i32, i32)> {
    align_spec(oriented_cells(s, r, f))
}

/// The `i`-th (rotation, flip) pair in the order that variants are tried:
/// rotations None, Right, Mirror, Left, each unflipped then flipped.
pub open spec fn variant_combo(i: int) -> (Rotation, bool) {
    (rotation_of(i / 2), i % 2 == 1)
}

/// The transformed cells keep the number of cells of the shape and lie in
/// `0..=8` in both axes.
pub proof fn lemma_transform_cells(s: PieceShape, r: Rotation, f: bool)
    ensures
        transform_spec(s, r, f).len() == shape_cells(s).len(),
        forall|i: int|
            0 <= i < transform_spec(s, r, f).len() ==> 0 <= #[trigger] transform_spec(s, r, f)[i].0
                <= 8 && 0 <= transform_spec(s, r, f)[i].1 <= 8,
{
    lemma_shape_cells_small(s);
    let o = oriented_cells(s, r, f);
    assert(small_cells(o)) by {
        assert forall|i: int| 0 <= i < o.len() implies -4 <= #[trigger] o[i].0 <= 4 && -4 <= o[i].1
            <= 4 by {
            assert(-4 <= shape_cells(s)[i].0 <= 4 && -4 <= shape_cells(s)[i].1 <= 4);
        }
    }
    lemma_min_bounds(o);
    let kx = choose|k: int| 0 <= k < o.len() && #[trigger] o[k].0 == min_x(o);
    let ky = choose|k: int| 0 <= k < o.len() && #[trigger] o[k].1 == min_y(o);
    assert(-4 <= o[kx].0 <= 4 && -4 <= o[kx].1 <= 4);
    assert(-4 <= o[ky].0 <= 4 && -4 <= o[ky].1 <= 4);
    assert forall|i: int| 0 <= i < transform_spec(s, r, f).len() implies 0
        <= #[trigger] transform_spec(s, r, f)[i].0 <= 8 && 0 <= transform_spec(s, r, f)[i].1
        <= 8 by {
        assert(-4 <= o[i].0 <= 4 && -4 <= o[i].1 <= 4);
        assert(min_x(o) <= o[i].0 && min_y(o) <= o[i].1);
    }
}

/// The transformed cells touch both axes: some cell has x = 0 and some has y = 0.
pub proof fn lemma_transform_aligned(s: PieceShape, r: Rotation, f: bool)
    ensures
        exists|i: int| 0 <= i < transform_spec(s, r, f).len() && (#[trigger] transform_spec(s, r, f)[i]).0 == 0,
        exists|i: int| 0 <= i < transform_spec(s, r, f).len() && (#[trigger] transform_spec(s, r, f)[i]).1 == 0,
{
    lemma_shape_cells_small(s);
    let o = oriented_cells(s, r, f);
    lemma_min_bounds(o);
    let t = transform_spec(s, r, f);
    let kx = choose|k: int| 0 <= k < o.len() && #[trigger] o[k].0 == min_x(o);
    let ky = choose|k: int| 0 <= k < o.len() && #[trigger] o[k].1 == min_y(o);
    assert(t[kx].0 == 0);
    assert(t[ky].1 == 0);
}

/// The de-duplicated variants among the first `n` (rotation, flip) pairs:
/// a pair is kept when its transformed cells, as a set, differ from those of
/// all kept before.
pub open spec fn variants_upto(s: PieceShape, n: nat) -> Seq<(Rotation, bool, Seq<(i32, i32)>)>
    decreases n,
{
    if n == 0 {
        Seq::empty()
    } else {
        let prev = variants_upto(s, (n - 1) as nat);
        let combo = variant_combo(n - 1);
        let cells = transform_spec(s, combo.0, combo.1);
        if exists|k: int| 0 <= k < prev.len() && (#[trigger] prev[k]).2.to_set() == cells.to_set() {
            prev
        } else {
            prev.push((combo.0, combo.1, cells))
        }
    }
}

/// The de-duplicated variants of a shape over all 8 (rotation, flip) pairs.
pub open spec fn variants_spec(s: PieceShape) -> Seq<(Rotation, bool, Seq<(i32, i32)>)> {
    variants_upto(s, 8)
}

/// Facts about the de-duplicated variants among the first `n` pairs: each
/// entry holds the transform of its own pair, the cell sets are pairwise
/// distinct, and the cells of every pair tried are, as a set, among them.
pub proof fn lemma_variants_upto(s: PieceShape, n: nat)
    requires
        n <= 8,
    ensures
        variants_upto(s, n).len() <= n,
        forall|k: int|
            0 <= k < variants_upto(s, n).len() ==> (#[trigger] variants_upto(s, n)[k]).2
                == transform_spec(s, variants_upto(s, n)[k].0, variants_upto(s, n)[k].1),
        forall|a: int, b: int|
            0 <= a < b < variants_upto(s, n).len() ==> (#[trigger] variants_upto(s, n)[a]).2.to_set()
                != (#[trigger] variants_upto(s, n)[b]).2.to_set(),
        forall|i: int|
            #![trigger variant_combo(i)]
            0 <= i < n ==> exists|k: int|
                0 <= k < variants_upto(s, n).len() && (#[trigger] variants_upto(s, n)[k]).2.to_set()
                    == transform_spec(s, variant_combo(i).0, variant_combo(i).1).to_set(),
    decreases n,
{
    if n > 0 {
        lemma_variants_upto(s, (n - 1) as nat);
        let prev = variants_upto(s, (n - 1) as nat);
        let cur = variants_upto(s, n);
        let combo = variant_combo(n - 1);
        let cells = transform_spec(s, combo.0, combo.1);
        if exists|k: int| 0 <= k < prev.len() && (#[trigger] prev[k]).2.to_set() == cells.to_set() {
            assert(cur == prev);
            assert forall|i: int| #![trigger variant_combo(i)] 0 <= i < n implies exists|k: int|
                0 <= k < cur.len() && (#[trigger] cur[k]).2.to_set() == transform_spec(
                    s,
                    variant_combo(i).0,
                    variant_combo(i).1,
                ).to_set() by {
                if i == n - 1 {
                    let k = choose|k: int| 0 <= k < prev.len() && (#[trigger] prev[k]).2.to_set() == cells.to_set();
                    assert(cur[k] == prev[k]);
                }
            }
        } else {
            assert(cur == prev.push((combo.0, combo.1, cells)));
            assert forall|i: int| #![trigger variant_combo(i)] 0 <= i < n implies exists|k: int|
                0 <= k < cur.len() && (#[trigger] cur[k]).2.to_set() == transform_spec(
                    s,
                    variant_combo(i).0,
                    variant_combo(i).1,
                ).to_set() by {
                if i < n - 1 {
                    let k = choose|k: int|
                        0 <= k < prev.len() && (#[trigger] prev[k]).2.to_set() == transform_spec(
                            s,
                            variant_combo(i).0,
                            variant_combo(i).1,
                        ).to_set();
                    assert(cur[k] == prev[k]);
                } else {
                    assert(cur[prev.len() as int].2 == cells);
                }
            }
            assert forall|a: int, b: int| 0 <= a < b < cur.len() implies (#[trigger] cur[a]).2.to_set()
                != (#[trigger] cur[b]).2.to_set() by {
                assert(cur[a] == prev[a]);
                if b < prev.len() {
                    assert(cur[b] == prev[b]);
                }
            }
        }
    }
}

/// Whether `(r, f)` is the pair that `variants` keeps for its cell list.
pub open spec fn is_variant_rep(s: PieceShape, r: Rotation, f: bool) -> bool {
    exists|k: int|
        0 <= k < variants_spec(s).len() && (#[trigger] variants_spec(s)[k]).0 == r
            && variants_spec(s)[k].1 == f
}

pub open spec fn shape_token(s: PieceShape) -> Seq<char> {
    match s {
        PieceShape::Mono => "MONO"@,
        PieceShape::Domino => "DOMINO"@,
        PieceShape::TrioL => "TRIO_L"@,
        PieceShape::TrioI => "TRIO_I"@,
        PieceShape::TetroO => "TETRO_O"@,
        PieceShape::TetroT => "TETRO_T"@,
        PieceShape::TetroI => "TETRO_I"@,
        PieceShape::TetroL => "TETRO_L"@,
        PieceShape::TetroZ => "TETRO_Z"@,
        PieceShape::PentoL => "PENTO_L"@,
        PieceShape::PentoT => "PENTO_T"@,
        PieceShape::PentoV => "PENTO_V"@,
        PieceShape::PentoS => "PENTO_S"@,
        PieceShape::PentoZ => "PENTO_Z"@,
        PieceShape::PentoI => "PENTO_I"@,
        PieceShape::PentoP => "PENTO_P"@,
        PieceShape::PentoW => "PENTO_W"@,
        PieceShape::PentoU => "PENTO_U"@,
        PieceShape::PentoR => "PENTO_R"@,
        PieceShape::PentoX => "PENTO_X"@,
        PieceShape::PentoY => "PENTO_Y"@,
    }
}

pub open spec fn shape_from_token(t: Seq<char>) -> Option<PieceShape> {
    if t == "MONO"@ {
        Some(PieceShape::Mono)
    } else if t == "DOMINO"@ {
        Some(PieceShape::Domino)
    } else if t == "TRIO_L"@ {
        Some(PieceShape::TrioL)
    } else if t == "TRIO_I"@ {
        Some(PieceShape::TrioI)
    } else if t == "TETRO_O"@ {
        Some(PieceShape::TetroO)
    } else if t == "TETRO_T"@ {
        Some(PieceShape::TetroT)
    } else if t == "TETRO_I"@ {
        Some(PieceShape::TetroI)
    } else if t == "TETRO_L"@ {
        Some(PieceShape::TetroL)
    } else if t == "TETRO_Z"@ {
        Some(PieceShape::TetroZ)
    } else if t == "PENTO_L"@ {
        Some(PieceShape::PentoL)
    } else if t == "PENTO_T"@ {
        Some(PieceShape::PentoT)
    } else if t == "PENTO_V"@ {
        Some(PieceShape::PentoV)
    } else if t == "PENTO_S"@ {
        Some(PieceShape::PentoS)
    } else if t == "PENTO_Z"@ {
        Some(PieceShape::PentoZ)
    } else if t == "PENTO_I"@ {
        Some(PieceShape::PentoI)
    } else if t == "PENTO_P"@ {
        Some(PieceShape::PentoP)
    } else if t == "PENTO_W"@ {
        Some(PieceShape::PentoW)
    } else if t == "PENTO_U"@ {
        Some(PieceShape::PentoU)
    } else if t == "PENTO_R"@ {
        Some(PieceShape::PentoR)
    } else if t == "PENTO_X"@ {
        Some(PieceShape::PentoX)
    } else if t == "PENTO_Y"@ {
        Some(PieceShape::PentoY)
    } else {
        None
    }
}

/// A single de-duplicated variant of a [`PieceShape`]: which (rotation, is_flipped)
/// produced the contained aligned shape coordinate set.
#[derive(Debug, Clone, PartialEq, Eq)]
pub struct ShapeVariant {
    pub rotation: Rotation,
    pub is_flipped: bool,
    pub shape: Vec<(i32, i32)>,
}

impl View for ShapeVariant {
    type V = (Rotation, bool, Seq<(i32, i32)>);

    open spec fn view(&self) -> (Rotation, bool, Seq<(i32, i32)>) {
        (self.rotation, self.is_flipped, self.shape@)
    }
}

/// Whether the cell lists hold the same cells, in whatever order.
fn same_cell_set(a: &Vec<(i32, i32)>, b: &Vec<(i32, i32)>) -> (r: bool)
    ensures
        r == (a@.to_set() == b@.to_set()),
{
    let mut i: usize = 0;
    while i < a.len()
        invariant
            i <= a.len(),
            forall|k: int| 0 <= k < i ==> b@.contains(#[trigger] a@[k]),
        decreases a.len() - i,
    {
        if !holds_cell(b, a[i]) {
            assert(a@.to_set().contains(a@[i as int]));
            assert(!b@.to_set().contains(a@[i as int]));
            return false;
        }
        i = i + 1;
    }
    let mut j: usize = 0;
    while j < b.len()
        invariant
            j <= b.len(),
            forall|k: int| 0 <= k < a@.len() ==> b@.contains(#[trigger] a@[k]),
            forall|k: int| 0 <= k < j ==> a@.contains(#[trigger] b@[k]),
        decreases b.len() - j,
    {
        if !holds_cell(a, b[j]) {
            assert(b@.to_set().contains(b@[j as int]));
            assert(!a@.to_set().contains(b@[j as int]));
            return false;
        }
        j = j + 1;
    }
    assert(a@.to_set() =~= b@.to_set()) by {
        assert forall|c: (i32, i32)| a@.to_set().contains(c) implies b@.to_set().contains(c) by {
            let k = choose|k: int| 0 <= k < a@.len() && a@[k] == c;
            assert(b@.contains(a@[k]));
        }
        assert forall|c: (i32, i32)| b@.to_set().contains(c) implies a@.to_set().contains(c) by {
            let k = choose|k: int| 0 <= k < b@.len() && b@[k] == c;
            assert(a@.contains(b@[k]));
        }
    }
    true
}

/// Whether the cell list holds `c`.
fn holds_cell(v: &Vec<(i32, i32)>, c: (i32, i32)) -> (r: bool)
    ensures
        r == v@.contains(c),
{
    let mut i: usize = 0;
    while i < v.len()
        invariant
            i <= v.len(),
            forall|k: int| 0 <= k < i ==> v@[k] != c,
        decreases v.len() - i,
    {
        if v[i].0 == c.0 && v[i].1 == c.1 {
            assert(v@[i as int] == c);
            return true;
        }
        i = i + 1;
    }
    false
}

/// Re-align a set of coordinates so that the minimum x and minimum y are both 0.
pub fn align(coords: &[(i32, i32)]) -> (r: Vec<(i32, i32)>)
    requires
        forall|i: int|
            0 <= i < coords@.len() ==> #[trigger] coords@[i].0 - min_x(coords@) <= i32::MAX
                && coords@[i].1 - min_y(coords@) <= i32::MAX,
    ensures
        r@ == align_spec(coords@),
{
    if coords.len() == 0 {
        return Vec::new();
    }
    let mut mx: i32 = i32::MAX;
    let mut my: i32 = i32::MAX;
    let mut i: usize = 0;
    while i < coords.len()
        invariant
            i <= coords@.len(),
            mx == min_x(coords@.take(i as int)),
            my == min_y(coords@.take(i as int)),
        decreases coords@.len() - i,
    {
        proof {
            assert(coords@.take(i + 1).drop_last() =~= coords@.take(i as int));
        }
        let (x, y) = coords[i];
        if x < mx {
            mx = x;
        }
        if y < my {
            my = y;
        }
        i = i + 1;
    }
    assert(coords@.take(coords@.len() as int) =~= coords@);
    proof {
        lemma_min_bounds(coords@);
    }
    let mut out: Vec<(i32, i32)> = Vec::new();
    let mut j: usize = 0;
    while j < coords.len()
        invariant
            j <= coords@.len(),
            mx == min_x(coords@),
            my == min_y(coords@),
            forall|k: int|
                0 <= k < coords@.len() ==> #[trigger] coords@[k].0 - min_x(coords@) <= i32::MAX
                    && coords@[k].1 - min_y(coords@) <= i32::MAX,
            forall|k: int| 0 <= k < coords@.len() ==> mx <= #[trigger] coords@[k].0,
            forall|k: int| 0 <= k < coords@.len() ==> my <= #[trigger] coords@[k].1,
            out@ =~= align_spec(coords@).take(j as int),
        decreases coords@.len() - j,
    {
        let (x, y) = coords[j];
        out.push((x - mx, y - my));
        j = j + 1;
    }
    assert(align_spec(coords@).take(coords@.len() as int) =~= align_spec(coords@));
    out
}

/// Turns and flips the cells, keeping the order of the cells.
fn orient(base: &[(i32, i32)], rotation: Rotation, is_flipped: bool) -> (r: Vec<(i32, i32)>)
    requires
        small_cells(base@),
    ensures
        r@ == base@.map_values(|c: (i32, i32)| flip_cell(rotate_cell(c, rotation), is_flipped)),
        small_cells(r@),
{
    let mut out: Vec<(i32, i32)> = Vec::new();
    let mut i: usize = 0;
    while i < base.len()
        invariant
            i <= base@.len(),
            small_cells(base@),
            out@ =~= base@.map_values(
                |c: (i32, i32)| flip_cell(rotate_cell(c, rotation), is_flipped),
            ).take(i as int),
        decreases base@.len() - i,
    {
        let (x, y) = base[i];
        assert(-4 <= base@[i as int].0 <= 4 && -4 <= base@[i as int].1 <= 4);
        let (rx, ry) = match rotation {
            Rotation::Zero => (x, y),
            Rotation::Right => (-y, x),
            Rotation::Mirror => (-x, -y),
            Rotation::Left => (y, -x),
        };
        let c = if is_flipped {
            (-rx, ry)
        } else {
            (rx, ry)
        };
        out.push(c);
        i = i + 1;
    }
    let ghost m = base@.map_values(|c: (i32, i32)| flip_cell(rotate_cell(c, rotation), is_flipped));
    assert(m.take(base@.len() as int) =~= m);
    assert(small_cells(out@)) by {
        assert forall|k: int| 0 <= k < out@.len() implies -4 <= #[trigger] out@[k].0 <= 4 && -4
            <= out@[k].1 <= 4 by {
            assert(out@[k] == m[k]);
            assert(-4 <= base@[k].0 <= 4 && -4 <= base@[k].1 <= 4);
        }
    }
    out
}

impl PieceShape {
    /// All 21 shapes in their canonical ordinal order.
    pub const ALL: [PieceShape; 21] = [
        PieceShape::Mono,
        PieceShape::Domino,
        PieceShape::TrioL,
        PieceShape::TrioI,
        PieceShape::TetroO,
        PieceShape::TetroT,
        PieceShape::TetroI,
        PieceShape::TetroL,
        PieceShape::TetroZ,
        PieceShape::PentoL,
        PieceShape::PentoT,
        PieceShape::PentoV,
        PieceShape::PentoS,
        PieceShape::PentoZ,
        PieceShape::PentoI,
        PieceShape::PentoP,
        PieceShape::PentoW,
        PieceShape::PentoU,
        PieceShape::PentoR,
        PieceShape::PentoX,
        PieceShape::PentoY,
    ];

    pub const TOTAL: usize = 21;

    /// Canonical aligned coordinate set of this shape (without rotation/flip).
    pub fn coordinates(self) -> (r: &'static [(i32, i32)])
        ensures
            r@ == shape_cells(self),
    {
        match self {
            PieceShape::Mono => &[(0, 0)],
            PieceShape::Domino => &[(0, 0), (1, 0)],
            PieceShape::TrioL => &[(0, 0), (0, 1), (1, 1)],
            PieceShape::TrioI => &[(0, 0), (0, 1), (0, 2)],
            PieceShape::TetroO => &[(0, 0), (1, 0), (0, 1), (1, 1)],
            PieceShape::TetroT => &[(0, 0), (1, 0), (2, 0), (1, 1)],
            PieceShape::TetroI => &[(0, 0), (0, 1), (0, 2), (0, 3)],
            PieceShape::TetroL => &[(0, 0), (0, 1), (0, 2), (1, 2)],
            PieceShape::TetroZ => &[(0, 0), (1, 0), (1, 1), (2, 1)],
            PieceShape::PentoL => &[(0, 0), (0, 1), (0, 2), (0, 3), (1, 3)],
            PieceShape::PentoT => &[(0, 0), (1, 0), (2, 0), (1, 1), (1, 2)],
            PieceShape::PentoV => &[(0, 0), (0, 1), (0, 2), (1, 2), (2, 2)],
            PieceShape::PentoS => &[(1, 0), (2, 0), (3, 0), (0, 1), (1, 1)],
            PieceShape::PentoZ => &[(0, 0), (1, 0), (1, 1), (1, 2), (2, 2)],
            PieceShape::PentoI => &[(0, 0), (0, 1), (0, 2), (0, 3), (0, 4)],
            PieceShape::PentoP => &[(0, 0), (1, 0), (0, 1), (1, 1), (0, 2)],
            PieceShape::PentoW => &[(0, 0), (0, 1), (1, 1), (1, 2), (2, 2)],
            PieceShape::PentoU => &[(0, 0), (0, 1), (1, 1), (2, 1), (2, 0)],
            PieceShape::PentoR => &[(0, 1), (1, 1), (1, 2), (2, 1), (2, 0)],
            PieceShape::PentoX => &[(1, 0), (0, 1), (1, 1), (2, 1), (1, 2)],
            PieceShape::PentoY => &[(0, 1), (1, 0), (1, 1), (1, 2), (1, 3)],
        }
    }

    /// The number of cells of this shape.
    pub fn size(self) -> (r: usize)
        ensures
            r == shape_cells(self).len(),
    {
        self.coordinates().len()
    }

    /// Returns true if this shape is a pentomino (size 5).
    pub fn is_pentomino(self) -> (r: bool)
        ensures
            r == (shape_cells(self).len() == 5),
    {
        self.size() == 5
    }

    /// Width and height of the bounding box of the canonical cells, which
    /// start at the (0,0) anchor: the largest x and the largest y, each plus one.
    pub fn bounding_box(self) -> (r: (i32, i32))
        ensures
            r.0 == max_x0(shape_cells(self)) + 1,
            r.1 == max_y0(shape_cells(self)) + 1,
            forall|i: int|
                0 <= i < shape_cells(self).len() ==> 0 <= #[trigger] shape_cells(self)[i].0 < r.0
                    && 0 <= shape_cells(self)[i].1 < r.1,
    {
        let (dx, dy) = bbox(self.coordinates());
        proof {
            lemma_shape_cells_small(self);
            lemma_max_bounds(shape_cells(self));
        }
        (dx + 1, dy + 1)
    }

    /// The ordinal of this shape.
    pub fn to_index(self) -> (r: usize)
        ensures
            r == shape_index(self),
    {
        match self {
            PieceShape::Mono => 0,
            PieceShape::Domino => 1,
            PieceShape::TrioL => 2,
            PieceShape::TrioI => 3,
            PieceShape::TetroO => 4,
            PieceShape::TetroT => 5,
            PieceShape::TetroI => 6,
            PieceShape::TetroL => 7,
            PieceShape::TetroZ => 8,
            PieceShape::PentoL => 9,
            PieceShape::PentoT => 10,
            PieceShape::PentoV => 11,
            PieceShape::PentoS => 12,
            PieceShape::PentoZ => 13,
            PieceShape::PentoI => 14,
            PieceShape::PentoP => 15,
            PieceShape::PentoW => 16,
            PieceShape::PentoU => 17,
            PieceShape::PentoR => 18,
            PieceShape::PentoX => 19,
            PieceShape::PentoY => 20,
        }
    }

    /// The shape transformed by `rotation` then (optionally) a flip at the y axis,
    /// then re-aligned so that the smallest x and y are 0.
    pub fn transform(self, rotation: Rotation, is_flipped: bool) -> (r: Vec<(i32, i32)>)
        ensures
            r@ == transform_spec(self, rotation, is_flipped),
    {
        proof {
            lemma_shape_cells_small(self);
        }
        let oriented = orient(self.coordinates(), rotation, is_flipped);
        proof {
            lemma_min_bounds(oriented@);
            assert(oriented@ == oriented_cells(self, rotation, is_flipped));
            assert forall|i: int| 0 <= i < oriented@.len() implies #[trigger] oriented@[i].0
                - min_x(oriented@) <= i32::MAX && oriented@[i].1 - min_y(oriented@)
                <= i32::MAX by {
                let kx = choose|k: int| 0 <= k < oriented@.len() && #[trigger] oriented@[k].0 == min_x(oriented@);
                let ky = choose|k: int| 0 <= k < oriented@.len() && #[trigger] oriented@[k].1 == min_y(oriented@);
                assert(-4 <= oriented@[kx].0 <= 4 && -4 <= oriented@[kx].1 <= 4);
                assert(-4 <= oriented@[ky].0 <= 4 && -4 <= oriented@[ky].1 <= 4);
                assert(-4 <= oriented@[i].0 <= 4 && -4 <= oriented@[i].1 <= 4);
            }
        }
        align(oriented.as_slice())
    }

    /// The de-duplicated variants: each distinct aligned cell list, paired with
    /// the first (rotation, is_flipped) that produced it.
    pub fn variants(self) -> (r: Vec<ShapeVariant>)
        ensures
            r@.len() == variants_spec(self).len(),
            forall|i: int| 0 <= i < r@.len() ==> #[trigger] r@[i]@ == variants_spec(self)[i],
    {
        let mut out: Vec<ShapeVariant> = Vec::new();
        let mut n: usize = 0;
        while n < 8
            invariant
                n <= 8,
                out@.len() == variants_upto(self, n as nat).len(),
                forall|i: int|
                    0 <= i < out@.len() ==> #[trigger] out@[i]@ == variants_upto(self, n as nat)[i],
            decreases 8 - n,
        {
            let r = if n / 2 == 0 {
                Rotation::Zero
            } else if n / 2 == 1 {
                Rotation::Right
            } else if n / 2 == 2 {
                Rotation::Mirror
            } else {
                Rotation::Left
            };
            let flip = n % 2 == 1;
            assert(variant_combo(n as int) == (r, flip));
            let shape = self.transform(r, flip);
            let ghost prev = variants_upto(self, n as nat);
            let mut found = false;
            let mut k: usize = 0;
            while k < out.len()
                invariant
                    k <= out@.len(),
                    out@.len() == prev.len(),
                    forall|i: int| 0 <= i < out@.len() ==> #[trigger] out@[i]@ == prev[i],
                    found == exists|j: int| 0 <= j < k && (#[trigger] prev[j]).2.to_set() == shape@.to_set(),
                decreases out@.len() - k,
            {
                let same = same_cell_set(&out[k].shape, &shape);
                proof {
                    assert(out@[k as int]@ == prev[k as int]);
                    if same {
                        assert(prev[k as int].2.to_set() == shape@.to_set());
                    }
                }
                found = found || same;
                k = k + 1;
            }
            if !found {
                out.push(ShapeVariant { rotation: r, is_flipped: flip, shape });
            }
            n = n + 1;
        }
        out
    }

    /// The protocol token of this shape (`MONO`, ..., `PENTO_Y`).
    pub fn as_str(&self) -> (r: &'static str)
        ensures
            r@ == shape_token(*self),
    {
        match self {
            PieceShape::Mono => "MONO",
            PieceShape::Domino => "DOMINO",
            PieceShape::TrioL => "TRIO_L",
            PieceShape::TrioI => "TRIO_I",
            PieceShape::TetroO => "TETRO_O",
            PieceShape::TetroT => "TETRO_T",
            PieceShape::TetroI => "TETRO_I",
            PieceShape::TetroL => "TETRO_L",
            PieceShape::TetroZ => "TETRO_Z",
            PieceShape::PentoL => "PENTO_L",
            PieceShape::PentoT => "PENTO_T",
            PieceShape::PentoV => "PENTO_V",
            PieceShape::PentoS => "PENTO_S",
            PieceShape::PentoZ => "PENTO_Z",
            PieceShape::PentoI => "PENTO_I",
            PieceShape::PentoP => "PENTO_P",
            PieceShape::PentoW => "PENTO_W",
            PieceShape::PentoU => "PENTO_U",
            PieceShape::PentoR => "PENTO_R",
            PieceShape::PentoX => "PENTO_X",
            PieceShape::PentoY => "PENTO_Y",
        }
    }

    /// Parses a shape token; surrounding whitespace is ignored.
    pub fn from_str(s: &str) -> (r: Result<PieceShape, String>)
        ensures
            parse_result(shape_from_token(trim_spec(s@)), "piece shape"@, s@, r),
    {
        let t = trim(s);
        if str_equal(t, "MONO") {
            Ok(PieceShape::Mono)
        } else if str_equal(t, "DOMINO") {
            Ok(PieceShape::Domino)
        } else if str_equal(t, "TRIO_L") {
            Ok(PieceShape::TrioL)
        } else if str_equal(t, "TRIO_I") {
            Ok(PieceShape::TrioI)
        } else if str_equal(t, "TETRO_O") {
            Ok(PieceShape::TetroO)
        } else if str_equal(t, "TETRO_T") {
            Ok(PieceShape::TetroT)
        } else if str_equal(t, "TETRO_I") {
            Ok(PieceShape::TetroI)
        } else if str_equal(t, "TETRO_L") {
            Ok(PieceShape::TetroL)
        } else if str_equal(t, "TETRO_Z") {
            Ok(PieceShape::TetroZ)
        } else if str_equal(t, "PENTO_L") {
            Ok(PieceShape::PentoL)
        } else if str_equal(t, "PENTO_T") {
            Ok(PieceShape::PentoT)
        } else if str_equal(t, "PENTO_V") {
            Ok(PieceShape::PentoV)
        } else if str_equal(t, "PENTO_S") {
            Ok(PieceShape::PentoS)
        } else if str_equal(t, "PENTO_Z") {
            Ok(PieceShape::PentoZ)
        } else if str_equal(t, "PENTO_I") {
            Ok(PieceShape::PentoI)
        } else if str_equal(t, "PENTO_P") {
            Ok(PieceShape::PentoP)
        } else if str_equal(t, "PENTO_W") {
            Ok(PieceShape::PentoW)
        } else if str_equal(t, "PENTO_U") {
            Ok(PieceShape::PentoU)
        } else if str_equal(t, "PENTO_R") {
            Ok(PieceShape::PentoR)
        } else if str_equal(t, "PENTO_X") {
            Ok(PieceShape::PentoX)
        } else if str_equal(t, "PENTO_Y") {
            Ok(PieceShape::PentoY)
        } else {
            Err(unknown_token_error("piece shape", t))
        }
    }
}

/// Largest x and largest y over the cells (at least 0 each): the extent of the
/// bounding box measured from the origin.
pub fn bbox(shape: &[(i32, i32)]) -> (r: (i32, i32))
    ensures
        r.0 == max_x0(shape@),
        r.1 == max_y0(shape@),
{
    let mut dx: i32 = 0;
    let mut dy: i32 = 0;
    let mut i: usize = 0;
    while i < shape.len()
        invariant
            i <= shape@.len(),
            dx == max_x0(shape@.take(i as int)),
            dy == max_y0(shape@.take(i as int)),
        decreases shape@.len() - i,
    {
        proof {
            assert(shape@.take(i + 1).drop_last() =~= shape@.take(i as int));
        }
        let (x, y) = shape[i];
        if x > dx {
            dx = x;
        }
        if y > dy {
            dy = y;
        }
        i = i + 1;
    }
    assert(shape@.take(shape@.len() as int) =~= shape@);
    (dx, dy)
}

/// A fresh list of all 21 shapes in canonical order.
pub fn all_shapes() -> (r: Vec<PieceShape>)
    ensures
        r@.len() == 21,
        forall|i: int| 0 <= i < 21 ==> #[trigger] r@[i] == shape_at(i),
{
    let mut out: Vec<PieceShape> = Vec::new();
    let mut i: usize = 0;
    while i < 21
        invariant
            i <= 21,
            out@.len() == i,
            forall|k: int| 0 <= k < i ==> #[trigger] out@[k] == shape_at(k),
        decreases 21 - i,
    {
        out.push(PieceShape::ALL[i]);
        i = i + 1;
    }
    out
}


/// The canonical cells of a shape are pairwise different.
pub proof fn lemma_shape_cells_distinct(s: PieceShape)
    ensures
        forall|a: int, b: int|
            0 <= a < b < shape_cells(s).len() ==> #[trigger] shape_cells(s)[a]
                != #[trigger] shape_cells(s)[b],
{
}

/// The transformed cells of a shape are pairwise different.
pub proof fn lemma_transform_distinct(s: PieceShape, r: Rotation, f: bool)
    ensures
        forall|a: int, b: int|
            0 <= a < b < transform_spec(s, r, f).len() ==> #[trigger] transform_spec(s, r, f)[a]
                != #[trigger] transform_spec(s, r, f)[b],
{
    lemma_shape_cells_small(s);
    lemma_shape_cells_distinct(s);
    let c = shape_cells(s);
    let o = oriented_cells(s, r, f);
    let t = transform_spec(s, r, f);
    lemma_min_bounds(o);
    let kx = choose|k: int| 0 <= k < o.len() && #[trigger] o[k].0 == min_x(o);
    let ky = choose|k: int| 0 <= k < o.len() && #[trigger] o[k].1 == min_y(o);
    assert(-4 <= c[kx].0 <= 4 && -4 <= c[kx].1 <= 4);
    assert(-4 <= c[ky].0 <= 4 && -4 <= c[ky].1 <= 4);
    assert forall|a: int, b: int| 0 <= a < b < t.len() implies #[trigger] t[a] != #[trigger] t[b] by {
        assert(c[a] != c[b]);
        assert(-4 <= c[a].0 <= 4 && -4 <= c[a].1 <= 4);
        assert(-4 <= c[b].0 <= 4 && -4 <= c[b].1 <= 4);
        assert(o[a] == flip_cell(rotate_cell(c[a], r), f));
        assert(o[b] == flip_cell(rotate_cell(c[b], r), f));
        assert(o[a] != o[b]);
    }
}

/// A turned and flipped shape keeps its number of cells, holds each cell
/// once, and after re-aligning lies in the first quadrant with some cell on
/// each axis.
pub proof fn law_transform(s: PieceShape, r: Rotation, f: bool)
    ensures
        transform_spec(s, r, f).len() == shape_cells(s).len(),
        forall|i: int|
            0 <= i < transform_spec(s, r, f).len() ==> 0 <= #[trigger] transform_spec(s, r, f)[i].0
                && 0 <= transform_spec(s, r, f)[i].1,
        exists|i: int|
            0 <= i < transform_spec(s, r, f).len() && (#[trigger] transform_spec(s, r, f)[i]).0 == 0,
        exists|i: int|
            0 <= i < transform_spec(s, r, f).len() && (#[trigger] transform_spec(s, r, f)[i]).1 == 0,
        forall|a: int, b: int|
            0 <= a < b < transform_spec(s, r, f).len() ==> #[trigger] transform_spec(s, r, f)[a]
                != #[trigger] transform_spec(s, r, f)[b],
{
    lemma_transform_cells(s, r, f);
    lemma_transform_aligned(s, r, f);
    lemma_transform_distinct(s, r, f);
}

/// Turning a cell is a rotation about the origin: turning by `a` and then by
/// `b` is turning by the two combined, so a left turn undoes a right turn
/// and two of either make the half turn; a right turn takes the x axis to
/// the y axis (clockwise with y pointing down) and keeps the distance from
/// the origin; flipping twice changes nothing.
pub proof fn law_rotate_cell(c: (i32, i32), a: Rotation, b: Rotation)
    requires
        -1000 <= c.0 <= 1000,
        -1000 <= c.1 <= 1000,
    ensures
        rotate_cell(rotate_cell(c, a), b) == rotate_cell(c, combine_rotations(a, b)),
        rotate_cell(c, Rotation::Right).0 * rotate_cell(c, Rotation::Right).0 + rotate_cell(c, Rotation::Right).1
            * rotate_cell(c, Rotation::Right).1 == c.0 * c.0 + c.1 * c.1,
        rotate_cell((1i32, 0i32), Rotation::Right) == (0i32, 1i32),
        flip_cell(flip_cell(c, true), true) == c,
{
    let r = rotate_cell(c, Rotation::Right);
    assert(r.0 * r.0 == c.1 * c.1) by (nonlinear_arith)
        requires
            r.0 == -c.1,
    ;
}

/// The cells of a shape turned by `r` and then a quarter to the right are
/// those of the shape turned by `r` combined with the right turn (before
/// re-aligning), in the same order.
pub proof fn law_turn_oriented(s: PieceShape, r: Rotation)
    ensures
        oriented_cells(s, combine_rotations(r, Rotation::Right), false) == oriented_cells(s, r, false).map_values(
            |c: (i32, i32)| rotate_cell(c, Rotation::Right),
        ),
{
    lemma_shape_cells_small(s);
    let a = oriented_cells(s, combine_rotations(r, Rotation::Right), false);
    let b = oriented_cells(s, r, false).map_values(|c: (i32, i32)| rotate_cell(c, Rotation::Right));
    assert forall|i: int| 0 <= i < a.len() implies a[i] == b[i] by {
        law_rotate_cell(shape_cells(s)[i], r, Rotation::Right);
    }
    assert(a =~= b);
}

/// The variants of a shape: one to eight of them, each the transform of its
/// own rotation and flip, no two covering the same set of cells, and every
/// rotation and flip of the shape covering the cells of one of them.
pub proof fn law_variants(s: PieceShape)
    ensures
        1 <= variants_spec(s).len() <= 8,
        forall|k: int|
            0 <= k < variants_spec(s).len() ==> (#[trigger] variants_spec(s)[k]).2 == transform_spec(
                s,
                variants_spec(s)[k].0,
                variants_spec(s)[k].1,
            ),
        forall|a: int, b: int|
            0 <= a < b < variants_spec(s).len() ==> (#[trigger] variants_spec(s)[a]).2.to_set()
                != (#[trigger] variants_spec(s)[b]).2.to_set(),
        forall|r: Rotation, f: bool|
            #![trigger transform_spec(s, r, f)]
            exists|k: int|
                0 <= k < variants_spec(s).len() && (#[trigger] variants_spec(s)[k]).2.to_set()
                    == transform_spec(s, r, f).to_set(),
{
    lemma_variants_upto(s, 8);
    assert(variant_combo(0) == (Rotation::Zero, false));
    assert forall|r: Rotation, f: bool| #![trigger transform_spec(s, r, f)] exists|k: int|
        0 <= k < variants_spec(s).len() && (#[trigger] variants_spec(s)[k]).2.to_set()
            == transform_spec(s, r, f).to_set() by {
        let i = 2 * crate::neutral::rotation_value(r) + if f { 1int } else { 0int };
        assert(0 <= i < 8);
        assert(i / 2 == crate::neutral::rotation_value(r));
        assert(rotation_of(i / 2) == r);
        assert(variant_combo(i) == (r, f));
        let k = choose|k: int|
            0 <= k < variants_upto(s, 8).len() && (#[trigger] variants_upto(s, 8)[k]).2.to_set()
                == transform_spec(s, variant_combo(i).0, variant_combo(i).1).to_set();
        assert(variants_spec(s)[k].2.to_set() == transform_spec(s, r, f).to_set());
    }
}

/// Reading back the token of a shape, as `from_str` reads it, gives the
/// shape; and the ordinal of a shape leads back to it.
pub proof fn law_shape_token_round_trip(s: PieceShape)
    ensures
        shape_from_token(trim_spec(shape_token(s))) == Some(s),
        shape_at(shape_index(s)) == s,
        0 <= shape_index(s) < 21,
{
    reveal_strlit("MONO");
    reveal_strlit("DOMINO");
    reveal_strlit("TRIO_L");
    reveal_strlit("TRIO_I");
    reveal_strlit("TETRO_O");
    reveal_strlit("TETRO_T");
    reveal_strlit("TETRO_I");
    reveal_strlit("TETRO_L");
    reveal_strlit("TETRO_Z");
    reveal_strlit("PENTO_L");
    reveal_strlit("PENTO_T");
    reveal_strlit("PENTO_V");
    reveal_strlit("PENTO_S");
    reveal_strlit("PENTO_Z");
    reveal_strlit("PENTO_I");
    reveal_strlit("PENTO_P");
    reveal_strlit("PENTO_W");
    reveal_strlit("PENTO_U");
    reveal_strlit("PENTO_R");
    reveal_strlit("PENTO_X");
    reveal_strlit("PENTO_Y");
    crate::neutral::lemma_trim_plain(shape_token(s));
}

} // verus!
