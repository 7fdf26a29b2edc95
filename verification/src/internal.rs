//! The game model: the 20x20 board and the full game state, with the
//! bookkeeping of turns, colours and undeployed shapes.
use vstd::prelude::*;

use crate::neutral::{
    color_at, color_of, content_letter, content_of, diagonal_neighbors_spec, has_all_neighbors, neighbors_spec,
    Color, Coordinates, FieldContent, LastMoveMonoMap, Move, PieceShape, Team, team_of,
};
use crate::piece_shape::{all_shapes, shape_at};

pub use crate::messages::{
    AdminMessage, ComMessage, GameResult, PreparedRoom, RoomMessage, ScoreDefinition,
};
pub use crate::moves::MoveChange;
pub use crate::rules::{
    is_on_border, possible_moves, possible_moves_normal, possible_start_moves, remove_valid_colors,
    sensible_moves,
    validate_move, validate_set_move, validate_skip_move,
};
pub use crate::scoring::points_from_undeployed;


verus! {

pub const BOARD_LENGTH: usize = 20;

pub const ROUND_LIMIT: u32 = 25;

pub const TOTAL_PIECE_SHAPES: usize = 21;

/// When true, `make_move` validates before applying.
pub const VALIDATE_MOVE: bool = true;

/// Total squares across all 21 pieces: 1*1 + 1*2 + 2*3 + 5*4 + 12*5 = 89.
pub const SUM_MAX_SQUARES: u32 = 89;

#[derive(Debug, PartialEq, Eq, Clone)]
pub struct Joined {
    pub room_id: String,
}

/// opposite of joined
#[derive(Debug, PartialEq, Eq, Clone)]
pub struct Left {
    pub room_id: String,
}

#[derive(Debug, PartialEq, Eq, Clone, Copy)]
pub struct Row {
    pub fields: [FieldContent; BOARD_LENGTH],
}

/// The board: `rows[y].fields[x]`, y=0 is the top row, y increases downward.
#[derive(Debug, PartialEq, Eq, Clone)]
pub struct Board {
    pub rows: [Row; BOARD_LENGTH],
}

/// Whether `(x, y)` lies on the 20x20 board.
pub open spec fn in_board(x: int, y: int) -> bool {
    0 <= x < BOARD_LENGTH && 0 <= y < BOARD_LENGTH
}

pub open spec fn on_board(c: Coordinates) -> bool {
    in_board(c.x as int, c.y as int)
}

impl View for Board {
    type V = Seq<Seq<FieldContent>>;

    open spec fn view(&self) -> Seq<Seq<FieldContent>> {
        self.rows@.map_values(|r: Row| r.fields@)
    }
}

impl Board {
    /// The content of the cell in column `x` and row `y`.
    pub open spec fn cell(&self, x: int, y: int) -> FieldContent {
        self.rows@[y].fields@[x]
    }

    /// The content of the cell at `c`.
    pub open spec fn at(&self, c: Coordinates) -> FieldContent {
        self.cell(c.x as int, c.y as int)
    }

    /// Whether a cardinal neighbour of `pos` on the board holds `color`.
    pub open spec fn borders_spec(&self, pos: Coordinates, color: Color) -> bool {
        exists|i: int|
            0 <= i < 4 && on_board(#[trigger] neighbors_spec(pos)[i]) && self.at(
                neighbors_spec(pos)[i],
            ) == content_of(color)
    }

    /// Whether a diagonal neighbour of `pos` on the board holds `color`.
    pub open spec fn corners_spec(&self, pos: Coordinates, color: Color) -> bool {
        exists|i: int|
            0 <= i < 4 && on_board(#[trigger] diagonal_neighbors_spec(pos)[i]) && self.at(
                diagonal_neighbors_spec(pos)[i],
            ) == content_of(color)
    }

    /// Whether every cell of the board is empty.
    pub open spec fn all_empty(&self) -> bool {
        forall|x: int, y: int| in_board(x, y) ==> #[trigger] self.cell(x, y) == FieldContent::Empty
    }
}

/// The board cell at linear index `k` (row-major).
pub open spec fn coord_at(k: int) -> Coordinates {
    Coordinates { x: (k % 20) as i32, y: (k / 20) as i32 }
}

/// The cells among the first `n` in row-major order that hold `content`.
pub open spec fn colored_upto(b: Board, content: FieldContent, n: nat) -> Seq<Coordinates>
    decreases n,
{
    if n == 0 {
        Seq::empty()
    } else {
        let prev = colored_upto(b, content, (n - 1) as nat);
        let c = coord_at(n - 1);
        if b.at(c) == content {
            prev.push(c)
        } else {
            prev
        }
    }
}

/// All cells holding `content`, in row-major order.
pub open spec fn colored_spec(b: Board, content: FieldContent) -> Seq<Coordinates> {
    colored_upto(b, content, 400)
}

/// Whether `d` can start a new piece of `color`: it is on the board, empty,
/// and no cardinal neighbour holds `color`.
pub open spec fn corner_ok(b: Board, color: Color, d: Coordinates) -> bool {
    on_board(d) && b.at(d) == FieldContent::Empty && !b.borders_spec(d, color)
}

/// Those of the candidate cells `ds` that can start a new piece, in order.
pub open spec fn valid_corners(b: Board, color: Color, ds: Seq<Coordinates>) -> Seq<Coordinates>
    decreases ds.len(),
{
    if ds.len() == 0 {
        Seq::empty()
    } else {
        let prev = valid_corners(b, color, ds.drop_last());
        if corner_ok(b, color, ds.last()) {
            prev.push(ds.last())
        } else {
            prev
        }
    }
}

/// For each cell of `cs` in order, its diagonal neighbours that can start a
/// new piece of `color`.
pub open spec fn valid_fields_of(b: Board, color: Color, cs: Seq<Coordinates>) -> Seq<Coordinates>
    decreases cs.len(),
{
    if cs.len() == 0 {
        Seq::empty()
    } else {
        valid_fields_of(b, color, cs.drop_last()) + valid_corners(
            b,
            color,
            diagonal_neighbors_spec(cs.last()),
        )
    }
}

/// The cells where a non-first piece of `color` may touch its own colour by
/// a corner, listed per coloured cell in row-major order.
pub open spec fn valid_fields_spec(b: Board, color: Color) -> Seq<Coordinates> {
    valid_fields_of(b, color, colored_spec(b, content_of(color)))
}

/// The cells found among the first `n` in row-major order lie on the board,
/// hold the content and come before position `n`; every such cell is found.
pub proof fn lemma_colored_upto(b: Board, content: FieldContent, n: nat)
    requires
        n <= 400,
    ensures
        forall|i: int|
            0 <= i < colored_upto(b, content, n).len() ==> {
                let c = #[trigger] colored_upto(b, content, n)[i];
                &&& on_board(c)
                &&& b.at(c) == content
                &&& c.y * 20 + c.x < n
            },
        forall|k: int|
            0 <= k < n && b.at(coord_at(k)) == content ==> #[trigger] colored_upto(
                b,
                content,
                n,
            ).contains(coord_at(k)),
    decreases n,
{
    if n > 0 {
        lemma_colored_upto(b, content, (n - 1) as nat);
        let prev = colored_upto(b, content, (n - 1) as nat);
        let cur = colored_upto(b, content, n);
        assert forall|k: int| 0 <= k < n && b.at(coord_at(k)) == content implies #[trigger] cur.contains(
            coord_at(k),
        ) by {
            if k < n - 1 {
                assert(prev.contains(coord_at(k)));
                let j = choose|j: int| 0 <= j < prev.len() && prev[j] == coord_at(k);
                assert(cur[j] == coord_at(k));
            } else {
                assert(cur[cur.len() - 1] == coord_at(k));
            }
        }
    }
}

/// Every coloured cell is listed, and every listed cell is on the board and coloured.
pub proof fn lemma_colored_spec(b: Board, content: FieldContent)
    ensures
        forall|c: Coordinates|
            #[trigger] colored_spec(b, content).contains(c) <==> (on_board(c) && b.at(c) == content),
{
    lemma_colored_upto(b, content, 400);
    let s = colored_spec(b, content);
    assert forall|c: Coordinates| #[trigger] s.contains(c) <==> (on_board(c) && b.at(c) == content) by {
        if on_board(c) && b.at(c) == content {
            let k = c.y * 20 + c.x;
            assert(coord_at(k) == c);
        }
        if s.contains(c) {
            let j = choose|j: int| 0 <= j < s.len() && s[j] == c;
            assert(on_board(s[j]));
        }
    }
}

impl Default for Board {
    fn default() -> (r: Board)
        ensures
            r.all_empty(),
    {
        Board::new_empty()
    }
}

/// The letters of a row of cells, separated by single spaces.
pub open spec fn row_text(r: Seq<FieldContent>) -> Seq<char>
    decreases r.len(),
{
    if r.len() == 0 {
        Seq::empty()
    } else if r.len() == 1 {
        seq![content_letter(r[0])]
    } else {
        row_text(r.drop_last()) + seq![' ', content_letter(r.last())]
    }
}

/// The rows as text, each followed by a line break.
pub open spec fn board_text(rows: Seq<Seq<FieldContent>>) -> Seq<char>
    decreases rows.len(),
{
    if rows.len() == 0 {
        Seq::empty()
    } else {
        board_text(rows.drop_last()) + row_text(rows.last()) + seq!['\n']
    }
}

/// The letter of a cell content, as text.
fn letter_str(f: FieldContent) -> (r: &'static str)
    ensures
        r@ == seq![content_letter(f)],
{
    proof {
        reveal_strlit("B");
        reveal_strlit("Y");
        reveal_strlit("R");
        reveal_strlit("G");
        reveal_strlit(".");
    }
    match f {
        FieldContent::Blue => "B",
        FieldContent::Yellow => "Y",
        FieldContent::Red => "R",
        FieldContent::Green => "G",
        FieldContent::Empty => ".",
    }
}

impl Board {
    /// The board with every cell empty.
    pub fn new_empty() -> (r: Board)
        ensures
            r.all_empty(),
    {
        let row = Row { fields: [FieldContent::Empty; BOARD_LENGTH] };
        let b = Board { rows: [row; BOARD_LENGTH] };
        assert forall|x: int, y: int| in_board(x, y) implies #[trigger] b.cell(x, y) == FieldContent::Empty by {
            assert(b.rows == vstd::array::spec_array_fill_for_copy_type::<Row, BOARD_LENGTH>(row));
            assert(b.rows@[y] == row);
            assert(row.fields == vstd::array::spec_array_fill_for_copy_type::<FieldContent, BOARD_LENGTH>(FieldContent::Empty));
            assert(row.fields@[x] == FieldContent::Empty);
        }
        b
    }

    /// The board as text: one line per row, top row first, each cell as its
    /// letter, the cells of a row separated by single spaces.
    pub fn to_string(&self) -> (r: String)
        ensures
            r@ == board_text(self@),
    {
        let mut s = String::new();
        let mut y: usize = 0;
        assert(self@.take(0) =~= Seq::empty());
        while y < BOARD_LENGTH
            invariant
                y <= BOARD_LENGTH,
                s@ == board_text(self@.take(y as int)),
            decreases BOARD_LENGTH - y,
        {
            let ghost before = s@;
            let mut x: usize = 0;
            let ghost row = self@[y as int];
            assert(row.take(0) =~= Seq::empty());
            while x < BOARD_LENGTH
                invariant
                    x <= BOARD_LENGTH,
                    y < BOARD_LENGTH,
                    row == self@[y as int],
                    row.len() == BOARD_LENGTH,
                    s@ == before + row_text(row.take(x as int)),
                decreases BOARD_LENGTH - x,
            {
                if x > 0 {
                    s.append(" ");
                }
                s.append(letter_str(self.rows[y].fields[x]));
                proof {
                    reveal_strlit(" ");
                    assert(row.take(x + 1).drop_last() =~= row.take(x as int));
                    assert(row.take(x + 1).last() == self.rows@[y as int].fields@[x as int]);
                    assert(s@ =~= before + row_text(row.take(x + 1)));
                }
                x = x + 1;
            }
            s.append("\n");
            proof {
                reveal_strlit("\n");
                assert(row.take(BOARD_LENGTH as int) =~= row);
                assert(self@.take(y + 1).drop_last() =~= self@.take(y as int));
                assert(s@ =~= board_text(self@.take(y + 1)));
            }
            y = y + 1;
        }
        assert(self@.take(BOARD_LENGTH as int) =~= self@);
        s
    }

    /// Whether `(x, y)` lies on the 20x20 board.
    pub fn contains(x: i32, y: i32) -> (r: bool)
        ensures
            r == in_board(x as int, y as int),
    {
        0 <= x && x < BOARD_LENGTH as i32 && 0 <= y && y < BOARD_LENGTH as i32
    }

    /// The content of the cell in column `x` and row `y`.
    pub fn get(&self, x: usize, y: usize) -> (r: &FieldContent)
        requires
            x < BOARD_LENGTH,
            y < BOARD_LENGTH,
        ensures
            *r == self.cell(x as int, y as int),
    {
        &self.rows[y].fields[x]
    }

    /// The content of the cell in column `x` and row `y`, to be written.
    pub fn get_mut(&mut self, x: usize, y: usize) -> (r: &mut FieldContent)
        requires
            x < BOARD_LENGTH,
            y < BOARD_LENGTH,
        ensures
            *r == old(self).cell(x as int, y as int),
            final(self)@ == old(self)@.update(y as int, old(self)@[y as int].update(x as int, *final(r))),
    {
        &mut self.rows[y].fields[x]
    }

    /// Writes `v` into the cell in column `x` and row `y`.
    pub fn set(&mut self, x: usize, y: usize, v: FieldContent)
        requires
            x < BOARD_LENGTH,
            y < BOARD_LENGTH,
        ensures
            final(self)@ == old(self)@.update(y as int, old(self)@[y as int].update(x as int, v)),
    {
        self.rows[y].fields[x] = v;
        assert(self@ =~= old(self)@.update(y as int, old(self)@[y as int].update(x as int, v)));
    }

    /// Whether `pos` is a board cell that is not empty.
    pub fn is_obstructed(&self, pos: Coordinates) -> (r: bool)
        ensures
            r == (on_board(pos) && self.at(pos) != FieldContent::Empty),
    {
        if !Board::contains(pos.x, pos.y) {
            return false;
        }
        !self.rows[pos.y as usize].fields[pos.x as usize].is_empty()
    }

    /// Whether every cell of the board is empty.
    pub fn is_empty(&self) -> (r: bool)
        ensures
            r == self.all_empty(),
    {
        let mut y: usize = 0;
        while y < BOARD_LENGTH
            invariant
                y <= BOARD_LENGTH,
                forall|yy: int, x: int|
                    0 <= yy < y && 0 <= x < BOARD_LENGTH ==> #[trigger] self.cell(x, yy)
                        == FieldContent::Empty,
            decreases BOARD_LENGTH - y,
        {
            let mut x: usize = 0;
            while x < BOARD_LENGTH
                invariant
                    y < BOARD_LENGTH,
                    x <= BOARD_LENGTH,
                    forall|yy: int, xx: int|
                        0 <= yy < y && 0 <= xx < BOARD_LENGTH ==> #[trigger] self.cell(xx, yy)
                            == FieldContent::Empty,
                    forall|xx: int| 0 <= xx < x ==> #[trigger] self.cell(xx, y as int) == FieldContent::Empty,
                decreases BOARD_LENGTH - x,
            {
                if !self.rows[y].fields[x].is_empty() {
                    assert(self.cell(x as int, y as int) != FieldContent::Empty);
                    return false;
                }
                x = x + 1;
            }
            y = y + 1;
        }
        true
    }

    /// Whether any cardinal neighbour of `pos` has the given color. Out-of-bounds neighbours are ignored.
    pub fn borders_on_color(&self, pos: Coordinates, color: Color) -> (r: bool)
        requires
            has_all_neighbors(pos),
        ensures
            r == self.borders_spec(pos, color),
    {
        let content = color.to_field_content();
        let ns = pos.neighbors();
        let mut i: usize = 0;
        while i < 4
            invariant
                i <= 4,
                ns@ == neighbors_spec(pos),
                content == content_of(color),
                forall|k: int|
                    0 <= k < i ==> !(on_board(#[trigger] neighbors_spec(pos)[k]) && self.at(
                        neighbors_spec(pos)[k],
                    ) == content_of(color)),
            decreases 4 - i,
        {
            let p = ns[i];
            if Board::contains(p.x, p.y) && self.rows[p.y as usize].fields[p.x as usize]
                == content {
                return true;
            }
            i = i + 1;
        }
        false
    }

    /// Whether any diagonal neighbour of `pos` has the given color. Out-of-bounds neighbours are ignored.
    pub fn corners_on_color(&self, pos: Coordinates, color: Color) -> (r: bool)
        requires
            has_all_neighbors(pos),
        ensures
            r == self.corners_spec(pos, color),
    {
        let content = color.to_field_content();
        let ns = pos.diagonal_neighbors();
        let mut i: usize = 0;
        while i < 4
            invariant
                i <= 4,
                ns@ == diagonal_neighbors_spec(pos),
                content == content_of(color),
                forall|k: int|
                    0 <= k < i ==> !(on_board(#[trigger] diagonal_neighbors_spec(pos)[k])
                        && self.at(diagonal_neighbors_spec(pos)[k]) == content_of(color)),
            decreases 4 - i,
        {
            let p = ns[i];
            if Board::contains(p.x, p.y) && self.rows[p.y as usize].fields[p.x as usize]
                == content {
                return true;
            }
            i = i + 1;
        }
        false
    }

    /// All cells of the given colour, in row-major order.
    pub fn colored_fields(&self, color: Color) -> (r: Vec<Coordinates>)
        ensures
            r@ == colored_spec(*self, content_of(color)),
    {
        let content = color.to_field_content();
        let mut out: Vec<Coordinates> = Vec::new();
        let mut y: usize = 0;
        while y < BOARD_LENGTH
            invariant
                y <= BOARD_LENGTH,
                content == content_of(color),
                out@ == colored_upto(*self, content, (y * 20) as nat),
            decreases BOARD_LENGTH - y,
        {
            let mut x: usize = 0;
            while x < BOARD_LENGTH
                invariant
                    y < BOARD_LENGTH,
                    x <= BOARD_LENGTH,
                    content == content_of(color),
                    out@ == colored_upto(*self, content, (y * 20 + x) as nat),
                decreases BOARD_LENGTH - x,
            {
                let ghost k = y * 20 + x;
                assert(coord_at(k as int) == Coordinates { x: x as i32, y: y as i32 });
                if self.rows[y].fields[x] == content {
                    out.push(Coordinates::new(x as i32, y as i32));
                }
                x = x + 1;
            }
            y = y + 1;
        }
        out
    }

    /// For each cell of the colour in row-major order, its diagonal neighbours
    /// that are on the board, empty, and not next to the colour.
    pub fn valid_fields(&self, color: Color) -> (r: Vec<Coordinates>)
        ensures
            r@ == valid_fields_spec(*self, color),
            forall|d: Coordinates|
                #[trigger] r@.contains(d) <==> on_board(d) && self.at(d) == FieldContent::Empty
                    && !self.borders_spec(d, color) && self.corners_spec(d, color),
    {
        let colored = self.colored_fields(color);
        proof {
            lemma_colored_spec(*self, content_of(color));
        }
        let mut out: Vec<Coordinates> = Vec::new();
        let mut i: usize = 0;
        while i < colored.len()
            invariant
                i <= colored@.len(),
                colored@ == colored_spec(*self, content_of(color)),
                forall|c: Coordinates|
                    #[trigger] colored@.contains(c) <==> (on_board(c) && self.at(c) == content_of(
                        color,
                    )),
                out@ == valid_fields_of(*self, color, colored@.take(i as int)),
            decreases colored@.len() - i,
        {
            let c = colored[i];
            assert(colored@.contains(c));
            let corners = c.diagonal_neighbors();
            let ghost base = out@;
            let mut k: usize = 0;
            while k < 4
                invariant
                    k <= 4,
                    on_board(c),
                    corners@ == diagonal_neighbors_spec(c),
                    out@ == base + valid_corners(*self, color, corners@.take(k as int)),
                decreases 4 - k,
            {
                let d = corners[k];
                proof {
                    assert(corners@.take(k + 1).drop_last() =~= corners@.take(k as int));
                }
                if Board::contains(d.x, d.y) && self.rows[d.y as usize].fields[d.x as usize].is_empty()
                    && !self.borders_on_color(d, color) {
                    out.push(d);
                    assert(out@ =~= base + valid_corners(*self, color, corners@.take(k + 1)));
                }
                k = k + 1;
            }
            proof {
                assert(corners@.take(4) =~= corners@);
                assert(colored@.take(i + 1).drop_last() =~= colored@.take(i as int));
                assert(colored@.take(i + 1).last() == c);
            }
            i = i + 1;
        }
        assert(colored@.take(colored@.len() as int) =~= colored@);
        proof {
            crate::rules::lemma_valid_fields_members(*self, color);
            assert forall|d: Coordinates| #[trigger] out@.contains(d) <==> on_board(d) && self.at(d)
                == FieldContent::Empty && !self.borders_spec(d, color) && self.corners_spec(d, color) by {
                assert(out@ == valid_fields_spec(*self, color));
                assert(valid_fields_spec(*self, color).contains(d) <==> corner_ok(*self, color, d)
                    && self.corners_spec(d, color));
            }
        }
        out
    }
}

// ___ GameState (full state mirror of the server) ___

#[derive(Debug, Clone, PartialEq, Eq)]
pub struct GameState {
    pub turn: u32,
    pub start_piece: PieceShape,
    pub last_move: Option<Move>,
    pub board: Board,
    /// For a color that has placed all its pieces: whether the Monomino was the
    /// *last* piece placed (relevant for the +5 bonus).
    pub last_move_mono: LastMoveMonoMap,
    /// Undeployed (still unplaced) shapes per color — initialised with all 21 shapes.
    pub blue_shapes: Vec<PieceShape>,
    pub yellow_shapes: Vec<PieceShape>,
    pub red_shapes: Vec<PieceShape>,
    pub green_shapes: Vec<PieceShape>,
    /// Colors that are still able to play. When a color cannot move anymore it is removed.
    pub valid_colors: Vec<Color>,
}

/// The shapes that `c` has not placed yet.
pub open spec fn undeployed_spec(s: GameState, c: Color) -> Seq<PieceShape> {
    match c {
        Color::Blue => s.blue_shapes@,
        Color::Yellow => s.yellow_shapes@,
        Color::Red => s.red_shapes@,
        Color::Green => s.green_shapes@,
    }
}

/// `s` with the undeployed shapes of `c` replaced by `v`.
pub open spec fn with_undeployed(s: GameState, c: Color, v: Vec<PieceShape>) -> GameState {
    match c {
        Color::Blue => GameState { blue_shapes: v, ..s },
        Color::Yellow => GameState { yellow_shapes: v, ..s },
        Color::Red => GameState { red_shapes: v, ..s },
        Color::Green => GameState { green_shapes: v, ..s },
    }
}

/// The colour whose turn it is.
pub open spec fn current_color_spec(s: GameState) -> Color {
    color_of(s.turn as int)
}

/// Whether `c` has not placed any piece yet (all 21 shapes undeployed).
pub open spec fn first_move_spec(s: GameState, c: Color) -> bool {
    undeployed_spec(s, c).len() == TOTAL_PIECE_SHAPES
}

/// Whether the game is over: no colour can play any more, the round limit
/// is passed, or every colour has placed all its pieces.
pub open spec fn is_over_spec(s: GameState) -> bool {
    ||| s.valid_colors@.len() == 0
    ||| s.turn / 4 >= ROUND_LIMIT
    ||| (s.blue_shapes@.len() == 0 && s.yellow_shapes@.len() == 0 && s.red_shapes@.len() == 0
        && s.green_shapes@.len() == 0)
}

/// `t + 1`, saturating at `u32::MAX`.
pub open spec fn sat_inc(t: u32) -> u32 {
    if t == u32::MAX {
        t
    } else {
        (t + 1) as u32
    }
}

/// Searching forward from turn `t` for a turn whose colour is still valid:
/// the turn reached, and whether a valid colour was found before the turn
/// counter ran out of `u32` range.
pub open spec fn advance_from(vc: Seq<Color>, t: u32) -> (u32, bool)
    decreases u32::MAX - t,
{
    if vc.contains(color_of(t as int)) {
        (t, true)
    } else if t == u32::MAX {
        (t, false)
    } else {
        advance_from(vc, (t + 1) as u32)
    }
}

/// The turn and result of `advance` on a state with turn `turn` and valid colours `vc`.
pub open spec fn advance_spec(vc: Seq<Color>, turn: u32) -> (u32, bool) {
    if vc.len() == 0 {
        (turn, false)
    } else {
        advance_from(vc, sat_inc(turn))
    }
}

/// `s` with only the turn counter changed.
pub open spec fn with_turn(s: GameState, t: u32) -> GameState {
    GameState { turn: t, ..s }
}

/// The 21 shapes in canonical order.
pub open spec fn all_shapes_seq() -> Seq<PieceShape> {
    Seq::new(21, |i: int| shape_at(i))
}

/// Whether `s` is the state at the start of a game with the given start piece.
pub open spec fn is_initial(s: GameState, start_piece: PieceShape) -> bool {
    &&& s.turn == 0
    &&& s.start_piece == start_piece
    &&& s.last_move is None
    &&& s.board.all_empty()
    &&& s.last_move_mono@ == Map::<Color, bool>::empty()
    &&& s.blue_shapes@ == all_shapes_seq()
    &&& s.yellow_shapes@ == all_shapes_seq()
    &&& s.red_shapes@ == all_shapes_seq()
    &&& s.green_shapes@ == all_shapes_seq()
    &&& s.valid_colors@ == seq![Color::Blue, Color::Yellow, Color::Red, Color::Green]
}

impl Default for GameState {
    fn default() -> (r: GameState)
        ensures
            is_initial(r, PieceShape::PentoL),
    {
        Self::new(PieceShape::PentoL)
    }
}

impl GameState {
    /// A fresh game state with the given start-piece and all 21 shapes per color available.
    pub fn new(start_piece: PieceShape) -> (r: Self)
        ensures
            is_initial(r, start_piece),
    {
        let blue = all_shapes();
        let yellow = all_shapes();
        let red = all_shapes();
        let green = all_shapes();
        let mut valid_colors: Vec<Color> = Vec::new();
        valid_colors.push(Color::Blue);
        valid_colors.push(Color::Yellow);
        valid_colors.push(Color::Red);
        valid_colors.push(Color::Green);
        let r = GameState {
            turn: 0,
            start_piece,
            last_move: None,
            board: Board::new_empty(),
            last_move_mono: LastMoveMonoMap::new(),
            blue_shapes: blue,
            yellow_shapes: yellow,
            red_shapes: red,
            green_shapes: green,
            valid_colors,
        };
        assert(r.blue_shapes@ =~= all_shapes_seq());
        assert(r.yellow_shapes@ =~= all_shapes_seq());
        assert(r.red_shapes@ =~= all_shapes_seq());
        assert(r.green_shapes@ =~= all_shapes_seq());
        assert(r.valid_colors@ =~= seq![Color::Blue, Color::Yellow, Color::Red, Color::Green]);
        r
    }

    /// The colour whose turn it is.
    pub fn current_color(&self) -> (r: Color)
        ensures
            r == current_color_spec(*self),
    {
        color_at(self.turn as usize)
    }

    /// The team of the colour whose turn it is.
    pub fn current_team(&self) -> (r: Team)
        ensures
            r == team_of(current_color_spec(*self)),
    {
        self.current_color().team()
    }

    /// 1-based round number.
    pub fn round(&self) -> (r: u32)
        ensures
            r == 1 + self.turn / 4,
    {
        1 + self.turn / 4
    }

    /// Whether the game is over: no colour can play any more, the round limit
    /// is passed, or every colour has placed all its pieces.
    pub fn is_over(&self) -> (r: bool)
        ensures
            r == is_over_spec(*self),
    {
        self.valid_colors.len() == 0 || self.turn / 4 >= ROUND_LIMIT || (self.blue_shapes.len() == 0
            && self.yellow_shapes.len() == 0 && self.red_shapes.len() == 0
            && self.green_shapes.len() == 0)
    }

    /// The shapes that `color` has not placed yet.
    pub fn undeployed(&self, color: Color) -> (r: &Vec<PieceShape>)
        ensures
            r@ == undeployed_spec(*self, color),
    {
        match color {
            Color::Blue => &self.blue_shapes,
            Color::Yellow => &self.yellow_shapes,
            Color::Red => &self.red_shapes,
            Color::Green => &self.green_shapes,
        }
    }

    /// The shapes that `color` has not placed yet, to be changed.
    pub fn undeployed_mut(&mut self, color: Color) -> (r: &mut Vec<PieceShape>)
        ensures
            r@ == undeployed_spec(*old(self), color),
            *final(self) == with_undeployed(*old(self), color, *final(r)),
    {
        match color {
            Color::Blue => &mut self.blue_shapes,
            Color::Yellow => &mut self.yellow_shapes,
            Color::Red => &mut self.red_shapes,
            Color::Green => &mut self.green_shapes,
        }
    }

    /// Whether `color` is still in the game.
    pub fn is_valid_color(&self, color: Color) -> (r: bool)
        ensures
            r == self.valid_colors@.contains(color),
    {
        let mut i: usize = 0;
        while i < self.valid_colors.len()
            invariant
                i <= self.valid_colors@.len(),
                forall|k: int| 0 <= k < i ==> self.valid_colors@[k] != color,
            decreases self.valid_colors@.len() - i,
        {
            if self.valid_colors[i] == color {
                return true;
            }
            i = i + 1;
        }
        false
    }

    /// Whether `color` still has all 21 shapes (it has not placed a piece yet).
    pub fn is_first_move_for(&self, color: Color) -> (r: bool)
        ensures
            r == first_move_spec(*self, color),
    {
        self.undeployed(color).len() == TOTAL_PIECE_SHAPES
    }

    /// Advance the turn counter until we reach a color that is still in `valid_colors`.
    /// Returns `false` if no valid color remains (or the turn counter cannot
    /// go any further).
    pub fn advance(&mut self) -> (r: bool)
        ensures
            *final(self) == with_turn(*old(self), advance_spec(old(self).valid_colors@, old(self).turn).0),
            r == advance_spec(old(self).valid_colors@, old(self).turn).1,
    {
        if self.valid_colors.len() == 0 {
            return false;
        }
        self.turn = self.turn.saturating_add(1);
        let ghost vc = self.valid_colors@;
        loop
            invariant
                vc == self.valid_colors@,
                vc.len() > 0,
                *self == with_turn(*old(self), self.turn),
                advance_from(vc, self.turn) == advance_spec(vc, old(self).turn),
            decreases u32::MAX - self.turn,
        {
            let c = self.current_color();
            if self.is_valid_color(c) {
                return true;
            }
            if self.turn == u32::MAX {
                return false;
            }
            self.turn = self.turn + 1;
        }
    }

    /// Remove the given color from `valid_colors` and advance.
    pub fn remove_active_color(&mut self, color: Color) -> (r: bool)
        ensures
            final(self).valid_colors@ == old(self).valid_colors@.filter(|c: Color| c != color),
            *final(self) == with_turn(
                GameState { valid_colors: final(self).valid_colors, ..*old(self) },
                advance_spec(final(self).valid_colors@, old(self).turn).0,
            ),
            r == advance_spec(final(self).valid_colors@, old(self).turn).1,
    {
        let mut kept: Vec<Color> = Vec::new();
        let mut i: usize = 0;
        while i < self.valid_colors.len()
            invariant
                i <= self.valid_colors@.len(),
                self.valid_colors@ == old(self).valid_colors@,
                kept@ == self.valid_colors@.take(i as int).filter(|c: Color| c != color),
            decreases self.valid_colors@.len() - i,
        {
            let c = self.valid_colors[i];
            proof {
                reveal_with_fuel(Seq::<Color>::filter, 1);
                assert(self.valid_colors@.take(i + 1).drop_last() =~= self.valid_colors@.take(i as int));
            }
            if c != color {
                kept.push(c);
            }
            i = i + 1;
        }
        assert(self.valid_colors@.take(self.valid_colors@.len() as int) =~= self.valid_colors@);
        self.valid_colors = kept;
        self.advance()
    }
}


/// What the forward search from turn `t` finds: a turn no earlier than `t`
/// whose colour is valid, with only turns of invalid colours before it.
proof fn lemma_advance_from(vc: Seq<Color>, t: u32)
    ensures
        advance_from(vc, t).1 ==> advance_from(vc, t).0 >= t && vc.contains(
            color_of(advance_from(vc, t).0 as int),
        ) && forall|u: int| t <= u < advance_from(vc, t).0 ==> !vc.contains(#[trigger] color_of(u)),
    decreases u32::MAX - t,
{
    if !vc.contains(color_of(t as int)) && t < u32::MAX {
        lemma_advance_from(vc, (t + 1) as u32);
    }
}

/// The forward search from `t` succeeds no later than any turn `u` within
/// `u32` range whose colour is valid.
proof fn lemma_advance_reaches(vc: Seq<Color>, t: u32, u: int)
    requires
        t <= u <= u32::MAX,
        vc.contains(color_of(u)),
    ensures
        advance_from(vc, t).1,
        advance_from(vc, t).0 <= u,
    decreases u - t,
{
    if !vc.contains(color_of(t as int)) {
        lemma_advance_reaches(vc, (t + 1) as u32, u);
    }
}

/// Advancing moves play to the first later turn whose colour is still in the
/// game, passing over only turns of colours that are out. It fails only when
/// no colour is left in the game (or the turn counter has no room for the
/// next turn of a valid colour); with some colour in the game and at least
/// four turns of room it succeeds within four turns.
pub proof fn law_advance(vc: Seq<Color>, t: u32)
    requires
        t < u32::MAX,
    ensures
        advance_spec(vc, t).1 ==> t < advance_spec(vc, t).0 && vc.contains(
            color_of(advance_spec(vc, t).0 as int),
        ) && forall|u: int| t < u < advance_spec(vc, t).0 ==> !vc.contains(#[trigger] color_of(u)),
        vc.len() == 0 ==> !advance_spec(vc, t).1 && advance_spec(vc, t).0 == t,
        vc.len() > 0 && t + 4 <= u32::MAX ==> advance_spec(vc, t).1 && advance_spec(
            vc,
            t,
        ).0 <= t + 4,
{
    if vc.len() > 0 {
        lemma_advance_from(vc, sat_inc(t));
        if t + 4 <= u32::MAX {
            let c = vc[0];
            let u: int = t + 1 + (crate::neutral::color_index(c) - (t + 1)) % 4;
            assert(u % 4 == crate::neutral::color_index(c));
            assert(color_of(u) == c);
            assert(vc.contains(color_of(u)));
            lemma_advance_reaches(vc, sat_inc(t), u);
        }
    }
}


/// Reading a cell after writing it with `set` (or through `get_mut`) gives
/// the written content, and every other cell keeps its content.
pub proof fn law_board_write_read(b0: Board, b1: Board, x: int, y: int, v: FieldContent)
    requires
        in_board(x, y),
        b1@ == b0@.update(y, b0@[y].update(x, v)),
    ensures
        b1.cell(x, y) == v,
        forall|xx: int, yy: int|
            in_board(xx, yy) && (xx != x || yy != y) ==> #[trigger] b1.cell(xx, yy) == b0.cell(
                xx,
                yy,
            ),
{
    assert(b1@[y] == b1.rows@[y].fields@);
    assert forall|xx: int, yy: int| in_board(xx, yy) && (xx != x || yy != y) implies #[trigger] b1.cell(
        xx,
        yy,
    ) == b0.cell(xx, yy) by {
        assert(b1@[yy] == b1.rows@[yy].fields@);
        assert(b0@[yy] == b0.rows@[yy].fields@);
    }
}

} // verus!
