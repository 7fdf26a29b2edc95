//! Domain enums and structs of the Blokus game: coordinates, colours, teams,
//! field contents, rotations, pieces, moves, move mistakes and score types.
use vstd::prelude::*;

use crate::text::{
    append_signed, is_ws, signed_decimal, str_equal, trim, trim_end_spec, trim_spec, trim_start_spec,
};

pub use crate::piece_shape::{PieceShape, ShapeVariant};
use crate::piece_shape::{lemma_transform_cells, transform_spec};

verus! {

/// The text of a parse error for an unrecognised `token` of the given `kind`:
/// `unknown <kind> token '<token>'`.
pub open spec fn unknown_token_text(kind: Seq<char>, token: Seq<char>) -> Seq<char> {
    "unknown "@ + kind + " token '"@ + token + "'"@
}

/// Builds the parse error text `unknown <kind> token '<token>'`.
pub fn unknown_token_error(kind: &str, token: &str) -> (r: String)
    ensures
        r@ == unknown_token_text(kind@, token@),
{
    let mut s = String::from_str("unknown ");
    s.append(kind);
    s.append(" token '");
    s.append(token);
    s.append("'");
    proof {
        assert(s@ =~= unknown_token_text(kind@, token@));
    }
    s
}

/// Cartesian 2D coordinate (x, y). y=0 is the top row, y increases downward.
#[derive(Debug, Clone, Copy, PartialEq, Eq, Hash, Structural)]
pub struct Coordinates {
    pub x: i32,
    pub y: i32,
}

/// Whether `c` lies far enough from the edges of the `i32` range that all
/// eight of its neighbours can be computed.
pub open spec fn has_all_neighbors(c: Coordinates) -> bool {
    i32::MIN < c.x < i32::MAX && i32::MIN < c.y < i32::MAX
}

/// The coordinates `c` moved by `(dx, dy)`.
pub open spec fn shifted(c: Coordinates, dx: int, dy: int) -> Coordinates {
    Coordinates { x: (c.x + dx) as i32, y: (c.y + dy) as i32 }
}

/// The four cardinal neighbours of `c`: up, down, left, right.
pub open spec fn neighbors_spec(c: Coordinates) -> Seq<Coordinates> {
    seq![shifted(c, 0, -1), shifted(c, 0, 1), shifted(c, -1, 0), shifted(c, 1, 0)]
}

/// The four diagonal neighbours of `c`.
pub open spec fn diagonal_neighbors_spec(c: Coordinates) -> Seq<Coordinates> {
    seq![shifted(c, -1, -1), shifted(c, 1, -1), shifted(c, -1, 1), shifted(c, 1, 1)]
}

impl Coordinates {
    /// The coordinate `(x, y)`.
    pub fn new(x: i32, y: i32) -> (r: Self)
        ensures
            r.x == x,
            r.y == y,
    {
        Coordinates { x, y }
    }

    /// This coordinate moved by `dx` and `dy`.
    pub fn offset(self, dx: i32, dy: i32) -> (r: Self)
        requires
            i32::MIN <= self.x + dx <= i32::MAX,
            i32::MIN <= self.y + dy <= i32::MAX,
        ensures
            r.x == self.x + dx,
            r.y == self.y + dy,
    {
        Coordinates { x: self.x + dx, y: self.y + dy }
    }

    /// The 4 cardinal neighbours (up/down/left/right).
    pub fn neighbors(self) -> (r: [Coordinates; 4])
        requires
            has_all_neighbors(self),
        ensures
            r@ == neighbors_spec(self),
    {
        let r = [self.offset(0, -1), self.offset(0, 1), self.offset(-1, 0), self.offset(1, 0)];
        assert(r@ =~= neighbors_spec(self));
        r
    }

    /// The 4 diagonal neighbours.
    pub fn diagonal_neighbors(self) -> (r: [Coordinates; 4])
        requires
            has_all_neighbors(self),
        ensures
            r@ == diagonal_neighbors_spec(self),
    {
        let r = [
            self.offset(-1, -1),
            self.offset(1, -1),
            self.offset(-1, 1),
            self.offset(1, 1),
        ];
        assert(r@ =~= diagonal_neighbors_spec(self));
        r
    }

    /// The text `[x|y]`.
    pub fn to_string(&self) -> (r: String)
        ensures
            r@ == seq!['['] + signed_decimal(self.x as int) + seq!['|'] + signed_decimal(
                self.y as int,
            ) + seq![']'],
    {
        let mut s = String::from_str("[");
        append_signed(&mut s, self.x);
        s.append("|");
        append_signed(&mut s, self.y);
        s.append("]");
        proof {
            reveal_strlit("[");
            reveal_strlit("|");
            reveal_strlit("]");
            assert(s@ =~= seq!['['] + signed_decimal(self.x as int) + seq!['|'] + signed_decimal(
                self.y as int,
            ) + seq![']']);
        }
        s
    }
}

/// The four colours in Blokus. Turn order: Blue -> Yellow -> Red -> Green.
#[derive(Debug, Clone, Copy, PartialEq, Eq, Hash, Structural)]
pub enum Color {
    Blue,
    Yellow,
    Red,
    Green,
}

/// The position of a colour in the turn order.
pub open spec fn color_index(c: Color) -> int {
    match c {
        Color::Blue => 0,
        Color::Yellow => 1,
        Color::Red => 2,
        Color::Green => 3,
    }
}

/// The colour at position `i` (taken modulo 4) of the turn order.
pub open spec fn color_of(i: int) -> Color {
    let k = i % 4;
    if k == 0 {
        Color::Blue
    } else if k == 1 {
        Color::Yellow
    } else if k == 2 {
        Color::Red
    } else {
        Color::Green
    }
}

pub open spec fn next_color(c: Color) -> Color {
    match c {
        Color::Blue => Color::Yellow,
        Color::Yellow => Color::Red,
        Color::Red => Color::Green,
        Color::Green => Color::Blue,
    }
}

pub open spec fn team_of(c: Color) -> Team {
    match c {
        Color::Blue | Color::Red => Team::One,
        Color::Yellow | Color::Green => Team::Two,
    }
}

pub open spec fn content_of(c: Color) -> FieldContent {
    match c {
        Color::Blue => FieldContent::Blue,
        Color::Yellow => FieldContent::Yellow,
        Color::Red => FieldContent::Red,
        Color::Green => FieldContent::Green,
    }
}

pub open spec fn color_token(c: Color) -> Seq<char> {
    match c {
        Color::Blue => "BLUE"@,
        Color::Yellow => "YELLOW"@,
        Color::Red => "RED"@,
        Color::Green => "GREEN"@,
    }
}

pub open spec fn color_from_token(t: Seq<char>) -> Option<Color> {
    if t == "BLUE"@ {
        Some(Color::Blue)
    } else if t == "YELLOW"@ {
        Some(Color::Yellow)
    } else if t == "RED"@ {
        Some(Color::Red)
    } else if t == "GREEN"@ {
        Some(Color::Green)
    } else {
        None
    }
}

/// What parsing `s` as a token of some kind gives: the value that the trimmed
/// text names, or the error text that names the trimmed text.
pub open spec fn parse_result<T>(
    parsed: Option<T>,
    kind: Seq<char>,
    s: Seq<char>,
    r: Result<T, String>,
) -> bool {
    match parsed {
        Some(v) => r == Ok::<T, String>(v),
        None => r matches Err(e) && e@ == unknown_token_text(kind, trim_spec(s)),
    }
}

impl Color {
    pub const ALL: [Color; 4] = [Color::Blue, Color::Yellow, Color::Red, Color::Green];

    /// The colour that plays after this one.
    pub fn next(self) -> (r: Color)
        ensures
            r == next_color(self),
    {
        match self {
            Color::Blue => Color::Yellow,
            Color::Yellow => Color::Red,
            Color::Red => Color::Green,
            Color::Green => Color::Blue,
        }
    }

    /// The team this colour plays for.
    pub fn team(self) -> (r: Team)
        ensures
            r == team_of(self),
    {
        match self {
            Color::Blue | Color::Red => Team::One,
            Color::Yellow | Color::Green => Team::Two,
        }
    }

    /// The board content of this colour.
    pub fn to_field_content(self) -> (r: FieldContent)
        ensures
            r == content_of(self),
    {
        match self {
            Color::Blue => FieldContent::Blue,
            Color::Yellow => FieldContent::Yellow,
            Color::Red => FieldContent::Red,
            Color::Green => FieldContent::Green,
        }
    }

    /// The protocol token of this colour (`BLUE`, `YELLOW`, `RED`, `GREEN`).
    pub fn as_str(&self) -> (r: &'static str)
        ensures
            r@ == color_token(*self),
    {
        match self {
            Color::Blue => "BLUE",
            Color::Yellow => "YELLOW",
            Color::Red => "RED",
            Color::Green => "GREEN",
        }
    }

    /// Parses a colour token; surrounding whitespace is ignored.
    pub fn from_str(s: &str) -> (r: Result<Color, String>)
        ensures
            parse_result(color_from_token(trim_spec(s@)), "color"@, s@, r),
    {
        let t = trim(s);
        if str_equal(t, "BLUE") {
            Ok(Color::Blue)
        } else if str_equal(t, "YELLOW") {
            Ok(Color::Yellow)
        } else if str_equal(t, "RED") {
            Ok(Color::Red)
        } else if str_equal(t, "GREEN") {
            Ok(Color::Green)
        } else {
            Err(unknown_token_error("color", t))
        }
    }
}

/// The colour at position `index % 4` of the turn order.
pub fn color_at(index: usize) -> (r: Color)
    ensures
        r == color_of(index as int),
{
    let k = index % 4;
    if k == 0 {
        Color::Blue
    } else if k == 1 {
        Color::Yellow
    } else if k == 2 {
        Color::Red
    } else {
        Color::Green
    }
}

/// The two teams: One = Blue+Red, Two = Yellow+Green.
#[derive(Debug, Clone, Copy, PartialEq, Eq, Hash, Structural)]
pub enum Team {
    One,
    Two,
}

pub open spec fn opponent_of(t: Team) -> Team {
    match t {
        Team::One => Team::Two,
        Team::Two => Team::One,
    }
}

pub open spec fn team_token(t: Team) -> Seq<char> {
    match t {
        Team::One => "ONE"@,
        Team::Two => "TWO"@,
    }
}

pub open spec fn team_from_token(t: Seq<char>) -> Option<Team> {
    if t == "ONE"@ {
        Some(Team::One)
    } else if t == "TWO"@ {
        Some(Team::Two)
    } else {
        None
    }
}

impl Team {
    /// The other team.
    pub fn opponent(self) -> (r: Team)
        ensures
            r == opponent_of(self),
    {
        match self {
            Team::One => Team::Two,
            Team::Two => Team::One,
        }
    }

    /// The protocol token of this team (`ONE`, `TWO`).
    pub fn as_str(&self) -> (r: &'static str)
        ensures
            r@ == team_token(*self),
    {
        match self {
            Team::One => "ONE",
            Team::Two => "TWO",
        }
    }

    /// Parses a team token; surrounding whitespace is ignored.
    pub fn from_str(s: &str) -> (r: Result<Team, String>)
        ensures
            parse_result(team_from_token(trim_spec(s@)), "team"@, s@, r),
    {
        let t = trim(s);
        if str_equal(t, "ONE") {
            Ok(Team::One)
        } else if str_equal(t, "TWO") {
            Ok(Team::Two)
        } else {
            Err(unknown_token_error("team", t))
        }
    }
}

/// Empty or one of the four colours, as stored in a board cell.
#[derive(Debug, Clone, Copy, PartialEq, Eq, Hash, Structural)]
pub enum FieldContent {
    Empty,
    Blue,
    Yellow,
    Red,
    Green,
}

pub open spec fn content_color(f: FieldContent) -> Option<Color> {
    match f {
        FieldContent::Blue => Some(Color::Blue),
        FieldContent::Yellow => Some(Color::Yellow),
        FieldContent::Red => Some(Color::Red),
        FieldContent::Green => Some(Color::Green),
        FieldContent::Empty => None,
    }
}

pub open spec fn content_letter(f: FieldContent) -> char {
    match f {
        FieldContent::Blue => 'B',
        FieldContent::Yellow => 'Y',
        FieldContent::Red => 'R',
        FieldContent::Green => 'G',
        FieldContent::Empty => '.',
    }
}

pub open spec fn content_token(f: FieldContent) -> Seq<char> {
    match f {
        FieldContent::Blue => "BLUE"@,
        FieldContent::Yellow => "YELLOW"@,
        FieldContent::Red => "RED"@,
        FieldContent::Green => "GREEN"@,
        FieldContent::Empty => "EMPTY"@,
    }
}

pub open spec fn content_from_token(t: Seq<char>) -> Option<FieldContent> {
    if t == "BLUE"@ {
        Some(FieldContent::Blue)
    } else if t == "YELLOW"@ {
        Some(FieldContent::Yellow)
    } else if t == "RED"@ {
        Some(FieldContent::Red)
    } else if t == "GREEN"@ {
        Some(FieldContent::Green)
    } else if t == "EMPTY"@ {
        Some(FieldContent::Empty)
    } else {
        None
    }
}

impl Default for FieldContent {
    fn default() -> (r: FieldContent)
        ensures
            r == FieldContent::Empty,
    {
        FieldContent::Empty
    }
}

impl FieldContent {
    /// The single-letter board symbol of this content.
    pub fn letter(self) -> (r: char)
        ensures
            r == content_letter(self),
    {
        match self {
            FieldContent::Blue => 'B',
            FieldContent::Yellow => 'Y',
            FieldContent::Red => 'R',
            FieldContent::Green => 'G',
            FieldContent::Empty => '.',
        }
    }

    /// The colour of this content, if it is not empty.
    pub fn to_color(self) -> (r: Option<Color>)
        ensures
            r == content_color(self),
    {
        match self {
            FieldContent::Blue => Some(Color::Blue),
            FieldContent::Yellow => Some(Color::Yellow),
            FieldContent::Red => Some(Color::Red),
            FieldContent::Green => Some(Color::Green),
            FieldContent::Empty => None,
        }
    }

    /// Whether this content is empty.
    pub fn is_empty(self) -> (r: bool)
        ensures
            r == (self == FieldContent::Empty),
    {
        match self {
            FieldContent::Empty => true,
            _ => false,
        }
    }

    /// The protocol token of this content (`BLUE`, ..., `EMPTY`).
    pub fn as_str(&self) -> (r: &'static str)
        ensures
            r@ == content_token(*self),
    {
        match self {
            FieldContent::Blue => "BLUE",
            FieldContent::Yellow => "YELLOW",
            FieldContent::Red => "RED",
            FieldContent::Green => "GREEN",
            FieldContent::Empty => "EMPTY",
        }
    }

    /// Parses a field content token; surrounding whitespace is ignored.
    pub fn from_str(s: &str) -> (r: Result<FieldContent, String>)
        ensures
            parse_result(content_from_token(trim_spec(s@)), "field content"@, s@, r),
    {
        let t = trim(s);
        if str_equal(t, "BLUE") {
            Ok(FieldContent::Blue)
        } else if str_equal(t, "YELLOW") {
            Ok(FieldContent::Yellow)
        } else if str_equal(t, "RED") {
            Ok(FieldContent::Red)
        } else if str_equal(t, "GREEN") {
            Ok(FieldContent::Green)
        } else if str_equal(t, "EMPTY") {
            Ok(FieldContent::Empty)
        } else {
            Err(unknown_token_error("field content", t))
        }
    }
}

/// Rotation amount for a PieceShape, in quarter turns clockwise.
#[derive(Debug, Clone, Copy, PartialEq, Eq, Hash, Structural)]
pub enum Rotation {
    Zero,
    Right,
    /// 180 degrees.
    Mirror,
    Left,
}

pub open spec fn rotation_value(r: Rotation) -> int {
    match r {
        Rotation::Zero => 0,
        Rotation::Right => 1,
        Rotation::Mirror => 2,
        Rotation::Left => 3,
    }
}

/// The rotation by `v % 4` quarter turns.
pub open spec fn rotation_of(v: int) -> Rotation {
    let k = v % 4;
    if k == 0 {
        Rotation::Zero
    } else if k == 1 {
        Rotation::Right
    } else if k == 2 {
        Rotation::Mirror
    } else {
        Rotation::Left
    }
}

pub open spec fn combine_rotations(a: Rotation, b: Rotation) -> Rotation {
    rotation_of(rotation_value(a) + rotation_value(b))
}

pub open spec fn rotation_token(r: Rotation) -> Seq<char> {
    match r {
        Rotation::Zero => "NONE"@,
        Rotation::Right => "RIGHT"@,
        Rotation::Mirror => "MIRROR"@,
        Rotation::Left => "LEFT"@,
    }
}

pub open spec fn rotation_from_token(t: Seq<char>) -> Option<Rotation> {
    if t == "NONE"@ {
        Some(Rotation::Zero)
    } else if t == "RIGHT"@ {
        Some(Rotation::Right)
    } else if t == "MIRROR"@ {
        Some(Rotation::Mirror)
    } else if t == "LEFT"@ {
        Some(Rotation::Left)
    } else {
        None
    }
}

impl Default for Rotation {
    fn default() -> (r: Rotation)
        ensures
            r == Rotation::Zero,
    {
        Rotation::Zero
    }
}

impl Rotation {
    /// The number of quarter turns clockwise.
    pub fn value(self) -> (r: u8)
        ensures
            r == rotation_value(self),
    {
        match self {
            Rotation::Zero => 0,
            Rotation::Right => 1,
            Rotation::Mirror => 2,
            Rotation::Left => 3,
        }
    }

    /// The rotation by the sum of both amounts.
    pub fn combine(self, other: Rotation) -> (r: Rotation)
        ensures
            r == combine_rotations(self, other),
    {
        let k = (self.value() + other.value()) % 4;
        if k == 0 {
            Rotation::Zero
        } else if k == 1 {
            Rotation::Right
        } else if k == 2 {
            Rotation::Mirror
        } else {
            Rotation::Left
        }
    }

    /// The protocol token of this rotation (`NONE`, `RIGHT`, `MIRROR`, `LEFT`).
    pub fn as_str(&self) -> (r: &'static str)
        ensures
            r@ == rotation_token(*self),
    {
        match self {
            Rotation::Zero => "NONE",
            Rotation::Right => "RIGHT",
            Rotation::Mirror => "MIRROR",
            Rotation::Left => "LEFT",
        }
    }

    /// Parses a rotation token; surrounding whitespace is ignored.
    pub fn from_str(s: &str) -> (r: Result<Rotation, String>)
        ensures
            parse_result(rotation_from_token(trim_spec(s@)), "rotation"@, s@, r),
    {
        let t = trim(s);
        if str_equal(t, "NONE") {
            Ok(Rotation::Zero)
        } else if str_equal(t, "RIGHT") {
            Ok(Rotation::Right)
        } else if str_equal(t, "MIRROR") {
            Ok(Rotation::Mirror)
        } else if str_equal(t, "LEFT") {
            Ok(Rotation::Left)
        } else {
            Err(unknown_token_error("rotation", t))
        }
    }
}

/// A single piece: a kind of shape, rotated and possibly flipped, anchored at `position`.
///
/// `position` is the top-left of the bounding box of the transformed shape.
#[derive(Debug, Clone, Copy, PartialEq, Eq, Hash, Structural)]
pub struct Piece {
    pub color: Color,
    pub kind: PieceShape,
    pub rotation: Rotation,
    pub is_flipped: bool,
    pub position: Coordinates,
}

/// The transformed shape of a piece, relative to its position.
pub open spec fn piece_shape_cells(p: Piece) -> Seq<(i32, i32)> {
    transform_spec(p.kind, p.rotation, p.is_flipped)
}

/// Whether the board coordinates of every cell of the piece fit in `i32`.
pub open spec fn piece_fits(p: Piece) -> bool {
    forall|i: int|
        0 <= i < piece_shape_cells(p).len() ==> p.position.x + #[trigger] piece_shape_cells(
            p,
        )[i].0 <= i32::MAX && p.position.y + piece_shape_cells(p)[i].1 <= i32::MAX
}

/// The board coordinates that the piece occupies, in the order of its shape cells.
pub open spec fn piece_cells(p: Piece) -> Seq<Coordinates> {
    piece_shape_cells(p).map_values(
        |c: (i32, i32)|
            Coordinates { x: (p.position.x + c.0) as i32, y: (p.position.y + c.1) as i32 },
    )
}

impl Piece {
    /// The piece of the given colour, shape, orientation and position.
    pub fn new(
        color: Color,
        kind: PieceShape,
        rotation: Rotation,
        is_flipped: bool,
        position: Coordinates,
    ) -> (r: Self)
        ensures
            r == (Piece { color, kind, rotation, is_flipped, position }),
    {
        Piece { color, kind, rotation, is_flipped, position }
    }

    /// The transformed shape coordinates relative to (0,0).
    pub fn shape(&self) -> (r: Vec<(i32, i32)>)
        ensures
            r@ == piece_shape_cells(*self),
    {
        self.kind.transform(self.rotation, self.is_flipped)
    }

    /// The actual board coordinates this piece will occupy.
    pub fn coordinates(&self) -> (r: Vec<Coordinates>)
        requires
            piece_fits(*self),
        ensures
            r@ == piece_cells(*self),
    {
        let shape = self.shape();
        proof {
            lemma_transform_cells(self.kind, self.rotation, self.is_flipped);
        }
        let px = self.position.x;
        let py = self.position.y;
        let mut out: Vec<Coordinates> = Vec::new();
        let mut i: usize = 0;
        while i < shape.len()
            invariant
                i <= shape@.len(),
                shape@ == piece_shape_cells(*self),
                px == self.position.x,
                py == self.position.y,
                piece_fits(*self),
                forall|k: int| 0 <= k < shape@.len() ==> 0 <= #[trigger] shape@[k].0 && 0 <= shape@[k].1,
                out@ =~= piece_cells(*self).take(i as int),
            decreases shape@.len() - i,
        {
            let (dx, dy) = shape[i];
            assert(px + shape@[i as int].0 <= i32::MAX);
            out.push(Coordinates::new(px + dx, py + dy));
            i = i + 1;
        }
        assert(piece_cells(*self).take(shape@.len() as int) =~= piece_cells(*self));
        out
    }
}

/// A Blokus move: either place a piece (`SetMove`) or skip the turn (`Skip`).
#[derive(Debug, Clone, Copy, PartialEq, Eq, Hash, Structural)]
pub enum Move {
    SetMove { piece: Piece },
    Skip { color: Color },
}

pub open spec fn move_color(m: Move) -> Color {
    match m {
        Move::SetMove { piece } => piece.color,
        Move::Skip { color } => color,
    }
}

impl Move {
    /// The colour that makes this move.
    pub fn color(&self) -> (r: Color)
        ensures
            r == move_color(*self),
    {
        match self {
            Move::SetMove { piece } => piece.color,
            Move::Skip { color } => *color,
        }
    }
}

/// The 9 reasons why a move is invalid.
#[derive(Debug, Clone, Copy, PartialEq, Eq, Hash, Structural)]
pub enum BlokusMoveMistake {
    WrongColor,
    NotOnBorder,
    NoSharedCorner,
    WrongShape,
    SkipFirstTurn,
    DuplicateShape,
    OutOfBounds,
    Obstructed,
    TouchesSameColor,
}

pub open spec fn mistake_message(m: BlokusMoveMistake) -> Seq<char> {
    match m {
        BlokusMoveMistake::WrongColor => "Die Farbe des Zuges ist nicht an der Reihe"@,
        BlokusMoveMistake::NotOnBorder => "Der erste Zug muss an den Rand gesetzt werden"@,
        BlokusMoveMistake::NoSharedCorner => "Alle Teile müssen ein vorheriges Teil gleicher Farbe über mindestens eine Ecke berühren"@,
        BlokusMoveMistake::WrongShape => "Der erste Zug muss den festgelegten Spielstein setzen"@,
        BlokusMoveMistake::SkipFirstTurn => "Der erste Zug muss einen Stein setzen"@,
        BlokusMoveMistake::DuplicateShape => "Der gewählte Stein wurde bereits gesetzt"@,
        BlokusMoveMistake::OutOfBounds => "Der Spielstein passt nicht vollständig auf das Spielfeld"@,
        BlokusMoveMistake::Obstructed => "Der Spielstein würde eine andere Farbe überlagern"@,
        BlokusMoveMistake::TouchesSameColor => "Der Spielstein berührt ein Feld gleicher Farbe"@,
    }
}

pub open spec fn mistake_from_token(t: Seq<char>) -> Option<BlokusMoveMistake> {
    if t == "WRONG_COLOR"@ {
        Some(BlokusMoveMistake::WrongColor)
    } else if t == "NOT_ON_BORDER"@ {
        Some(BlokusMoveMistake::NotOnBorder)
    } else if t == "NO_SHARED_CORNER"@ {
        Some(BlokusMoveMistake::NoSharedCorner)
    } else if t == "WRONG_SHAPE"@ {
        Some(BlokusMoveMistake::WrongShape)
    } else if t == "SKIP_FIRST_TURN"@ {
        Some(BlokusMoveMistake::SkipFirstTurn)
    } else if t == "DUPLICATE_SHAPE"@ {
        Some(BlokusMoveMistake::DuplicateShape)
    } else if t == "OUT_OF_BOUNDS"@ {
        Some(BlokusMoveMistake::OutOfBounds)
    } else if t == "OBSTRUCTED"@ {
        Some(BlokusMoveMistake::Obstructed)
    } else if t == "TOUCHES_SAME_COLOR"@ {
        Some(BlokusMoveMistake::TouchesSameColor)
    } else {
        None
    }
}

impl BlokusMoveMistake {
    /// The human-readable (German) explanation of the mistake.
    pub fn message(self) -> (r: &'static str)
        ensures
            r@ == mistake_message(self),
    {
        match self {
            BlokusMoveMistake::WrongColor => "Die Farbe des Zuges ist nicht an der Reihe",
            BlokusMoveMistake::NotOnBorder => "Der erste Zug muss an den Rand gesetzt werden",
            BlokusMoveMistake::NoSharedCorner => "Alle Teile müssen ein vorheriges Teil gleicher Farbe über mindestens eine Ecke berühren",
            BlokusMoveMistake::WrongShape => "Der erste Zug muss den festgelegten Spielstein setzen",
            BlokusMoveMistake::SkipFirstTurn => "Der erste Zug muss einen Stein setzen",
            BlokusMoveMistake::DuplicateShape => "Der gewählte Stein wurde bereits gesetzt",
            BlokusMoveMistake::OutOfBounds => "Der Spielstein passt nicht vollständig auf das Spielfeld",
            BlokusMoveMistake::Obstructed => "Der Spielstein würde eine andere Farbe überlagern",
            BlokusMoveMistake::TouchesSameColor => "Der Spielstein berührt ein Feld gleicher Farbe",
        }
    }

    /// Parses a mistake token such as `WRONG_COLOR`; surrounding whitespace is ignored.
    pub fn from_str(s: &str) -> (r: Result<BlokusMoveMistake, String>)
        ensures
            parse_result(mistake_from_token(trim_spec(s@)), "BlokusMoveMistake"@, s@, r),
    {
        let t = trim(s);
        if str_equal(t, "WRONG_COLOR") {
            Ok(BlokusMoveMistake::WrongColor)
        } else if str_equal(t, "NOT_ON_BORDER") {
            Ok(BlokusMoveMistake::NotOnBorder)
        } else if str_equal(t, "NO_SHARED_CORNER") {
            Ok(BlokusMoveMistake::NoSharedCorner)
        } else if str_equal(t, "WRONG_SHAPE") {
            Ok(BlokusMoveMistake::WrongShape)
        } else if str_equal(t, "SKIP_FIRST_TURN") {
            Ok(BlokusMoveMistake::SkipFirstTurn)
        } else if str_equal(t, "DUPLICATE_SHAPE") {
            Ok(BlokusMoveMistake::DuplicateShape)
        } else if str_equal(t, "OUT_OF_BOUNDS") {
            Ok(BlokusMoveMistake::OutOfBounds)
        } else if str_equal(t, "OBSTRUCTED") {
            Ok(BlokusMoveMistake::Obstructed)
        } else if str_equal(t, "TOUCHES_SAME_COLOR") {
            Ok(BlokusMoveMistake::TouchesSameColor)
        } else {
            Err(unknown_token_error("BlokusMoveMistake", t))
        }
    }
}

/// How GameResult fragment values get aggregated across a match.
#[derive(Debug, Clone, Copy, PartialEq, Eq, Hash, Structural)]
pub enum ScoreAggregation {
    Sum,
    Average,
}

pub open spec fn aggregation_token(a: ScoreAggregation) -> Seq<char> {
    match a {
        ScoreAggregation::Sum => "SUM"@,
        ScoreAggregation::Average => "AVERAGE"@,
    }
}

pub open spec fn aggregation_from_token(t: Seq<char>) -> Option<ScoreAggregation> {
    if t == "SUM"@ {
        Some(ScoreAggregation::Sum)
    } else if t == "AVERAGE"@ {
        Some(ScoreAggregation::Average)
    } else {
        None
    }
}

impl ScoreAggregation {
    /// The protocol token (`SUM`, `AVERAGE`).
    pub fn as_str(&self) -> (r: &'static str)
        ensures
            r@ == aggregation_token(*self),
    {
        match self {
            ScoreAggregation::Sum => "SUM",
            ScoreAggregation::Average => "AVERAGE",
        }
    }

    /// Parses an aggregation token; surrounding whitespace is ignored.
    pub fn from_str(s: &str) -> (r: Result<ScoreAggregation, String>)
        ensures
            parse_result(aggregation_from_token(trim_spec(s@)), "score aggregation"@, s@, r),
    {
        let t = trim(s);
        if str_equal(t, "SUM") {
            Ok(ScoreAggregation::Sum)
        } else if str_equal(t, "AVERAGE") {
            Ok(ScoreAggregation::Average)
        } else {
            Err(unknown_token_error("score aggregation", t))
        }
    }
}

/// One row of the `ScoreDefinition` table for the game.
#[derive(Debug, Clone, PartialEq, Eq)]
pub struct ScoreFragment {
    pub name: String,
    pub aggregation: ScoreAggregation,
    pub relevant_for_ranking: bool,
}

/// A single player's values, one per `ScoreFragment` of the definition, each
/// as the decimal text that the server sent.
#[derive(Debug, Clone, PartialEq, Eq)]
pub struct PlayerScore {
    pub parts: Vec<String>,
}

/// Winner info for a finished game.
#[derive(Debug, Clone, PartialEq, Eq)]
pub struct Winner {
    pub team: Option<Team>,
    pub regular: bool,
    pub reason: Option<String>,
}

/// For each colour that has placed all its pieces: whether its last piece was
/// the monomino (relevant for the bonus).
#[derive(Debug, Clone, Copy, PartialEq, Eq)]
pub struct LastMoveMonoMap {
    blue: Option<bool>,
    yellow: Option<bool>,
    red: Option<bool>,
    green: Option<bool>,
}

impl LastMoveMonoMap {
    pub closed spec fn slot(&self, c: Color) -> Option<bool> {
        match c {
            Color::Blue => self.blue,
            Color::Yellow => self.yellow,
            Color::Red => self.red,
            Color::Green => self.green,
        }
    }
}

impl View for LastMoveMonoMap {
    type V = Map<Color, bool>;

    closed spec fn view(&self) -> Map<Color, bool> {
        Map::new(|c: Color| self.slot(c) is Some, |c: Color| self.slot(c)->Some_0)
    }
}

impl Default for LastMoveMonoMap {
    fn default() -> (r: LastMoveMonoMap)
        ensures
            r@ == Map::<Color, bool>::empty(),
    {
        LastMoveMonoMap::new()
    }
}

impl LastMoveMonoMap {
    /// The map with no entries.
    pub fn new() -> (r: LastMoveMonoMap)
        ensures
            r@ == Map::<Color, bool>::empty(),
    {
        let r = LastMoveMonoMap { blue: None, yellow: None, red: None, green: None };
        assert(r@ =~= Map::<Color, bool>::empty());
        r
    }

    fn slot_ref(&self, c: &Color) -> (r: &Option<bool>)
        ensures
            *r == self.slot(*c),
    {
        match c {
            Color::Blue => &self.blue,
            Color::Yellow => &self.yellow,
            Color::Red => &self.red,
            Color::Green => &self.green,
        }
    }

    /// The mono record of `c`, if there is one.
    pub fn get(&self, c: &Color) -> (r: Option<&bool>)
        ensures
            r == (if self@.contains_key(*c) {
                Some(&self@[*c])
            } else {
                None::<&bool>
            }),
    {
        match self.slot_ref(c) {
            Some(v) => Some(v),
            None => None,
        }
    }

    /// Whether there is a mono record for `c`.
    pub fn contains_key(&self, c: &Color) -> (r: bool)
        ensures
            r == self@.contains_key(*c),
    {
        self.slot_ref(c).is_some()
    }

    /// Sets the entry for `c`, returning the previous one.
    pub fn insert(&mut self, c: Color, v: bool) -> (r: Option<bool>)
        ensures
            final(self)@ == old(self)@.insert(c, v),
            r == (if old(self)@.contains_key(c) {
                Some(old(self)@[c])
            } else {
                None::<bool>
            }),
    {
        let prev = *self.slot_ref(&c);
        match c {
            Color::Blue => self.blue = Some(v),
            Color::Yellow => self.yellow = Some(v),
            Color::Red => self.red = Some(v),
            Color::Green => self.green = Some(v),
        }
        assert(self@ =~= old(self)@.insert(c, v));
        prev
    }

    /// Removes the entry for `c`, returning it.
    pub fn remove(&mut self, c: &Color) -> (r: Option<bool>)
        ensures
            final(self)@ == old(self)@.remove(*c),
            r == (if old(self)@.contains_key(*c) {
                Some(old(self)@[*c])
            } else {
                None::<bool>
            }),
    {
        let prev = *self.slot_ref(c);
        match c {
            Color::Blue => self.blue = None,
            Color::Yellow => self.yellow = None,
            Color::Red => self.red = None,
            Color::Green => self.green = None,
        }
        assert(self@ =~= old(self)@.remove(*c));
        prev
    }

    /// Whether there is no mono record.
    pub fn is_empty(&self) -> (r: bool)
        ensures
            r == (self@ == Map::<Color, bool>::empty()),
    {
        let r = self.blue.is_none() && self.yellow.is_none() && self.red.is_none()
            && self.green.is_none();
        proof {
            if r {
                assert(self@ =~= Map::<Color, bool>::empty());
            } else {
                if self.blue.is_some() {
                    assert(self@.dom().contains(Color::Blue));
                } else if self.yellow.is_some() {
                    assert(self@.dom().contains(Color::Yellow));
                } else if self.red.is_some() {
                    assert(self@.dom().contains(Color::Red));
                } else {
                    assert(self@.dom().contains(Color::Green));
                }
            }
        }
        r
    }

    /// Removes all entries.
    pub fn clear(&mut self)
        ensures
            final(self)@ == Map::<Color, bool>::empty(),
    {
        *self = LastMoveMonoMap::new();
    }
}


/// A text whose first and last characters are no whitespace is its own trim.
pub proof fn lemma_trim_plain(s: Seq<char>)
    requires
        s.len() > 0,
        !is_ws(s[0]),
        !is_ws(s.last()),
    ensures
        trim_spec(s) == s,
{
    assert(trim_start_spec(s) == s);
    assert(trim_end_spec(s) == s);
}

/// Reading back the protocol token of a colour, team, field content,
/// rotation or score aggregation, as `from_str` reads it, gives the value
/// that wrote it.
pub proof fn law_tokens_round_trip(
    c: Color,
    t: Team,
    f: FieldContent,
    r: Rotation,
    a: ScoreAggregation,
)
    ensures
        color_from_token(trim_spec(color_token(c))) == Some(c),
        team_from_token(trim_spec(team_token(t))) == Some(t),
        content_from_token(trim_spec(content_token(f))) == Some(f),
        rotation_from_token(trim_spec(rotation_token(r))) == Some(r),
        aggregation_from_token(trim_spec(aggregation_token(a))) == Some(a),
{
    reveal_strlit("BLUE");
    reveal_strlit("YELLOW");
    reveal_strlit("RED");
    reveal_strlit("GREEN");
    reveal_strlit("EMPTY");
    reveal_strlit("ONE");
    reveal_strlit("TWO");
    reveal_strlit("NONE");
    reveal_strlit("RIGHT");
    reveal_strlit("MIRROR");
    reveal_strlit("LEFT");
    reveal_strlit("SUM");
    reveal_strlit("AVERAGE");
    lemma_trim_plain(color_token(c));
    lemma_trim_plain(team_token(t));
    lemma_trim_plain(content_token(f));
    lemma_trim_plain(rotation_token(r));
    lemma_trim_plain(aggregation_token(a));
}

/// Play goes round the four colours: four steps return to the start, each
/// step passes play to the other team, and each colour fills its own field
/// content.
pub proof fn law_color_cycle(c: Color)
    ensures
        next_color(next_color(next_color(next_color(c)))) == c,
        next_color(c) != c,
        next_color(c) == color_of(color_index(c) + 1),
        team_of(next_color(c)) == opponent_of(team_of(c)),
        opponent_of(opponent_of(team_of(c))) == team_of(c),
        content_color(content_of(c)) == Some(c),
{
}

/// Quarter turns add up: combining two rotations adds their values modulo
/// 4, in either order; no turn changes nothing, and four right turns are no
/// turn.
pub proof fn law_rotation_combine(a: Rotation, b: Rotation)
    ensures
        rotation_value(combine_rotations(a, b)) == (rotation_value(a) + rotation_value(b)) % 4,
        combine_rotations(a, b) == combine_rotations(b, a),
        combine_rotations(a, Rotation::Zero) == a,
        combine_rotations(
            combine_rotations(
                combine_rotations(combine_rotations(a, Rotation::Right), Rotation::Right),
                Rotation::Right,
            ),
            Rotation::Right,
        ) == a,
{
}

} // verus!
