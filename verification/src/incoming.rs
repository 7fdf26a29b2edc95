//! The data of the XML messages that the game server sends, as plain
//! values: one struct per XML element, its attributes and children as fields.
use vstd::prelude::*;

verus! {

// ___ Board (custom converter: only non-empty fields are emitted) ___

#[derive(Debug, Clone, PartialEq, Eq)]
pub struct ReceivedField {
    pub x: i32,
    pub y: i32,
    pub content: String,
}

#[derive(Debug, Clone, PartialEq, Eq)]
pub struct ReceivedBoard {
    pub fields: Vec<ReceivedField>,
}

// ___ Piece + position ___

#[derive(Debug, Clone, PartialEq, Eq)]
pub struct ReceivedPosition {
    pub x: i32,
    pub y: i32,
}

#[derive(Debug, Clone, PartialEq, Eq)]
pub struct ReceivedPiece {
    pub color: String,
    pub kind: String,
    pub rotation: String,
    pub is_flipped: String,
    pub position: Option<ReceivedPosition>,
}

// ___ lastMove + color (SkipMove encloses <color>BLUE</color>) ___

#[derive(Debug, Clone, PartialEq, Eq)]
pub struct ReceivedColorText {
    pub value: String,
}

#[derive(Debug, Clone, PartialEq, Eq)]
pub struct ReceivedLastMove {
    pub class: Option<String>,
    pub piece: Option<ReceivedPiece>,
    pub color: Option<ReceivedColorText>,
}

// ___ lastMoveMono (Map serialised as <entry><color>X</color><boolean>true</boolean></entry>) ___

#[derive(Debug, Clone, PartialEq, Eq)]
pub struct ReceivedBoolean {
    pub value: String,
}

#[derive(Debug, Clone, PartialEq, Eq)]
pub struct ReceivedLastMoveMonoEntry {
    pub color: ReceivedColorText,
    pub boolean: ReceivedBoolean,
}

#[derive(Debug, Clone, PartialEq, Eq, Default)]
pub struct ReceivedLastMoveMono {
    pub entries: Vec<ReceivedLastMoveMonoEntry>,
}

// ___ Undeployed-shape lists: <blueShapes><shape>MONO</shape>...</blueShapes> ___

#[derive(Debug, Clone, PartialEq, Eq)]
pub struct ReceivedShape {
    pub value: String,
}

#[derive(Debug, Clone, PartialEq, Eq, Default)]
pub struct ReceivedBlueShapes {
    pub shapes: Vec<ReceivedShape>,
}

#[derive(Debug, Clone, PartialEq, Eq, Default)]
pub struct ReceivedYellowShapes {
    pub shapes: Vec<ReceivedShape>,
}

#[derive(Debug, Clone, PartialEq, Eq, Default)]
pub struct ReceivedRedShapes {
    pub shapes: Vec<ReceivedShape>,
}

#[derive(Debug, Clone, PartialEq, Eq, Default)]
pub struct ReceivedGreenShapes {
    pub shapes: Vec<ReceivedShape>,
}

// ___ validColors: <validColors><color>BLUE</color>...</validColors> ___

#[derive(Debug, Clone, PartialEq, Eq, Default)]
pub struct ReceivedValidColors {
    pub colors: Vec<ReceivedColorText>,
}

// ___ <state> rich element ___

#[derive(Debug, Clone, PartialEq, Eq, Default)]
pub struct ReceivedState {
    pub turn: Option<u32>,
    pub start_team: Option<String>,
    pub start_piece: Option<String>,
    pub round: Option<u32>,
    pub last_move: Option<ReceivedLastMove>,
    pub board: Option<ReceivedBoard>,
    pub last_move_mono: Option<ReceivedLastMoveMono>,
    pub blue_shapes: Option<ReceivedBlueShapes>,
    pub yellow_shapes: Option<ReceivedYellowShapes>,
    pub red_shapes: Option<ReceivedRedShapes>,
    pub green_shapes: Option<ReceivedGreenShapes>,
    pub valid_colors: Option<ReceivedValidColors>,
}

// ___ game result: <definition>, <scores>, <winner> ___

#[derive(Debug, Clone, PartialEq, Eq)]
pub struct ReceivedAggregation {
    pub value: String,
}

#[derive(Debug, Clone, PartialEq, Eq)]
pub struct ReceivedBool {
    pub value: String,
}

#[derive(Debug, Clone, PartialEq, Eq)]
pub struct ReceivedFragment {
    pub name: String,
    pub aggregation: ReceivedAggregation,
    pub relevant_for_ranking: ReceivedBool,
}

#[derive(Debug, Clone, PartialEq, Eq)]
pub struct ReceivedDefinition {
    pub fragments: Vec<ReceivedFragment>,
}

#[derive(Debug, Clone, PartialEq, Eq)]
pub struct ReceivedPlayerAttr {
    pub team: String,
}

#[derive(Debug, Clone, PartialEq, Eq)]
pub struct ReceivedPart {
    pub value: String,
}

#[derive(Debug, Clone, PartialEq, Eq)]
pub struct ReceivedScore {
    pub parts: Vec<ReceivedPart>,
}

#[derive(Debug, Clone, PartialEq, Eq)]
pub struct ReceivedScoreEntry {
    pub player: ReceivedPlayerAttr,
    pub score: Option<ReceivedScore>,
}

#[derive(Debug, Clone, PartialEq, Eq)]
pub struct ReceivedScores {
    pub entries: Vec<ReceivedScoreEntry>,
}

#[derive(Debug, Clone, PartialEq, Eq)]
pub struct ReceivedWinner {
    pub team: Option<String>,
    pub regular: Option<String>,
    pub reason: Option<String>,
}

// ___ <data class="..."> envelope (memento / result / welcomeMessage / moveRequest) ___

#[derive(Debug, Clone, PartialEq, Eq)]
pub struct ReceivedData {
    pub class: Option<String>,
    /// welcomeMessage uses a `color` attribute (Team name string).
    pub color_attr: Option<String>,
    /// `<state>` from memento.
    pub state: Option<ReceivedState>,
    /// GameResult children:
    pub definition: Option<ReceivedDefinition>,
    pub scores: Option<ReceivedScores>,
    pub winner: Option<ReceivedWinner>,
}

#[derive(Debug, Clone, PartialEq, Eq)]
pub struct ReceivedRoom {
    pub room_id: Option<String>,
    pub data: Option<ReceivedData>,
}

#[derive(Debug, Clone, PartialEq, Eq)]
pub struct ReceivedJoined {
    pub room_id: Option<String>,
}

#[derive(Debug, Clone, PartialEq, Eq)]
pub struct ReceivedLeft {
    pub room_id: Option<String>,
}

#[derive(Debug, Clone, PartialEq, Eq)]
pub struct ReceivedComMessage {
    pub left: Option<ReceivedLeft>,
    pub joined: Option<ReceivedJoined>,
    pub room: Vec<ReceivedRoom>,
    pub admin_prepared: Option<ReceivedAdminPrepared>,
}

// ___ admin prepared ___

#[derive(Debug, Clone, PartialEq, Eq)]
pub struct ReceivedAdminPrepared {
    pub admin_reservation: Vec<ReceivedAdminReservation>,
    pub room_id: String,
}

#[derive(Debug, Clone, PartialEq, Eq)]
pub struct ReceivedAdminReservation {
    pub reservation_id: String,
}

} // verus!
