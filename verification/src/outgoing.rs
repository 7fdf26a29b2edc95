//! The XML messages that a client sends to the server.
//!
//! Element messages are written the way strong_xml writes its elements: the
//! tag, each attribute as ` key="value"` with the value XML-escaped, and `/>`
//! for an element without children.
use vstd::prelude::*;

use crate::incoming::{ReceivedLastMove, ReceivedPiece, ReceivedPosition};
use crate::messages::{last_move_result, piece_result};
use crate::neutral::{color_token, rotation_token, Color, Move, Piece};
use crate::piece_shape::shape_token;
use crate::socha_com::PrepareSlot;
use crate::text::{append_escaped, append_signed, signed_decimal, xml_escaped};

verus! {

/// The text of the attribute `key` with value `value`.
pub open spec fn attr_text(key: Seq<char>, value: Seq<char>) -> Seq<char> {
    " "@ + key + "=\""@ + xml_escaped(value) + "\""@
}

/// `true` or `false`.
pub open spec fn bool_text(b: bool) -> Seq<char> {
    if b {
        "true"@
    } else {
        "false"@
    }
}

/// The text of an optional string.
pub open spec fn opt_text(o: Option<String>) -> Option<Seq<char>> {
    match o {
        Some(s) => Some(s@),
        None => None,
    }
}

/// The text of an optional attribute: nothing where it is absent.
pub open spec fn opt_attr_text(key: Seq<char>, value: Option<Seq<char>>) -> Seq<char> {
    match value {
        Some(v) => attr_text(key, v),
        None => Seq::empty(),
    }
}

/// Appends ` key="value"` with the value escaped.
fn push_attr(s: &mut String, key: &str, value: &str)
    ensures
        final(s)@ == old(s)@ + attr_text(key@, value@),
{
    s.append(" ");
    s.append(key);
    s.append("=\"");
    append_escaped(s, value);
    s.append("\"");
    proof {
        assert(final(s)@ =~= old(s)@ + attr_text(key@, value@));
    }
}

/// `"true"` or `"false"`.
fn bool_str(b: bool) -> (r: &'static str)
    ensures
        r@ == bool_text(b),
{
    if b {
        "true"
    } else {
        "false"
    }
}

// ___ join ___

#[derive(Debug)]
pub struct Join {
    pub game_type: String,
    pub participant_id: Option<String>,
}

pub open spec fn join_text(game_type: Seq<char>, participant_id: Option<Seq<char>>) -> Seq<char> {
    "<join"@ + attr_text("gameType"@, game_type) + opt_attr_text("participantId"@, participant_id)
        + "/>"@
}

impl Join {
    /// The `<join>` element.
    pub fn to_xml(&self) -> (r: String)
        ensures
            r@ == join_text(self.game_type@, opt_text(self.participant_id)),
    {
        let mut s = String::from_str("<join");
        push_attr(&mut s, "gameType", self.game_type.as_str());
        match &self.participant_id {
            Some(p) => push_attr(&mut s, "participantId", p.as_str()),
            None => {},
        }
        s.append("/>");
        proof {
            assert(s@ =~= join_text(self.game_type@, opt_text(self.participant_id)));
        }
        s
    }
}

#[derive(Debug)]
pub struct JoinPrepared {
    pub reservation_code: String,
}

pub open spec fn join_prepared_text(code: Seq<char>) -> Seq<char> {
    "<joinPrepared"@ + attr_text("reservationCode"@, code) + "/>"@
}

impl JoinPrepared {
    /// The `<joinPrepared>` element.
    pub fn to_xml(&self) -> (r: String)
        ensures
            r@ == join_prepared_text(self.reservation_code@),
    {
        let mut s = String::from_str("<joinPrepared");
        push_attr(&mut s, "reservationCode", self.reservation_code.as_str());
        s.append("/>");
        proof {
            assert(s@ =~= join_prepared_text(self.reservation_code@));
        }
        s
    }
}

/// The request to join a free room of `game_type`.
pub fn make_join_xml(game_type: &str, participant_id: Option<&str>) -> (r: Result<String, String>)
    ensures
        r matches Ok(x) && x@ == join_text(
            game_type@,
            match participant_id {
                Some(p) => Some(p@),
                None => None,
            },
        ),
{
    let join = Join {
        game_type: game_type.to_string(),
        participant_id: match participant_id {
            Some(p) => Some(p.to_string()),
            None => None,
        },
    };
    Ok(join.to_xml())
}

/// The request to join the prepared room that `reservation_code` reserves.
pub fn make_join_prepared_xml(reservation_code: &str) -> (r: Result<String, String>)
    ensures
        r matches Ok(x) && x@ == join_prepared_text(reservation_code@),
{
    let join_prepared = JoinPrepared { reservation_code: reservation_code.to_string() };
    Ok(join_prepared.to_xml())
}

/// The message that ends the connection.
pub fn make_close_xml() -> (r: String)
    ensures
        r@ == "<close></close>"@,
{
    "<close></close>".to_string()
}

// ___ move ___

/// The `<data>` of a set move.
pub open spec fn set_move_text(p: Piece) -> Seq<char> {
    "<data class=\"sc.plugin2027.SetMove\"><piece color=\""@ + color_token(p.color) + "\" kind=\""@
        + shape_token(p.kind) + "\" rotation=\""@ + rotation_token(p.rotation) + "\" isFlipped=\""@
        + bool_text(p.is_flipped) + "\"><position x=\""@ + signed_decimal(p.position.x as int)
        + "\" y=\""@ + signed_decimal(p.position.y as int) + "\"/></piece></data>"@
}

/// The `<data>` of a skip move.
pub open spec fn skip_move_text(c: Color) -> Seq<char> {
    "<data class=\"sc.plugin2027.SkipMove\"><color>"@ + color_token(c) + "</color></data>"@
}

/// The room message that sends `mv` to room `room_id` (the id is written as it is).
pub open spec fn move_text(room_id: Seq<char>, mv: Move) -> Seq<char> {
    "<room roomId=\""@ + room_id + "\">"@ + match mv {
        Move::SetMove { piece } => set_move_text(piece),
        Move::Skip { color } => skip_move_text(color),
    } + "</room>"@
}

/// The room message that sends `mv`, with the full class names the server needs.
pub fn make_move_xml(room_id: &str, mv: &Move) -> (r: Result<String, String>)
    ensures
        r matches Ok(x) && x@ == move_text(room_id@, *mv),
{
    let body = match mv {
        Move::SetMove { piece } => set_move_body(piece),
        Move::Skip { color } => skip_move_body(*color),
    };
    let mut s = String::from_str("<room roomId=\"");
    s.append(room_id);
    s.append("\">");
    s.append(body.as_str());
    s.append("</room>");
    proof {
        assert(s@ =~= move_text(room_id@, *mv));
    }
    Ok(s)
}

/// The `<data>` of a set move of `piece`.
pub fn set_move_body(piece: &Piece) -> (r: String)
    ensures
        r@ == set_move_text(*piece),
{
    let mut s = String::from_str("<data class=\"sc.plugin2027.SetMove\"><piece color=\"");
    s.append(piece.color.as_str());
    s.append("\" kind=\"");
    s.append(piece.kind.as_str());
    s.append("\" rotation=\"");
    s.append(piece.rotation.as_str());
    s.append("\" isFlipped=\"");
    s.append(bool_str(piece.is_flipped));
    s.append("\"><position x=\"");
    append_signed(&mut s, piece.position.x);
    s.append("\" y=\"");
    append_signed(&mut s, piece.position.y);
    s.append("\"/></piece></data>");
    proof {
        assert(s@ =~= set_move_text(*piece));
    }
    s
}

/// The `<data>` of a skip move of `color`.
pub fn skip_move_body(color: Color) -> (r: String)
    ensures
        r@ == skip_move_text(color),
{
    let mut s = String::from_str("<data class=\"sc.plugin2027.SkipMove\"><color>");
    s.append(color.as_str());
    s.append("</color></data>");
    proof {
        assert(s@ =~= skip_move_text(color));
    }
    s
}


// ___ administration ___

/// An element whose only content is the attribute `key` with value `value`.
pub open spec fn single_attr_text(tag: Seq<char>, key: Seq<char>, value: Seq<char>) -> Seq<char> {
    "<"@ + tag + attr_text(key, value) + "/>"@
}

/// `<tag key="value"/>`.
fn single_attr_xml(tag: &str, key: &str, value: &str) -> (r: String)
    ensures
        r@ == single_attr_text(tag@, key@, value@),
{
    let mut s = String::from_str("<");
    s.append(tag);
    push_attr(&mut s, key, value);
    s.append("/>");
    proof {
        assert(s@ =~= single_attr_text(tag@, key@, value@));
    }
    s
}

#[derive(Debug)]
pub struct Authenticate {
    pub password: String,
}

impl Authenticate {
    /// The `<authenticate>` element.
    pub fn to_xml(&self) -> (r: String)
        ensures
            r@ == single_attr_text("authenticate"@, "password"@, self.password@),
    {
        single_attr_xml("authenticate", "password", self.password.as_str())
    }
}

#[derive(Debug)]
pub struct Observe {
    pub room_id: String,
}

impl Observe {
    /// The `<observe>` element.
    pub fn to_xml(&self) -> (r: String)
        ensures
            r@ == single_attr_text("observe"@, "roomId"@, self.room_id@),
    {
        single_attr_xml("observe", "roomId", self.room_id.as_str())
    }
}

#[derive(Debug)]
pub struct Pause {
    pub room_id: String,
    /// `true` or `false`
    pub pause: String,
}

pub open spec fn pause_text(room_id: Seq<char>, pause: Seq<char>) -> Seq<char> {
    "<pause"@ + attr_text("roomId"@, room_id) + attr_text("pause"@, pause) + "/>"@
}

impl Pause {
    /// The `<pause>` element.
    pub fn to_xml(&self) -> (r: String)
        ensures
            r@ == pause_text(self.room_id@, self.pause@),
    {
        let mut s = String::from_str("<pause");
        push_attr(&mut s, "roomId", self.room_id.as_str());
        push_attr(&mut s, "pause", self.pause.as_str());
        s.append("/>");
        proof {
            assert(s@ =~= pause_text(self.room_id@, self.pause@));
        }
        s
    }
}

#[derive(Debug)]
pub struct Step {
    pub room_id: String,
}

impl Step {
    /// The `<step>` element.
    pub fn to_xml(&self) -> (r: String)
        ensures
            r@ == single_attr_text("step"@, "roomId"@, self.room_id@),
    {
        single_attr_xml("step", "roomId", self.room_id.as_str())
    }
}

#[derive(Debug)]
pub struct Cancel {
    pub room_id: String,
}

impl Cancel {
    /// The `<cancel>` element.
    pub fn to_xml(&self) -> (r: String)
        ensures
            r@ == single_attr_text("cancel"@, "roomId"@, self.room_id@),
    {
        single_attr_xml("cancel", "roomId", self.room_id.as_str())
    }
}

#[derive(Debug)]
pub struct Slot {
    pub display_name: String,
    /// `true` or `false`
    pub can_timeout: String,
    /// `true` or `false`
    pub reserved: String,
}

/// The display name, timeout and reservation texts of a slot.
pub open spec fn slot_view(s: Slot) -> (Seq<char>, Seq<char>, Seq<char>) {
    (s.display_name@, s.can_timeout@, s.reserved@)
}

pub open spec fn slot_text(v: (Seq<char>, Seq<char>, Seq<char>)) -> Seq<char> {
    "<slot"@ + attr_text("displayName"@, v.0) + attr_text("canTimeout"@, v.1) + attr_text(
        "reserved"@,
        v.2,
    ) + "/>"@
}

/// The `<slot>` elements of `vs`, one after the other.
pub open spec fn slots_text(vs: Seq<(Seq<char>, Seq<char>, Seq<char>)>) -> Seq<char>
    decreases vs.len(),
{
    if vs.len() == 0 {
        Seq::empty()
    } else {
        slots_text(vs.drop_last()) + slot_text(vs.last())
    }
}

impl Slot {
    /// The `<slot>` element.
    pub fn to_xml(&self) -> (r: String)
        ensures
            r@ == slot_text(slot_view(*self)),
    {
        let mut s = String::from_str("<slot");
        push_attr(&mut s, "displayName", self.display_name.as_str());
        push_attr(&mut s, "canTimeout", self.can_timeout.as_str());
        push_attr(&mut s, "reserved", self.reserved.as_str());
        s.append("/>");
        proof {
            assert(s@ =~= slot_text(slot_view(*self)));
        }
        s
    }
}

#[derive(Debug)]
pub struct Prepare {
    pub game_type: String,
    /// `true` or `false`
    pub pause: String,
    pub slots: Vec<Slot>,
}

/// The `<prepare>` element: closed at once when it has no slot.
pub open spec fn prepare_text(
    game_type: Seq<char>,
    pause: Seq<char>,
    slots: Seq<(Seq<char>, Seq<char>, Seq<char>)>,
) -> Seq<char> {
    "<prepare"@ + attr_text("gameType"@, game_type) + attr_text("pause"@, pause) + if slots.len()
        == 0 {
        "/>"@
    } else {
        ">"@ + slots_text(slots) + "</prepare>"@
    }
}

impl Prepare {
    /// The `<prepare>` element with its slots.
    pub fn to_xml(&self) -> (r: String)
        ensures
            r@ == prepare_text(
                self.game_type@,
                self.pause@,
                self.slots@.map_values(|x: Slot| slot_view(x)),
            ),
    {
        let ghost vs = self.slots@.map_values(|x: Slot| slot_view(x));
        let mut s = String::from_str("<prepare");
        push_attr(&mut s, "gameType", self.game_type.as_str());
        push_attr(&mut s, "pause", self.pause.as_str());
        if self.slots.len() == 0 {
            s.append("/>");
            proof {
                assert(s@ =~= prepare_text(self.game_type@, self.pause@, vs));
            }
            return s;
        }
        s.append(">");
        let ghost head = s@;
        let mut i: usize = 0;
        assert(vs.take(0) =~= Seq::empty());
        assert(s@ =~= head + slots_text(vs.take(0)));
        while i < self.slots.len()
            invariant
                i <= self.slots@.len(),
                vs == self.slots@.map_values(|x: Slot| slot_view(x)),
                s@ == head + slots_text(vs.take(i as int)),
            decreases self.slots@.len() - i,
        {
            let t = self.slots[i].to_xml();
            s.append(t.as_str());
            proof {
                assert(vs.take(i + 1).drop_last() =~= vs.take(i as int));
                assert(s@ =~= head + slots_text(vs.take(i + 1)));
            }
            i = i + 1;
        }
        s.append("</prepare>");
        proof {
            assert(vs.take(vs.len() as int) =~= vs);
            assert(s@ =~= prepare_text(self.game_type@, self.pause@, vs));
        }
        s
    }
}

/// The authentication of an administrator.
pub fn make_authenticate_xml(password: &str) -> (r: Result<String, String>)
    ensures
        r matches Ok(x) && x@ == single_attr_text("authenticate"@, "password"@, password@),
{
    let auth = Authenticate { password: password.to_string() };
    Ok(auth.to_xml())
}

/// The request to observe room `room_id`.
pub fn make_observe_xml(room_id: &str) -> (r: Result<String, String>)
    ensures
        r matches Ok(x) && x@ == single_attr_text("observe"@, "roomId"@, room_id@),
{
    let o = Observe { room_id: room_id.to_string() };
    Ok(o.to_xml())
}

/// The request to pause (or go on with) room `room_id`.
pub fn make_pause_xml(room_id: &str, pause: bool) -> (r: Result<String, String>)
    ensures
        r matches Ok(x) && x@ == pause_text(room_id@, bool_text(pause)),
{
    let p = Pause { room_id: room_id.to_string(), pause: bool_str(pause).to_string() };
    Ok(p.to_xml())
}

/// The request to take one move forward in paused room `room_id`.
pub fn make_step_xml(room_id: &str) -> (r: Result<String, String>)
    ensures
        r matches Ok(x) && x@ == single_attr_text("step"@, "roomId"@, room_id@),
{
    let s = Step { room_id: room_id.to_string() };
    Ok(s.to_xml())
}

/// The request to cancel room `room_id`.
pub fn make_cancel_xml(room_id: &str) -> (r: Result<String, String>)
    ensures
        r matches Ok(x) && x@ == single_attr_text("cancel"@, "roomId"@, room_id@),
{
    let c = Cancel { room_id: room_id.to_string() };
    Ok(c.to_xml())
}

/// The display name, timeout and reservation texts that a prepared seat is sent with.
pub open spec fn prepare_slot_view(p: PrepareSlot) -> (Seq<char>, Seq<char>, Seq<char>) {
    (p.displayname@, bool_text(p.can_timeout), bool_text(p.reserved))
}

/// The request to prepare a room of `game_type` with one seat per slot.
pub fn make_prepare_xml(game_type: &str, pause: bool, slots: &[PrepareSlot]) -> (r: Result<
    String,
    String,
>)
    ensures
        r matches Ok(x) && x@ == prepare_text(
            game_type@,
            bool_text(pause),
            slots@.map_values(|p: PrepareSlot| prepare_slot_view(p)),
        ),
{
    let mut slots_vec: Vec<Slot> = Vec::new();
    let mut i: usize = 0;
    while i < slots.len()
        invariant
            i <= slots@.len(),
            slots_vec@.len() == i,
            forall|k: int|
                0 <= k < i ==> slot_view(#[trigger] slots_vec@[k]) == prepare_slot_view(slots@[k]),
        decreases slots@.len() - i,
    {
        let ps = &slots[i];
        slots_vec.push(
            Slot {
                display_name: ps.displayname.as_str().to_string(),
                can_timeout: bool_str(ps.can_timeout).to_string(),
                reserved: bool_str(ps.reserved).to_string(),
            },
        );
        i = i + 1;
    }
    let p = Prepare {
        game_type: game_type.to_string(),
        pause: bool_str(pause).to_string(),
        slots: slots_vec,
    };
    proof {
        assert(p.slots@.map_values(|x: Slot| slot_view(x)) =~= slots@.map_values(
            |q: PrepareSlot| prepare_slot_view(q),
        ));
    }
    Ok(p.to_xml())
}


/// A move that `make_move_xml` writes reads back as the same move: a
/// `<lastMove>` of the class that it writes, whose texts are those it writes
/// for the piece (colour, shape, rotation, flip and position) or for the
/// skipping colour, is that move again.
pub proof fn law_move_round_trip(mv: Move, lm: ReceivedLastMove)
    requires
        match mv {
            Move::SetMove { piece } => {
                &&& lm.class matches Some(c) && c@ == "sc.plugin2027.SetMove"@
                &&& lm.piece matches Some(rp) && written_piece(rp, piece)
            },
            Move::Skip { color } => {
                &&& lm.class matches Some(c) && c@ == "sc.plugin2027.SkipMove"@
                &&& lm.color matches Some(t) && t.value@ == color_token(color)
            },
        },
    ensures
        last_move_result(lm) == Ok::<Option<Move>, Seq<char>>(Some(mv)),
{
    crate::neutral::law_tokens_round_trip(
        move_color_of(mv),
        crate::neutral::Team::One,
        crate::neutral::FieldContent::Empty,
        match mv {
            Move::SetMove { piece } => piece.rotation,
            Move::Skip { .. } => crate::neutral::Rotation::Zero,
        },
        crate::neutral::ScoreAggregation::Sum,
    );
    reveal_strlit("sc.plugin2027.SetMove");
    reveal_strlit("sc.plugin2027.SkipMove");
    reveal_strlit("SetMove");
    reveal_strlit("SkipMove");
    reveal_strlit("setmove");
    reveal_strlit("skipmove");
    reveal_strlit("true");
    reveal_strlit("false");
    let class = lm.class->Some_0@;
    match mv {
        Move::SetMove { piece } => {
            crate::piece_shape::law_shape_token_round_trip(piece.kind);
            assert(crate::text::ends_with_spec(class, "SetMove"@)) by {
                assert(class.subrange(class.len() - 7, class.len() as int) =~= "SetMove"@);
            }
            let rp = lm.piece->Some_0;
            if piece.is_flipped {
                crate::neutral::lemma_trim_plain("true"@);
            } else {
                crate::neutral::lemma_trim_plain("false"@);
            }
            assert(piece_result(rp) == Ok::<Piece, Seq<char>>(piece));
        },
        Move::Skip { color } => {
            assert(!crate::text::ends_with_spec(class, "SetMove"@)) by {
                assert(class.subrange(class.len() - 7, class.len() as int)[0] != 'S');
            }
            assert(crate::text::ends_with_spec(class, "SkipMove"@)) by {
                assert(class.subrange(class.len() - 8, class.len() as int) =~= "SkipMove"@);
            }
        },
    }
}

/// Whether the texts of a received piece are those that `make_move_xml`
/// writes for `piece`.
pub open spec fn written_piece(rp: ReceivedPiece, piece: Piece) -> bool {
    &&& rp.color@ == color_token(piece.color)
    &&& rp.kind@ == shape_token(piece.kind)
    &&& rp.rotation@ == rotation_token(piece.rotation)
    &&& rp.is_flipped@ == bool_text(piece.is_flipped)
    &&& rp.position == Some(ReceivedPosition { x: piece.position.x, y: piece.position.y })
}

/// The colour that a move is made for.
spec fn move_color_of(mv: Move) -> Color {
    match mv {
        Move::SetMove { piece } => piece.color,
        Move::Skip { color } => color,
    }
}

} // verus!
