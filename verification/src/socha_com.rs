//! The decisions of a protocol connection: framing the receive buffer,
//! turning received server messages into library messages, keeping the room
//! id, and choosing what to hand out next. The socket itself lives with the
//! caller.
use vstd::prelude::*;

use crate::incoming::{ReceivedComMessage, ReceivedRoom};
use crate::internal::{Joined, Left};
use crate::messages::{room_error, room_matches, AdminMessage, ComMessage, PreparedRoom, RoomMessage};
use crate::neutral::Move;
use crate::outgoing::{join_prepared_text, join_text, make_join_prepared_xml, make_join_xml, make_move_xml, move_text, opt_text};

verus! {

/// The most bytes the receive buffer may hold before the stream is given up
/// as malformed (1 MiB).
pub const MAX_BUF_BYTES: usize = 1048576;

/// One seat of a room that an administrator prepares.
#[derive(Debug, Clone)]
pub struct PrepareSlot {
    pub displayname: String,
    pub can_timeout: bool,
    pub reserved: bool,
}

impl PrepareSlot {
    /// A seat with the given display name, timeout allowance and reservation.
    pub fn new(displayname: String, can_timeout: bool, reserved: bool) -> (r: PrepareSlot)
        ensures
            r.displayname == displayname,
            r.can_timeout == can_timeout,
            r.reserved == reserved,
    {
        PrepareSlot { displayname, can_timeout, reserved }
    }
}

/// The characters of `s`.
pub fn chars_of(s: &str) -> (r: Vec<char>)
    ensures
        r@ == s@,
{
    broadcast use vstd::string::axiom_spec_iter;
    let mut v: Vec<char> = Vec::new();
    for c in it: s.chars()
        invariant
            v@ == it.seq().take(it.index() as int),
    {
        v.push(c);
    }
    v
}

/// Whether `p` occurs in `s` at position `i`.
pub open spec fn occurs_at(s: Seq<char>, p: Seq<char>, i: int) -> bool {
    0 <= i && i + p.len() <= s.len() && s.subrange(i, i + p.len()) == p
}

/// Whether `i` is the first position at which `p` occurs in `s`.
pub open spec fn first_at(s: Seq<char>, p: Seq<char>, i: int) -> bool {
    occurs_at(s, p, i) && forall|j: int| 0 <= j < i ==> !occurs_at(s, p, j)
}

/// Whether `after` is what is left of `before` once everything up to and
/// including the first `p` is taken away, and `found` says whether there was
/// such a `p` (where there was none, nothing is taken away).
pub open spec fn removal(before: Seq<char>, p: Seq<char>, after: Seq<char>, found: bool) -> bool {
    &&& found == (exists|i: int| occurs_at(before, p, i))
    &&& found ==> exists|i: int| first_at(before, p, i) && after == before.skip(i + p.len())
    &&& !found ==> after == before
}

/// Whether `p` occurs in `s` at position `i`.
fn matches_at(s: &Vec<char>, p: &Vec<char>, i: usize) -> (r: bool)
    requires
        i + p@.len() <= s@.len(),
    ensures
        r == occurs_at(s@, p@, i as int),
{
    let m = p.len();
    let n = s.len();
    let mut k: usize = 0;
    while k < m
        invariant
            k <= m,
            m == p@.len(),
            n == s@.len(),
            i + m <= n,
            forall|t: int| 0 <= t < k ==> s@[i + t] == p@[t],
        decreases m - k,
    {
        if s[i + k] != p[k] {
            assert(s@.subrange(i as int, i + m)[k as int] == s@[i + k]);
            return false;
        }
        k = k + 1;
    }
    assert(s@.subrange(i as int, i + m) =~= p@);
    true
}

/// The first position at which `p` occurs in `s`.
fn find_chars(s: &Vec<char>, p: &Vec<char>) -> (r: Option<usize>)
    ensures
        match r {
            Some(i) => first_at(s@, p@, i as int),
            None => forall|j: int| !occurs_at(s@, p@, j),
        },
{
    let n = s.len();
    let m = p.len();
    if m > n {
        return None;
    }
    if m == 0 {
        assert(s@.subrange(0, 0) =~= p@);
        return Some(0);
    }
    let mut i: usize = 0;
    while i <= n - m
        invariant
            i <= n - m + 1,
            n == s@.len(),
            m == p@.len(),
            1 <= m <= n,
            forall|j: int| 0 <= j < i ==> !occurs_at(s@, p@, j),
        decreases n - m + 1 - i,
    {
        if matches_at(s, p, i) {
            return Some(i);
        }
        i = i + 1;
    }
    None
}

/// Takes away everything up to and including the first `pattern` in `buf`,
/// and says whether there was one.
pub fn remove_through(buf: &mut String, pattern: &str) -> (r: bool)
    ensures
        removal(old(buf)@, pattern@, final(buf)@, r),
{
    let s = chars_of(buf.as_str());
    let p = chars_of(pattern);
    match find_chars(&s, &p) {
        Some(i) => {
            let n = buf.as_str().unicode_len();
            let rest = buf.as_str().substring_char(i + p.len(), n).to_string();
            *buf = rest;
            true
        },
        None => false,
    }
}

/// The receive buffer wrapped in one `<comMessage>` element, the form in
/// which its messages are read.
pub open spec fn framed_text(buf: Seq<char>) -> Seq<char> {
    "<comMessage>"@ + buf + "</comMessage>"@
}

/// The receive buffer wrapped in one `<comMessage>` element.
pub fn framed_buffer(buf: &str) -> (r: String)
    ensures
        r@ == framed_text(buf@),
{
    let mut s = String::from_str("<comMessage>");
    s.append(buf);
    s.append("</comMessage>");
    proof {
        assert(s@ =~= framed_text(buf@));
    }
    s
}

/// Takes the `<protocol>` opening tag out of the buffer until it has been
/// seen once; returns whether it has been seen.
pub fn consume_protocol_tag(found: bool, buf: &mut String) -> (r: bool)
    ensures
        found ==> r && final(buf)@ == old(buf)@,
        !found ==> removal(old(buf)@, "<protocol>"@, final(buf)@, r),
{
    if found {
        true
    } else {
        remove_through(buf, "<protocol>")
    }
}

/// The message that enters a game: a prepared room where a reservation code
/// is given, else any free Blokus room.
pub fn join_message(reservation_code: Option<&str>) -> (r: String)
    ensures
        match reservation_code {
            Some(code) => r@ == join_prepared_text(code@),
            None => r@ == join_text("swc_2027_blokus"@, None),
        },
{
    let built = match reservation_code {
        Some(code) => make_join_prepared_xml(code),
        None => make_join_xml("swc_2027_blokus", None),
    };
    match built {
        Ok(x) => x,
        Err(e) => e,
    }
}

/// The message that sends `mv`, or none while no room has been joined.
pub fn move_message(room_id: &Option<String>, mv: &Move) -> (r: Option<String>)
    ensures
        match room_id {
            Some(id) => r matches Some(x) && x@ == move_text(id@, *mv),
            None => r is None,
        },
{
    match room_id {
        Some(id) => match make_move_xml(id.as_str(), mv) {
            Ok(x) => Some(x),
            Err(e) => Some(e),
        },
        None => None,
    }
}

// ___ received messages ___

/// The room id of a received `<joined>`.
pub open spec fn joined_id(recv: ReceivedComMessage) -> Option<Seq<char>> {
    match recv.joined {
        Some(j) => opt_text(j.room_id),
        None => None,
    }
}

/// The room id of a received `<left>`.
pub open spec fn left_id(recv: ReceivedComMessage) -> Option<Seq<char>> {
    match recv.left {
        Some(l) => opt_text(l.room_id),
        None => None,
    }
}

/// The room id after a received message: that of a `<left>`, else that of a
/// `<joined>`, else the one before.
pub open spec fn next_room_id(before: Option<Seq<char>>, recv: ReceivedComMessage) -> Option<
    Seq<char>,
> {
    match left_id(recv) {
        Some(id) => Some(id),
        None => match joined_id(recv) {
            Some(id) => Some(id),
            None => before,
        },
    }
}

/// Whether a received `<prepared>` holds other than two reservations.
pub open spec fn reservation_error(recv: ReceivedComMessage) -> bool {
    recv.admin_prepared matches Some(ap) && ap.admin_reservation@.len() != 2
}

/// The received rooms that are room messages, in order; the others are dropped.
pub open spec fn accepted_rooms(rs: Seq<ReceivedRoom>) -> Seq<ReceivedRoom>
    decreases rs.len(),
{
    if rs.len() == 0 {
        Seq::empty()
    } else if room_error(rs.last()) is None {
        accepted_rooms(rs.drop_last()).push(rs.last())
    } else {
        accepted_rooms(rs.drop_last())
    }
}

/// How many messages come before the room messages: one for a `<joined>`
/// with an id, one for a `<left>` with an id, one for a `<prepared>`.
pub open spec fn head_count(recv: ReceivedComMessage) -> int {
    (if joined_id(recv) is Some { 1int } else { 0int }) + (if left_id(recv) is Some {
        1int
    } else {
        0int
    }) + (if recv.admin_prepared is Some { 1int } else { 0int })
}

/// Whether `ms` are the messages of a received `<comMessage>` whose
/// reservations are in order: joined, left, prepared, then one message per
/// accepted room.
pub open spec fn messages_match(recv: ReceivedComMessage, ms: Seq<ComMessage>) -> bool {
    let nj: int = if joined_id(recv) is Some { 1 } else { 0 };
    let nl: int = if left_id(recv) is Some { 1 } else { 0 };
    let rooms = accepted_rooms(recv.room@);
    &&& ms.len() == head_count(recv) + rooms.len()
    &&& joined_id(recv) matches Some(id) ==> (ms[0] matches ComMessage::Joined(j) && j.room_id@
        == id)
    &&& left_id(recv) matches Some(id) ==> (ms[nj] matches ComMessage::Left(l) && l.room_id@ == id)
    &&& recv.admin_prepared matches Some(ap) ==> (ms[nj + nl] matches ComMessage::Admin(
        AdminMessage::Prepared(p),
    ) && p.reservations.0@ == ap.admin_reservation@[0].reservation_id@
        && p.reservations.1@ == ap.admin_reservation@[1].reservation_id@ && p.room_id@
        == ap.room_id@)
    &&& forall|k: int|
        0 <= k < rooms.len() ==> (#[trigger] ms[head_count(recv) + k] matches ComMessage::Room(b)
            && room_matches(rooms[k], *b))
}

/// The messages of a received `<comMessage>`; updates the room id from a
/// `<joined>` or `<left>`. Rooms that are no room message are dropped; a
/// `<prepared>` without exactly two reservations is an error.
pub fn com_messages(recv: ReceivedComMessage, room_id: &mut Option<String>) -> (r: Result<
    Vec<ComMessage>,
    String,
>)
    ensures
        opt_text(*final(room_id)) == next_room_id(opt_text(*old(room_id)), recv),
        reservation_error(recv) ==> (r matches Err(e) && e@
            == "a received reservation should hold two reserved spots"@),
        !reservation_error(recv) ==> (r matches Ok(ms) && messages_match(recv, ms@)),
{
    let mut messages: Vec<ComMessage> = Vec::new();
    if let Some(j) = &recv.joined {
        if let Some(id) = &j.room_id {
            *room_id = Some(id.clone());
            messages.push(ComMessage::Joined(Joined { room_id: id.clone() }));
        }
    }
    if let Some(l) = &recv.left {
        if let Some(id) = &l.room_id {
            *room_id = Some(id.clone());
            messages.push(ComMessage::Left(Left { room_id: id.clone() }));
        }
    }
    if let Some(ap) = &recv.admin_prepared {
        if ap.admin_reservation.len() == 2 {
            let reservations = (
                ap.admin_reservation[0].reservation_id.clone(),
                ap.admin_reservation[1].reservation_id.clone(),
            );
            messages.push(
                ComMessage::Admin(
                    AdminMessage::Prepared(PreparedRoom { reservations, room_id: ap.room_id.clone() }),
                ),
            );
        } else {
            return Err("a received reservation should hold two reserved spots".to_string());
        }
    }
    let ghost head = messages@;
    proof {
        let nj: int = if joined_id(recv) is Some { 1 } else { 0 };
        let nl: int = if left_id(recv) is Some { 1 } else { 0 };
        assert(head.len() == head_count(recv));
        assert(joined_id(recv) matches Some(id) ==> (head[0] matches ComMessage::Joined(j)
            && j.room_id@ == id));
        assert(left_id(recv) matches Some(id) ==> (head[nj] matches ComMessage::Left(l)
            && l.room_id@ == id));
        assert(recv.admin_prepared matches Some(ap) ==> (head[nj + nl] matches ComMessage::Admin(
            AdminMessage::Prepared(p),
        ) && p.reservations.0@ == ap.admin_reservation@[0].reservation_id@
            && p.reservations.1@ == ap.admin_reservation@[1].reservation_id@ && p.room_id@
            == ap.room_id@));
    }
    let ghost all = recv.room@;
    let mut rooms = recv.room;
    let ghost mut k: int = 0;
    assert(all.take(0) =~= Seq::empty());
    assert(all.skip(0) =~= all);
    while rooms.len() > 0
        invariant
            0 <= k <= all.len(),
            rooms@ == all.skip(k),
            messages@.len() == head.len() + accepted_rooms(all.take(k)).len(),
            forall|i: int| 0 <= i < head.len() ==> messages@[i] == head[i],
            forall|i: int|
                0 <= i < accepted_rooms(all.take(k)).len() ==> (#[trigger] messages@[head.len() + i]
                    matches ComMessage::Room(b) && room_matches(accepted_rooms(all.take(k))[i], *b)),
        decreases rooms@.len(),
    {
        let room = rooms.remove(0);
        proof {
            assert(all.take(k + 1).drop_last() =~= all.take(k));
            assert(all.take(k + 1).last() == all[k]);
            assert(room == all[k]);
            assert(all.skip(k + 1) =~= all.skip(k).drop_first());
        }
        let ghost before = messages@;
        match RoomMessage::try_from(room) {
            Ok(m) => {
                messages.push(ComMessage::Room(Box::new(m)));
            },
            Err(_) => {},
        }
        proof {
            let acc = accepted_rooms(all.take(k + 1));
            assert forall|i: int| 0 <= i < acc.len() implies (#[trigger] messages@[head.len() + i]
                matches ComMessage::Room(b) && room_matches(acc[i], *b)) by {
                if i < accepted_rooms(all.take(k)).len() {
                    assert(messages@[head.len() + i] == before[head.len() + i]);
                }
            }
            k = k + 1;
        }
    }
    proof {
        assert(k == all.len());
        assert(all.take(k) =~= all);
    }
    Ok(messages)
}

/// Whether `m` is a move request.
pub open spec fn is_move_request(m: ComMessage) -> bool {
    m matches ComMessage::Room(b) && *b is MoveRequest
}

/// Whether a stored message asks for a move.
pub fn holds_move_request(msgs: &Vec<ComMessage>) -> (r: bool)
    ensures
        r == exists|k: int| 0 <= k < msgs@.len() && is_move_request(#[trigger] msgs@[k]),
{
    let mut i: usize = 0;
    while i < msgs.len()
        invariant
            i <= msgs@.len(),
            forall|k: int| 0 <= k < i ==> !is_move_request(#[trigger] msgs@[k]),
        decreases msgs@.len() - i,
    {
        match &msgs[i] {
            ComMessage::Room(b) => {
                if let RoomMessage::MoveRequest = **b {
                    return true;
                }
            },
            _ => {},
        }
        i = i + 1;
    }
    false
}

/// Whether a message ends the wait for the opponent's move: a new move
/// request, or leaving the room.
pub fn cancels_waiting(msg: &ComMessage) -> (r: bool)
    ensures
        r == (*msg is Left || is_move_request(*msg)),
{
    match msg {
        ComMessage::Left(_) => true,
        ComMessage::Room(b) => match **b {
            RoomMessage::MoveRequest => true,
            _ => false,
        },
        _ => false,
    }
}

/// What a poll of the connection hands out.
#[derive(Debug, Clone, PartialEq, Eq)]
pub enum ReceiveStep {
    /// the oldest stored message
    Message(ComMessage),
    /// the server has ended the protocol
    Closed,
    /// nothing yet
    Pending,
}

/// The next thing to hand out: the oldest stored message; else the end of
/// the protocol where the buffer holds `<comMessage/>` (taken out of it);
/// else nothing yet.
pub fn next_received(msgs: &mut Vec<ComMessage>, buf: &mut String) -> (r: ReceiveStep)
    ensures
        old(msgs)@.len() > 0 ==> r == ReceiveStep::Message(old(msgs)@[0]) && final(msgs)@ == old(
            msgs,
        )@.drop_first() && final(buf)@ == old(buf)@,
        old(msgs)@.len() == 0 ==> final(msgs)@ == old(msgs)@ && (r is Closed || r is Pending)
            && removal(old(buf)@, "<comMessage/>"@, final(buf)@, r is Closed),
{
    if msgs.len() > 0 {
        let m = msgs.remove(0);
        proof {
            assert(final(msgs)@ =~= old(msgs)@.drop_first());
        }
        return ReceiveStep::Message(m);
    }
    if remove_through(buf, "<comMessage/>") {
        ReceiveStep::Closed
    } else {
        ReceiveStep::Pending
    }
}

} // verus!
