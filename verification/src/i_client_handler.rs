//! The commands that a running client hands to its connection, and what the
//! connection sends for each.
use vstd::prelude::*;

use crate::internal::GameState;
use crate::messages::{ComMessage, GameResult, RoomMessage};
use crate::neutral::{Move, Team};
use crate::outgoing::move_text;
use crate::socha_com::move_message;

verus! {

/// Something to send to the server.
#[derive(Debug, Clone)]
pub enum SendCommand {
    Move(Move),
    SendRaw { xml: String },
    Admin(SendAdminCommand),
}

/// An administrator's request.
#[derive(Debug, Clone)]
pub enum SendAdminCommand {
    Authenticate { pass: String },
    Observe { room_id: String },
    Pause { room_id: String, pause: bool },
    /// step a pause room forward by one move
    Step { room_id: String },
    Cancel { room_id: String },
    /// prepares a new room
    Prepare { pause: bool },
}

/// The text that the running client sends for a command: a move goes to the
/// joined room (nothing while no room is joined), raw text goes as it is,
/// and administrator requests are not sent by a playing client.
pub fn command_text(cmd: &SendCommand, room_id: &Option<String>) -> (r: Option<String>)
    ensures
        match cmd {
            SendCommand::Move(mv) => match room_id {
                Some(id) => r matches Some(x) && x@ == move_text(id@, *mv),
                None => r is None,
            },
            SendCommand::SendRaw { xml } => r matches Some(x) && x@ == xml@,
            SendCommand::Admin(_) => r is None,
        },
{
    match cmd {
        SendCommand::Move(mv) => move_message(room_id, mv),
        SendCommand::SendRaw { xml } => Some(xml.clone()),
        SendCommand::Admin(_) => None,
    }
}


/// What a running client does with a message from the server.
#[derive(Debug, Clone)]
pub enum ClientAction {
    /// report the joined room
    GameJoined { room_id: String },
    /// report that the room was left
    GameLeft,
    /// hand the new game state to the bot
    StateUpdate(Box<GameState>),
    /// tell the bot its team
    Welcome(Team),
    /// ask the bot for a move, send it, and let the bot wait
    MoveRequested,
    /// hand the game result to the bot
    Result(Box<GameResult>),
    /// nothing: administrator messages are not for a playing client
    Ignore,
}

/// The action of a running client for a message from the server.
pub fn client_action(msg: ComMessage) -> (r: ClientAction)
    ensures
        match msg {
            ComMessage::Joined(j) => r matches ClientAction::GameJoined { room_id } && room_id@ == j.room_id@,
            ComMessage::Left(_) => r is GameLeft,
            ComMessage::Room(b) => match *b {
                RoomMessage::Memento(s) => r == ClientAction::StateUpdate(s),
                RoomMessage::WelcomeMessage { color } => r == ClientAction::Welcome(color),
                RoomMessage::MoveRequest => r is MoveRequested,
                RoomMessage::Result(g) => r == ClientAction::Result(g),
            },
            ComMessage::Admin(_) => r is Ignore,
        },
{
    match msg {
        ComMessage::Joined(j) => ClientAction::GameJoined { room_id: j.room_id },
        ComMessage::Left(_) => ClientAction::GameLeft,
        ComMessage::Room(b) => match *b {
            RoomMessage::Memento(s) => ClientAction::StateUpdate(s),
            RoomMessage::WelcomeMessage { color } => ClientAction::Welcome(color),
            RoomMessage::MoveRequest => ClientAction::MoveRequested,
            RoomMessage::Result(g) => ClientAction::Result(g),
        },
        ComMessage::Admin(_) => ClientAction::Ignore,
    }
}

} // verus!
