//! The connection decisions and the messages sent to the server.

use socha::incoming::{
    ReceivedAdminPrepared, ReceivedAdminReservation, ReceivedComMessage, ReceivedData,
    ReceivedJoined, ReceivedLeft, ReceivedPart, ReceivedPlayerAttr, ReceivedRoom, ReceivedScore,
    ReceivedScoreEntry, ReceivedScores, ReceivedState,
};
use socha::i_client_handler::{client_action, command_text, ClientAction, SendAdminCommand, SendCommand};
use socha::internal::{AdminMessage, ComMessage, GameResult, GameState, Joined, Left, PreparedRoom, RoomMessage};
use socha::neutral::{Color, Coordinates, Move, Piece, PieceShape, Rotation, Team};
use socha::outgoing::{
    make_authenticate_xml, make_cancel_xml, make_close_xml, make_join_prepared_xml, make_join_xml,
    make_observe_xml, make_pause_xml, make_prepare_xml, make_step_xml,
};
use socha::socha_com::{
    cancels_waiting, com_messages, consume_protocol_tag, framed_buffer, holds_move_request,
    join_message, move_message, next_received, remove_through, PrepareSlot, ReceiveStep,
};

fn data(class: &str) -> ReceivedData {
    ReceivedData {
        class: Some(class.to_string()),
        color_attr: None,
        state: None,
        definition: None,
        scores: None,
        winner: None,
    }
}

fn room(class: &str) -> ReceivedRoom {
    ReceivedRoom { room_id: Some("r".to_string()), data: Some(data(class)) }
}

#[test]
fn join_and_admin_messages() {
    assert_eq!(
        make_join_xml("swc_2027_blokus", None).unwrap(),
        "<join gameType=\"swc_2027_blokus\"/>"
    );
    assert_eq!(
        make_join_xml("g", Some("p1")).unwrap(),
        "<join gameType=\"g\" participantId=\"p1\"/>"
    );
    assert_eq!(
        make_join_prepared_xml("a&b<\"c\">'").unwrap(),
        "<joinPrepared reservationCode=\"a&amp;b&lt;&quot;c&quot;&gt;&apos;\"/>"
    );
    assert_eq!(make_close_xml(), "<close></close>");
    assert_eq!(make_authenticate_xml("pw").unwrap(), "<authenticate password=\"pw\"/>");
    assert_eq!(make_observe_xml("r1").unwrap(), "<observe roomId=\"r1\"/>");
    assert_eq!(make_pause_xml("r1", true).unwrap(), "<pause roomId=\"r1\" pause=\"true\"/>");
    assert_eq!(make_pause_xml("r1", false).unwrap(), "<pause roomId=\"r1\" pause=\"false\"/>");
    assert_eq!(make_step_xml("r1").unwrap(), "<step roomId=\"r1\"/>");
    assert_eq!(make_cancel_xml("r1").unwrap(), "<cancel roomId=\"r1\"/>");
    assert_eq!(
        make_prepare_xml("g", false, &[]).unwrap(),
        "<prepare gameType=\"g\" pause=\"false\"/>"
    );
    let slots = [
        PrepareSlot::new("One & Co".to_string(), true, false),
        PrepareSlot::new("Two".to_string(), false, true),
    ];
    assert_eq!(
        make_prepare_xml("g", true, &slots).unwrap(),
        "<prepare gameType=\"g\" pause=\"true\"><slot displayName=\"One &amp; Co\" canTimeout=\"true\" reserved=\"false\"/><slot displayName=\"Two\" canTimeout=\"false\" reserved=\"true\"/></prepare>"
    );
}

#[test]
fn join_message_chooses_by_reservation() {
    assert_eq!(join_message(None), "<join gameType=\"swc_2027_blokus\"/>");
    assert_eq!(join_message(Some("code")), "<joinPrepared reservationCode=\"code\"/>");
}

#[test]
fn move_message_needs_a_room() {
    let mv = Move::Skip { color: Color::Red };
    assert_eq!(move_message(&None, &mv), None);
    assert_eq!(
        move_message(&Some("r9".to_string()), &mv).unwrap(),
        "<room roomId=\"r9\"><data class=\"sc.plugin2027.SkipMove\"><color>RED</color></data></room>"
    );
    let piece = Piece::new(Color::Yellow, PieceShape::TetroT, Rotation::Left, false, Coordinates::new(-1, 12));
    assert_eq!(
        move_message(&Some("r".to_string()), &Move::SetMove { piece }).unwrap(),
        "<room roomId=\"r\"><data class=\"sc.plugin2027.SetMove\"><piece color=\"YELLOW\" kind=\"TETRO_T\" rotation=\"LEFT\" isFlipped=\"false\"><position x=\"-1\" y=\"12\"/></piece></data></room>"
    );
}

#[test]
fn buffer_is_cut_through_the_first_pattern() {
    let mut buf = "ab<protocol>cd<protocol>ef".to_string();
    assert!(remove_through(&mut buf, "<protocol>"));
    assert_eq!(buf, "cd<protocol>ef");
    assert!(!remove_through(&mut buf, "<missing>"));
    assert_eq!(buf, "cd<protocol>ef");
    assert!(remove_through(&mut buf, ""));
    assert_eq!(buf, "cd<protocol>ef");
    let mut umlaut = "äö<x>ü".to_string();
    assert!(remove_through(&mut umlaut, "<x>"));
    assert_eq!(umlaut, "ü");
}

#[test]
fn protocol_tag_is_taken_once() {
    let mut buf = "<protocol><room/>".to_string();
    assert!(consume_protocol_tag(false, &mut buf));
    assert_eq!(buf, "<room/>");
    let mut later = "<protocol>x".to_string();
    assert!(consume_protocol_tag(true, &mut later));
    assert_eq!(later, "<protocol>x");
    let mut none = "abc".to_string();
    assert!(!consume_protocol_tag(false, &mut none));
    assert_eq!(none, "abc");
}

#[test]
fn buffer_is_framed_as_one_message() {
    assert_eq!(framed_buffer("<joined roomId=\"a\"/>"), "<comMessage><joined roomId=\"a\"/></comMessage>");
    assert_eq!(framed_buffer(""), "<comMessage></comMessage>");
}

#[test]
fn received_messages_in_order_and_room_id_kept() {
    let recv = ReceivedComMessage {
        left: Some(ReceivedLeft { room_id: Some("left-room".to_string()) }),
        joined: Some(ReceivedJoined { room_id: Some("joined-room".to_string()) }),
        room: vec![room("moveRequest"), room("bogus"), room("memento")],
        admin_prepared: Some(ReceivedAdminPrepared {
            admin_reservation: vec![
                ReceivedAdminReservation { reservation_id: "r1".to_string() },
                ReceivedAdminReservation { reservation_id: "r2".to_string() },
            ],
            room_id: "prep".to_string(),
        }),
    };
    let mut room_id = None;
    let msgs = com_messages(recv, &mut room_id).unwrap();
    assert_eq!(room_id, Some("left-room".to_string()));
    assert_eq!(msgs.len(), 4);
    assert_eq!(msgs[0], ComMessage::Joined(Joined { room_id: "joined-room".to_string() }));
    assert_eq!(msgs[1], ComMessage::Left(Left { room_id: "left-room".to_string() }));
    match &msgs[2] {
        ComMessage::Admin(AdminMessage::Prepared(p)) => {
            assert_eq!(p.reservations, ("r1".to_string(), "r2".to_string()));
            assert_eq!(p.room_id, "prep");
        },
        other => panic!("expected prepared room, got {other:?}"),
    }
    assert_eq!(msgs[3], ComMessage::Room(Box::new(RoomMessage::MoveRequest)));
}

#[test]
fn joined_message_sets_the_room() {
    let recv = ReceivedComMessage {
        left: None,
        joined: Some(ReceivedJoined { room_id: Some("j".to_string()) }),
        room: vec![],
        admin_prepared: None,
    };
    let mut room_id = Some("old".to_string());
    let msgs = com_messages(recv, &mut room_id).unwrap();
    assert_eq!(room_id, Some("j".to_string()));
    assert_eq!(msgs, vec![ComMessage::Joined(Joined { room_id: "j".to_string() })]);
}

#[test]
fn prepared_room_needs_two_reservations() {
    let recv = ReceivedComMessage {
        left: None,
        joined: Some(ReceivedJoined { room_id: Some("j".to_string()) }),
        room: vec![],
        admin_prepared: Some(ReceivedAdminPrepared {
            admin_reservation: vec![ReceivedAdminReservation { reservation_id: "only".to_string() }],
            room_id: "p".to_string(),
        }),
    };
    let mut room_id = None;
    let err = com_messages(recv, &mut room_id).unwrap_err();
    assert_eq!(err, "a received reservation should hold two reserved spots");
    assert_eq!(room_id, Some("j".to_string()));
}

#[test]
fn stored_messages_come_first_then_the_end_of_the_protocol() {
    let mut msgs = vec![
        ComMessage::Left(Left { room_id: "a".to_string() }),
        ComMessage::Room(Box::new(RoomMessage::MoveRequest)),
    ];
    let mut buf = "<comMessage/>".to_string();
    assert!(holds_move_request(&msgs));
    assert_eq!(next_received(&mut msgs, &mut buf), ReceiveStep::Message(ComMessage::Left(Left { room_id: "a".to_string() })));
    assert_eq!(buf, "<comMessage/>");
    assert!(holds_move_request(&msgs));
    assert_eq!(next_received(&mut msgs, &mut buf), ReceiveStep::Message(ComMessage::Room(Box::new(RoomMessage::MoveRequest))));
    assert!(!holds_move_request(&msgs));
    assert_eq!(next_received(&mut msgs, &mut buf), ReceiveStep::Closed);
    assert_eq!(buf, "");
    assert_eq!(next_received(&mut msgs, &mut buf), ReceiveStep::Pending);
}

#[test]
fn waiting_ends_on_move_request_or_leaving() {
    assert!(cancels_waiting(&ComMessage::Room(Box::new(RoomMessage::MoveRequest))));
    assert!(cancels_waiting(&ComMessage::Left(Left { room_id: "x".to_string() })));
    assert!(!cancels_waiting(&ComMessage::Joined(Joined { room_id: "x".to_string() })));
    assert!(!cancels_waiting(&ComMessage::Room(Box::new(RoomMessage::WelcomeMessage { color: Team::Two }))));
}

#[test]
fn room_message_errors() {
    let missing_data = ReceivedRoom { room_id: None, data: None };
    assert_eq!(RoomMessage::try_from(missing_data).unwrap_err(), "missing room message <data>");
    let mut no_class = data("x");
    no_class.class = None;
    let r = ReceivedRoom { room_id: None, data: Some(no_class) };
    assert_eq!(RoomMessage::try_from(r).unwrap_err(), "missing room message class");
    assert_eq!(RoomMessage::try_from(room("memento")).unwrap_err(), "memento should contain <state>");
    assert_eq!(
        RoomMessage::try_from(room("welcomeMessage")).unwrap_err(),
        "welcomeMessage should have a color attribute"
    );
    let mut bad_team = data("welcomeMessage");
    bad_team.color_attr = Some("BLUE".to_string());
    let r = ReceivedRoom { room_id: None, data: Some(bad_team) };
    assert_eq!(RoomMessage::try_from(r).unwrap_err(), "unknown team token 'BLUE'");
    assert_eq!(RoomMessage::try_from(room("Memento")).unwrap_err(), "unknown room message class 'Memento'");
    let mut memento = data("memento");
    memento.state = Some(ReceivedState::default());
    let r = ReceivedRoom { room_id: None, data: Some(memento) };
    match RoomMessage::try_from(r).unwrap() {
        RoomMessage::Memento(s) => assert_eq!(s.turn, 0),
        other => panic!("expected memento, got {other:?}"),
    }
}

#[test]
fn score_values_must_be_numbers() {
    let result_with = |parts: &[&str]| {
        let mut d = data("result");
        d.scores = Some(ReceivedScores {
            entries: vec![ReceivedScoreEntry {
                player: ReceivedPlayerAttr { team: "ONE".to_string() },
                score: Some(ReceivedScore {
                    parts: parts.iter().map(|p| ReceivedPart { value: p.to_string() }).collect(),
                }),
            }],
        });
        GameResult::try_from(d)
    };
    let ok = result_with(&[" 2.5 ", "17"]).unwrap();
    assert_eq!(ok.scores[0].1.parts, vec!["2.5".to_string(), "17".to_string()]);
    assert_eq!(ok.scores[0].0, Team::One);
    assert_eq!(result_with(&["1", "x"]).unwrap_err(), "invalid float literal");
    assert_eq!(result_with(&["  "]).unwrap_err(), "cannot parse float from empty string");
    let mut d = data("result");
    d.scores = Some(ReceivedScores {
        entries: vec![ReceivedScoreEntry { player: ReceivedPlayerAttr { team: "NONE".to_string() }, score: None }],
    });
    assert_eq!(GameResult::try_from(d).unwrap_err(), "unknown team token 'NONE'");
}

#[test]
fn client_actions_follow_the_message() {
    match client_action(ComMessage::Joined(Joined { room_id: "j1".to_string() })) {
        ClientAction::GameJoined { room_id } => assert_eq!(room_id, "j1"),
        other => panic!("{other:?}"),
    }
    assert!(matches!(client_action(ComMessage::Left(Left { room_id: "x".to_string() })), ClientAction::GameLeft));
    match client_action(ComMessage::Room(Box::new(RoomMessage::Memento(Box::new(GameState::new(PieceShape::PentoY)))))) {
        ClientAction::StateUpdate(s) => assert_eq!(s.start_piece, PieceShape::PentoY),
        other => panic!("{other:?}"),
    }
    assert!(matches!(
        client_action(ComMessage::Room(Box::new(RoomMessage::WelcomeMessage { color: Team::Two }))),
        ClientAction::Welcome(Team::Two)
    ));
    assert!(matches!(client_action(ComMessage::Room(Box::new(RoomMessage::MoveRequest))), ClientAction::MoveRequested));
    let prepared = PreparedRoom { reservations: ("a".to_string(), "b".to_string()), room_id: "p".to_string() };
    assert!(matches!(client_action(ComMessage::Admin(AdminMessage::Prepared(prepared))), ClientAction::Ignore));
}

#[test]
fn commands_become_texts() {
    let room = Some("r".to_string());
    assert_eq!(
        command_text(&SendCommand::Move(Move::Skip { color: Color::Blue }), &room).unwrap(),
        "<room roomId=\"r\"><data class=\"sc.plugin2027.SkipMove\"><color>BLUE</color></data></room>"
    );
    assert_eq!(command_text(&SendCommand::Move(Move::Skip { color: Color::Blue }), &None), None);
    assert_eq!(command_text(&SendCommand::SendRaw { xml: "<x/>".to_string() }, &None).unwrap(), "<x/>");
    assert_eq!(command_text(&SendCommand::Admin(SendAdminCommand::Pause { room_id: "r".to_string(), pause: true }), &room), None);
}
