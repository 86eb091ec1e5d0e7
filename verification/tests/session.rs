use rengo_client::codec::encode_server_message;
use rengo_client::logic::{Board, InvalidMove, Move, Position, Stone};
use rengo_client::machine::{LoginRejection, Notice};
use rengo_client::mapper::BoardGeometry;
use rengo_client::protocol::{ClientMessage, LoginError, RoomCreateError, ServerMessage};
use rengo_client::room::{Player, Room};
use rengo_client::session::{
    Intent, Phase, Reaction, Session, Table, TransportCommand, TransportEvent,
};

fn text(s: &str) -> String {
    s.to_string()
}

fn quiet() -> Reaction {
    Reaction { transport: None, send: None, notice: None, redraw: false }
}

fn redrawing() -> Reaction {
    Reaction { redraw: true, ..quiet() }
}

fn sending(message: ClientMessage) -> Reaction {
    Reaction { send: Some(message), ..quiet() }
}

fn noticing(notice: Notice) -> Reaction {
    Reaction { notice: Some(notice), ..quiet() }
}

fn dropping(notice: Option<Notice>) -> Reaction {
    Reaction { transport: Some(TransportCommand::Close), send: None, notice, redraw: true }
}

fn club(side: usize) -> Room {
    Room {
        name: text("club1"),
        capacity: 4,
        board: Board { stones: vec![vec![None; side]; side] },
        players: vec![
            Player { username: text("alice"), stone: Stone::Black },
            Player { username: text("bob"), stone: Stone::White },
            Player { username: text("carol"), stone: Stone::Black },
        ],
        current_player: text("alice"),
        self_player: text("bob"),
    }
}

fn submit_login() -> Intent {
    Intent::SubmitLogin { server: text("wss://example.test/rengo"), username: text("bob"), room: text("club1") }
}

fn connecting() -> Session {
    let mut session = Session::new();
    session.on_intent(submit_login());
    session
}

fn logging_in() -> Session {
    let mut session = connecting();
    session.on_transport(TransportEvent::Opened);
    session
}

fn negotiating() -> Session {
    let mut session = logging_in();
    session.on_message(ServerMessage::LoginResponse(Err(LoginError::RoomDoesNotExist(text("club1")))));
    session
}

fn in_room(side: usize) -> Session {
    let mut session = logging_in();
    session.on_message(ServerMessage::LoginResponse(Ok(club(side))));
    session
}

fn table(session: &Session) -> &Table {
    match session.phase() {
        Phase::InRoom(table) => table,
        other => panic!("not in a room: {:?}", other),
    }
}

fn fresh(room: Room) -> Table {
    Table {
        room,
        awaiting_ruling: false,
        flagged: None,
        leaving: false,
        transcript: vec![],
        geometry: None,
        pointer: None,
    }
}

#[test]
fn a_session_starts_disconnected() {
    let session = Session::new();
    assert_eq!(session.phase(), &Phase::Disconnected);
    assert_eq!(session.username(), "");
    assert_eq!(session.room_name(), "");
    assert_eq!(session.hover_cell(), None);
}

#[test]
fn login_from_disconnected_opens_the_transport() {
    let mut session = Session::new();
    let reaction = session.on_intent(submit_login());
    assert_eq!(
        reaction,
        Reaction {
            transport: Some(TransportCommand::Open(text("wss://example.test/rengo"))),
            send: None,
            notice: None,
            redraw: true,
        }
    );
    assert_eq!(session.phase(), &Phase::Connecting);
    assert_eq!(session.username(), "bob");
    assert_eq!(session.room_name(), "club1");
}

#[test]
fn open_sends_the_login() {
    let mut session = connecting();
    let reaction = session.on_transport(TransportEvent::Opened);
    assert_eq!(
        reaction,
        Reaction { redraw: true, ..sending(ClientMessage::Login(text("bob"), text("club1"))) }
    );
    assert_eq!(session.phase(), &Phase::LoggingIn);
}

#[test]
fn login_while_connecting_only_takes_the_credentials() {
    let mut session = connecting();
    let reaction = session.on_intent(Intent::SubmitLogin {
        server: text("wss://other.test"),
        username: text("dave"),
        room: text("den"),
    });
    assert_eq!(reaction, quiet());
    assert_eq!(session.phase(), &Phase::Connecting);
    let reaction = session.on_transport(TransportEvent::Opened);
    assert_eq!(reaction.send, Some(ClientMessage::Login(text("dave"), text("den"))));
}

#[test]
fn login_while_connected_resends_the_login() {
    let mut session = logging_in();
    let reaction = session.on_intent(Intent::SubmitLogin {
        server: text("wss://ignored.test"),
        username: text("dave"),
        room: text("den"),
    });
    assert_eq!(reaction, sending(ClientMessage::Login(text("dave"), text("den"))));
    assert_eq!(session.phase(), &Phase::LoggingIn);

    let mut session = negotiating();
    let reaction = session.on_intent(submit_login());
    assert_eq!(
        reaction,
        Reaction { redraw: true, ..sending(ClientMessage::Login(text("bob"), text("club1"))) }
    );
    assert_eq!(session.phase(), &Phase::LoggingIn);

    let mut session = in_room(9);
    let reaction = session.on_intent(submit_login());
    assert_eq!(reaction, sending(ClientMessage::Login(text("bob"), text("club1"))));
    assert_eq!(session.phase(), &Phase::InRoom(fresh(club(9))));
}

#[test]
fn login_answer_with_a_room_enters_it() {
    let mut session = logging_in();
    let reaction = session.on_message(ServerMessage::LoginResponse(Ok(club(9))));
    assert_eq!(reaction, redrawing());
    assert_eq!(session.phase(), &Phase::InRoom(fresh(club(9))));
}

#[test]
fn login_answer_with_a_malformed_room_gives_the_connection_up() {
    let mut no_turn = club(9);
    no_turn.current_player = text("nobody");
    let mut twice = club(9);
    twice.players.push(Player { username: text("alice"), stone: Stone::White });
    let mut ragged = club(9);
    ragged.board.stones[0].pop();
    for room in [no_turn, twice, ragged] {
        let mut session = logging_in();
        let reaction = session.on_message(ServerMessage::LoginResponse(Ok(room)));
        assert_eq!(reaction, dropping(Some(Notice::ProtocolViolation)));
        assert_eq!(session.phase(), &Phase::Disconnected);
    }
}

#[test]
fn missing_room_leads_to_room_negotiation() {
    let mut session = logging_in();
    let reaction = session.on_message(ServerMessage::LoginResponse(Err(
        LoginError::RoomDoesNotExist(text("club1")),
    )));
    assert_eq!(reaction, redrawing());
    assert_eq!(session.phase(), &Phase::RoomNegotiation(text("club1")));
    let reaction = session.on_intent(Intent::SubmitRoomCreate { capacity: 4, width: 9, height: 9 });
    assert_eq!(reaction, sending(ClientMessage::RoomCreate(text("club1"), 4, 9, 9)));
    assert_eq!(session.phase(), &Phase::RoomNegotiation(text("club1")));
}

#[test]
fn room_creation_is_keyed_to_the_name_the_server_gave() {
    let mut session = logging_in();
    session.on_message(ServerMessage::LoginResponse(Err(LoginError::RoomDoesNotExist(text("den")))));
    let reaction = session.on_intent(Intent::SubmitRoomCreate { capacity: 2, width: 19, height: 19 });
    assert_eq!(reaction.send, Some(ClientMessage::RoomCreate(text("den"), 2, 19, 19)));
}

#[test]
fn other_login_errors_are_surfaced_and_the_login_stays_open() {
    let cases = [
        (LoginError::RoomFull, LoginRejection::RoomFull),
        (LoginError::UsernameTaken, LoginRejection::UsernameTaken),
        (LoginError::RoomNameTooLong, LoginRejection::RoomNameTooLong),
        (LoginError::UsernameTooLong, LoginRejection::UsernameTooLong),
    ];
    for (error, rejection) in cases {
        let mut session = logging_in();
        let reaction = session.on_message(ServerMessage::LoginResponse(Err(error)));
        assert_eq!(reaction, noticing(Notice::LoginRejected(rejection)));
        assert_eq!(session.phase(), &Phase::LoggingIn);
    }
}

#[test]
fn room_created_without_us_logs_in_again() {
    let mut session = negotiating();
    let reaction = session.on_message(ServerMessage::RoomCreateResponse(Ok(None)));
    assert_eq!(
        reaction,
        Reaction { redraw: true, ..sending(ClientMessage::Login(text("bob"), text("club1"))) }
    );
    assert_eq!(session.phase(), &Phase::LoggingIn);
}

#[test]
fn room_created_with_us_sends_nothing() {
    let mut session = negotiating();
    let reaction = session.on_message(ServerMessage::RoomCreateResponse(Ok(Some(club(9)))));
    assert_eq!(reaction, quiet());
    assert_eq!(session.phase(), &Phase::RoomNegotiation(text("club1")));
}

#[test]
fn room_creation_errors_are_surfaced() {
    for error in [RoomCreateError::RoomNameTooLong, RoomCreateError::RoomNameTaken] {
        let mut session = negotiating();
        let reaction = session.on_message(ServerMessage::RoomCreateResponse(Err(error)));
        assert_eq!(reaction, noticing(Notice::RoomCreateRejected(error)));
        assert_eq!(session.phase(), &Phase::RoomNegotiation(text("club1")));
    }
}

#[test]
fn room_create_outside_negotiation_sends_nothing() {
    for mut session in [Session::new(), connecting(), logging_in(), in_room(9)] {
        let reaction = session.on_intent(Intent::SubmitRoomCreate { capacity: 4, width: 9, height: 9 });
        assert_eq!(reaction, quiet());
    }
}

#[test]
fn disconnect_while_disconnected_changes_nothing() {
    let mut session = Session::new();
    for event in [TransportEvent::Closed, TransportEvent::Failed, TransportEvent::Opened, TransportEvent::Frame(vec![7, 0, 0, 0]), TransportEvent::Frame(vec![])] {
        let reaction = session.on_transport(event);
        assert_eq!(reaction, quiet());
        assert_eq!(session.phase(), &Phase::Disconnected);
    }
}

#[test]
fn second_disconnect_changes_nothing() {
    let mut session = in_room(9);
    let first = session.on_transport(TransportEvent::Failed);
    assert_eq!(first, dropping(Some(Notice::ConnectionFailed)));
    assert_eq!(session.phase(), &Phase::Disconnected);
    let second = session.on_transport(TransportEvent::Closed);
    assert_eq!(second, quiet());
    assert_eq!(session.phase(), &Phase::Disconnected);
    assert_eq!(session.username(), "bob");
}

#[test]
fn close_discards_the_room_in_every_connected_phase() {
    for mut session in [connecting(), logging_in(), negotiating(), in_room(9)] {
        let reaction = session.on_transport(TransportEvent::Closed);
        assert_eq!(reaction, dropping(Some(Notice::ConnectionClosed)));
        assert_eq!(session.phase(), &Phase::Disconnected);
    }
}

#[test]
fn connect_failure_is_surfaced() {
    let mut session = connecting();
    let reaction = session.on_transport(TransportEvent::Failed);
    assert_eq!(reaction, dropping(Some(Notice::ConnectionFailed)));
    assert_eq!(session.phase(), &Phase::Disconnected);
    // the caller may connect again
    let reaction = session.on_intent(submit_login());
    assert!(matches!(reaction.transport, Some(TransportCommand::Open(_))));
    assert_eq!(session.phase(), &Phase::Connecting);
}

#[test]
fn quit_releases_the_transport() {
    for mut session in [connecting(), logging_in(), negotiating(), in_room(9)] {
        let reaction = session.on_intent(Intent::Quit);
        assert_eq!(reaction, dropping(None));
        assert_eq!(session.phase(), &Phase::Disconnected);
    }
    let mut session = Session::new();
    assert_eq!(session.on_intent(Intent::Quit), quiet());
}

#[test]
fn nothing_is_applied_after_a_close() {
    let mut session = in_room(9);
    session.on_intent(Intent::Quit);
    let frame = encode_server_message(&ServerMessage::LoginResponse(Ok(club(9))));
    assert_eq!(session.on_transport(TransportEvent::Frame(frame)), quiet());
    assert_eq!(session.on_message(ServerMessage::NextTurn(text("bob"))), quiet());
    assert_eq!(session.phase(), &Phase::Disconnected);
}

#[test]
fn open_outside_connecting_changes_nothing() {
    for mut session in [logging_in(), negotiating(), in_room(9)] {
        assert_eq!(session.on_transport(TransportEvent::Opened), quiet());
    }
}

#[test]
fn malformed_frame_gives_the_connection_up() {
    for mut session in [connecting(), logging_in(), negotiating(), in_room(9)] {
        let reaction = session.on_transport(TransportEvent::Frame(vec![9, 9, 9]));
        assert_eq!(reaction, dropping(Some(Notice::ProtocolViolation)));
        assert_eq!(session.phase(), &Phase::Disconnected);
    }
}

#[test]
fn frames_are_decoded_and_applied() {
    let mut session = logging_in();
    let frame = encode_server_message(&ServerMessage::LoginResponse(Ok(club(9))));
    assert_eq!(session.on_transport(TransportEvent::Frame(frame)), redrawing());
    assert_eq!(session.phase(), &Phase::InRoom(fresh(club(9))));
    let frame = encode_server_message(&ServerMessage::NextTurn(text("carol")));
    assert_eq!(session.on_transport(TransportEvent::Frame(frame)), redrawing());
    assert_eq!(table(&session).room.current_player, "carol");
}

#[test]
fn next_turn_moves_the_turn_and_not_the_board() {
    let mut session = in_room(9);
    assert_eq!(table(&session).room.current_player, "alice");
    let reaction = session.on_message(ServerMessage::NextTurn(text("bob")));
    assert_eq!(reaction, redrawing());
    let mut expected = club(9);
    expected.current_player = text("bob");
    assert_eq!(table(&session).room, expected);
    assert_eq!(table(&session).room.board, club(9).board);
}

#[test]
fn next_turn_for_a_stranger_gives_the_connection_up() {
    let mut session = in_room(9);
    let reaction = session.on_message(ServerMessage::NextTurn(text("mallory")));
    assert_eq!(reaction, dropping(Some(Notice::ProtocolViolation)));
    assert_eq!(session.phase(), &Phase::Disconnected);
}

#[test]
fn placement_sets_exactly_one_cell() {
    let mut session = in_room(9);
    let reaction = session.on_message(ServerMessage::PlaceResponse(Ok(Move(
        Some((Position(2, 5), Some(Stone::Black))),
        Some(text("alice")),
    ))));
    assert_eq!(reaction, redrawing());
    let board = &table(&session).room.board;
    for y in 0..9 {
        for x in 0..9 {
            let expected = if x == 2 && y == 5 { Some(Stone::Black) } else { None };
            assert_eq!(board.stones[y][x], expected);
        }
    }
    let mut expected = club(9);
    expected.board.stones[5][2] = Some(Stone::Black);
    assert_eq!(table(&session).room, expected);
}

#[test]
fn placement_can_lift_a_stone() {
    let mut session = in_room(9);
    session.on_message(ServerMessage::PlaceResponse(Ok(Move(Some((Position(2, 5), Some(Stone::Black))), None))));
    session.on_message(ServerMessage::PlaceResponse(Ok(Move(Some((Position(2, 5), None)), None))));
    assert_eq!(table(&session).room, club(9));
}

#[test]
fn pass_leaves_the_board_unchanged() {
    let mut session = in_room(9);
    let reaction = session.on_message(ServerMessage::PlaceResponse(Ok(Move(None, None))));
    assert_eq!(reaction, redrawing());
    assert_eq!(session.phase(), &Phase::InRoom(fresh(club(9))));
}

#[test]
fn placement_off_the_board_gives_the_connection_up() {
    for position in [Position(9, 0), Position(0, 9), Position(255, 255)] {
        let mut session = in_room(9);
        let reaction = session.on_message(ServerMessage::PlaceResponse(Ok(Move(
            Some((position, Some(Stone::Black))),
            None,
        ))));
        assert_eq!(reaction, dropping(Some(Notice::ProtocolViolation)));
        assert_eq!(session.phase(), &Phase::Disconnected);
    }
}

#[test]
fn refusal_flags_the_player_and_not_the_board() {
    let mut session = in_room(9);
    let reaction = session.on_message(ServerMessage::PlaceResponse(Err(InvalidMove(text("carol")))));
    assert_eq!(reaction, redrawing());
    assert_eq!(table(&session).flagged, Some(text("carol")));
    assert_eq!(table(&session).room, club(9));
}

#[test]
fn ruling_that_names_a_player_without_a_cell_flags_the_player() {
    let mut session = in_room(9);
    let reaction = session.on_message(ServerMessage::PlaceResponse(Ok(Move(None, Some(text("carol"))))));
    assert_eq!(reaction, redrawing());
    assert_eq!(table(&session).flagged, Some(text("carol")));
    assert_eq!(table(&session).room, club(9));
}

#[test]
fn refusal_naming_a_stranger_leaves_everything_as_it_was() {
    let mut session = in_room(9);
    let reaction = session.on_message(ServerMessage::PlaceResponse(Err(InvalidMove(text("mallory")))));
    assert_eq!(reaction, redrawing());
    assert_eq!(session.phase(), &Phase::InRoom(fresh(club(9))));
}

#[test]
fn pass_naming_a_stranger_leaves_the_board_unchanged() {
    let mut session = in_room(9);
    let reaction = session.on_message(ServerMessage::PlaceResponse(Ok(Move(None, Some(text("mallory"))))));
    assert_eq!(reaction, redrawing());
    assert_eq!(session.phase(), &Phase::InRoom(fresh(club(9))));
}

#[test]
fn ruling_against_a_stranger_keeps_the_flag_and_ends_the_wait() {
    let mut session = in_room(9);
    session.on_message(ServerMessage::PlaceResponse(Err(InvalidMove(text("carol")))));
    session.on_intent(Intent::Pass);
    assert!(table(&session).awaiting_ruling);
    session.on_message(ServerMessage::PlaceResponse(Err(InvalidMove(text("mallory")))));
    assert_eq!(table(&session).flagged, Some(text("carol")));
    assert!(!table(&session).awaiting_ruling);
    assert_eq!(table(&session).room, club(9));
}

#[test]
fn no_ruling_without_a_cell_touches_the_room() {
    let rulings = [
        ServerMessage::PlaceResponse(Ok(Move(None, None))),
        ServerMessage::PlaceResponse(Ok(Move(None, Some(text("alice"))))),
        ServerMessage::PlaceResponse(Ok(Move(None, Some(text("mallory"))))),
        ServerMessage::PlaceResponse(Ok(Move(None, Some(text(""))))),
        ServerMessage::PlaceResponse(Err(InvalidMove(text("bob")))),
        ServerMessage::PlaceResponse(Err(InvalidMove(text("mallory")))),
        ServerMessage::PlaceResponse(Err(InvalidMove(text("")))),
    ];
    for ruling in rulings {
        let mut session = in_room(9);
        session.on_message(ServerMessage::PlaceResponse(Ok(Move(Some((Position(4, 4), Some(Stone::Black))), None))));
        let before = table(&session).room.clone();
        let reaction = session.on_message(ruling);
        assert_eq!(reaction, redrawing());
        assert_eq!(table(&session).room, before);
    }
}

#[test]
fn flag_is_cleared_by_the_next_placement_or_turn() {
    let mut session = in_room(9);
    session.on_message(ServerMessage::PlaceResponse(Err(InvalidMove(text("carol")))));
    session.on_message(ServerMessage::PlaceResponse(Ok(Move(Some((Position(0, 0), Some(Stone::Black))), None))));
    assert_eq!(table(&session).flagged, None);
    session.on_message(ServerMessage::PlaceResponse(Err(InvalidMove(text("carol")))));
    session.on_message(ServerMessage::NextTurn(text("bob")));
    assert_eq!(table(&session).flagged, None);
}

#[test]
fn player_add_and_remove_edit_the_roster() {
    let mut session = in_room(9);
    let dave = Player { username: text("dave"), stone: Stone::White };
    assert_eq!(session.on_message(ServerMessage::PlayerAdd(dave.clone())), redrawing());
    assert_eq!(table(&session).room.players.len(), 4);
    assert_eq!(table(&session).room.players[3], dave);
    assert_eq!(session.on_message(ServerMessage::PlayerRemove(text("carol"))), redrawing());
    let names: Vec<&str> = table(&session).room.players.iter().map(|p| p.username.as_str()).collect();
    assert_eq!(names, vec!["alice", "bob", "dave"]);
    assert_eq!(session.on_message(ServerMessage::PlayerRemove(text("nobody"))), redrawing());
    assert_eq!(table(&session).room.players.len(), 3);
}

#[test]
fn player_add_with_a_seated_name_replaces_the_player() {
    let mut session = in_room(9);
    session.on_message(ServerMessage::PlayerAdd(Player { username: text("alice"), stone: Stone::White }));
    assert_eq!(table(&session).room.players.len(), 3);
    assert_eq!(table(&session).room.stone_of(&text("alice")), Some(Stone::White));
}

#[test]
fn removing_the_flagged_player_clears_the_flag() {
    let mut session = in_room(9);
    session.on_message(ServerMessage::PlaceResponse(Err(InvalidMove(text("carol")))));
    session.on_message(ServerMessage::PlayerRemove(text("bob")));
    assert_eq!(table(&session).flagged, Some(text("carol")));
    session.on_message(ServerMessage::PlayerRemove(text("carol")));
    assert_eq!(table(&session).flagged, None);
}

#[test]
fn the_player_to_move_stays_seated_until_the_turn_passes() {
    let mut session = in_room(9);
    let reaction = session.on_message(ServerMessage::PlayerRemove(text("alice")));
    assert_eq!(reaction, redrawing());
    assert!(table(&session).leaving);
    assert_eq!(table(&session).room, club(9));

    let reaction = session.on_message(ServerMessage::NextTurn(text("bob")));
    assert_eq!(reaction, redrawing());
    assert!(!table(&session).leaving);
    let mut expected = club(9);
    expected.players.remove(0);
    expected.current_player = text("bob");
    assert_eq!(table(&session).room, expected);
    assert!(table(&session).room.is_well_formed());
}

#[test]
fn a_turn_that_stays_with_the_player_who_left_unseats_nobody() {
    let mut session = in_room(9);
    session.on_message(ServerMessage::PlayerRemove(text("alice")));
    session.on_message(ServerMessage::NextTurn(text("alice")));
    assert!(table(&session).leaving);
    assert_eq!(table(&session).room, club(9));
    session.on_message(ServerMessage::NextTurn(text("carol")));
    assert!(!table(&session).leaving);
    assert_eq!(table(&session).room.find_player(&text("alice")), None);
    assert_eq!(table(&session).room.current_player, "carol");
}

#[test]
fn a_player_who_comes_back_before_the_turn_passes_stays() {
    let mut session = in_room(9);
    session.on_message(ServerMessage::PlayerRemove(text("alice")));
    session.on_message(ServerMessage::PlayerAdd(Player { username: text("alice"), stone: Stone::White }));
    assert!(!table(&session).leaving);
    session.on_message(ServerMessage::NextTurn(text("bob")));
    assert_eq!(table(&session).room.stone_of(&text("alice")), Some(Stone::White));
    assert_eq!(table(&session).room.players.len(), 3);
}

#[test]
fn another_player_joining_does_not_cancel_the_departure() {
    let mut session = in_room(9);
    session.on_message(ServerMessage::PlayerRemove(text("alice")));
    session.on_message(ServerMessage::PlayerAdd(Player { username: text("dave"), stone: Stone::White }));
    assert!(table(&session).leaving);
    session.on_message(ServerMessage::NextTurn(text("dave")));
    let names: Vec<&str> = table(&session).room.players.iter().map(|p| p.username.as_str()).collect();
    assert_eq!(names, vec!["bob", "carol", "dave"]);
}

#[test]
fn a_turn_without_a_departure_unseats_nobody() {
    let mut session = in_room(9);
    session.on_message(ServerMessage::NextTurn(text("bob")));
    session.on_message(ServerMessage::NextTurn(text("carol")));
    assert_eq!(table(&session).room.players, club(9).players);
}

#[test]
fn chat_is_appended_to_the_transcript() {
    let mut session = in_room(9);
    assert_eq!(session.on_message(ServerMessage::Chat(text("<alice>: hi"))), redrawing());
    assert_eq!(session.on_message(ServerMessage::Chat(text("<carol>: <b>yo</b>"))), redrawing());
    assert_eq!(table(&session).transcript, vec![text("<alice>: hi"), text("<carol>: <b>yo</b>")]);
    assert_eq!(table(&session).room, club(9));
}

#[test]
fn already_logged_in_changes_nothing() {
    for mut session in [Session::new(), connecting(), logging_in(), negotiating(), in_room(9)] {
        let before = format!("{:?}", session);
        assert_eq!(session.on_message(ServerMessage::AlreadyLoggedIn), quiet());
        assert_eq!(format!("{:?}", session), before);
    }
}

#[test]
fn messages_that_the_phase_does_not_await_change_nothing() {
    let mut session = logging_in();
    assert_eq!(session.on_message(ServerMessage::NextTurn(text("bob"))), quiet());
    assert_eq!(session.on_message(ServerMessage::RoomCreateResponse(Ok(None))), quiet());
    assert_eq!(session.on_message(ServerMessage::Chat(text("hi"))), quiet());
    assert_eq!(session.phase(), &Phase::LoggingIn);
    let mut session = negotiating();
    assert_eq!(session.on_message(ServerMessage::LoginResponse(Ok(club(9)))), quiet());
    assert_eq!(session.on_message(ServerMessage::PlayerRemove(text("bob"))), quiet());
    assert_eq!(session.phase(), &Phase::RoomNegotiation(text("club1")));
    let mut session = in_room(9);
    assert_eq!(session.on_message(ServerMessage::LoginResponse(Ok(club(13)))), quiet());
    assert_eq!(session.on_message(ServerMessage::RoomCreateResponse(Ok(None))), quiet());
    assert_eq!(session.phase(), &Phase::InRoom(fresh(club(9))));
    let mut session = connecting();
    assert_eq!(session.on_message(ServerMessage::LoginResponse(Ok(club(9)))), quiet());
    assert_eq!(session.phase(), &Phase::Connecting);
}

#[test]
fn self_player_is_fixed_for_the_life_of_the_room() {
    let mut session = in_room(9);
    session.on_message(ServerMessage::NextTurn(text("carol")));
    session.on_message(ServerMessage::PlayerRemove(text("bob")));
    session.on_message(ServerMessage::PlayerAdd(Player { username: text("dave"), stone: Stone::White }));
    session.on_intent(submit_login());
    session.on_intent(Intent::Pass);
    assert_eq!(table(&session).room.self_player, "bob");
    assert_eq!(table(&session).room.name, "club1");
}

#[test]
fn measure_keeps_the_geometry_of_the_render_pass() {
    let mut session = in_room(19);
    let geometry = session.measure(600);
    assert_eq!(geometry, Some(BoardGeometry { origin: 84, spacing: 24, side: 19 }));
    assert_eq!(table(&session).geometry, geometry);
    assert_eq!(session.measure(0), None);
    assert_eq!(table(&session).geometry, None);
    let mut session = logging_in();
    assert_eq!(session.measure(600), None);
    assert_eq!(session.phase(), &Phase::LoggingIn);
}

#[test]
fn click_on_the_board_sends_a_placement() {
    let mut session = in_room(19);
    session.measure(600);
    let reaction = session.on_intent(Intent::PointerClick(Position(84 + 3 * 24, 84 + 18 * 24)));
    assert_eq!(
        reaction,
        Reaction { redraw: true, ..sending(ClientMessage::Place(Some(Position(3, 18)))) }
    );
    assert!(table(&session).awaiting_ruling);
    assert_eq!(table(&session).room, club(19));
}

#[test]
fn click_never_writes_a_stone() {
    let mut session = in_room(19);
    session.measure(600);
    session.on_intent(Intent::PointerClick(Position(84, 84)));
    assert_eq!(table(&session).room.board, club(19).board);
}

#[test]
fn click_outside_the_band_sends_nothing() {
    let mut session = in_room(19);
    session.measure(600);
    let reaction = session.on_intent(Intent::PointerClick(Position(0, 0)));
    assert_eq!(reaction, redrawing());
    assert!(!table(&session).awaiting_ruling);
}

#[test]
fn click_before_the_first_render_pass_sends_nothing() {
    let mut session = in_room(19);
    let reaction = session.on_intent(Intent::PointerClick(Position(84, 84)));
    assert_eq!(reaction, redrawing());
}

#[test]
fn click_outside_a_room_does_nothing() {
    for mut session in [Session::new(), connecting(), logging_in(), negotiating()] {
        assert_eq!(session.on_intent(Intent::PointerClick(Position(84, 84))), quiet());
        assert_eq!(session.on_intent(Intent::PointerMove(Position(84, 84))), quiet());
        assert_eq!(session.on_intent(Intent::PointerLeave), quiet());
        assert_eq!(session.on_intent(Intent::Pass), quiet());
        assert_eq!(session.on_intent(Intent::SendChat(text("hi"))), quiet());
    }
}

#[test]
fn second_placement_waits_for_the_ruling() {
    let mut session = in_room(19);
    session.measure(600);
    session.on_intent(Intent::PointerClick(Position(84, 84)));
    assert_eq!(session.on_intent(Intent::PointerClick(Position(108, 84))), redrawing());
    assert_eq!(session.on_intent(Intent::Pass), quiet());
    session.on_message(ServerMessage::PlaceResponse(Ok(Move(Some((Position(0, 0), Some(Stone::White))), None))));
    assert!(!table(&session).awaiting_ruling);
    let reaction = session.on_intent(Intent::PointerClick(Position(108, 84)));
    assert_eq!(reaction.send, Some(ClientMessage::Place(Some(Position(1, 0)))));
}

#[test]
fn every_ruling_and_turn_ends_the_wait() {
    let endings = [
        ServerMessage::PlaceResponse(Ok(Move(None, None))),
        ServerMessage::PlaceResponse(Ok(Move(None, Some(text("bob"))))),
        ServerMessage::PlaceResponse(Err(InvalidMove(text("bob")))),
        ServerMessage::NextTurn(text("carol")),
    ];
    for ending in endings {
        let mut session = in_room(9);
        session.on_intent(Intent::Pass);
        assert!(table(&session).awaiting_ruling);
        session.on_message(ending);
        assert!(!table(&session).awaiting_ruling);
    }
}

#[test]
fn pass_sends_a_placement_without_a_cell() {
    let mut session = in_room(9);
    let reaction = session.on_intent(Intent::Pass);
    assert_eq!(reaction, Reaction { redraw: true, ..sending(ClientMessage::Place(None)) });
    assert!(table(&session).awaiting_ruling);
}

#[test]
fn cell_beyond_what_a_message_can_name_is_not_sent() {
    let mut session = logging_in();
    session.on_message(ServerMessage::LoginResponse(Ok(club(300))));
    session.measure(3000);
    let geometry = table(&session).geometry.unwrap();
    let far = geometry.intersection(256) as i32;
    let near = geometry.intersection(255) as i32;
    assert_eq!(session.on_intent(Intent::PointerClick(Position(far, near))), redrawing());
    let reaction = session.on_intent(Intent::PointerClick(Position(near, near)));
    assert_eq!(reaction.send, Some(ClientMessage::Place(Some(Position(255, 255)))));
}

#[test]
fn pointer_moves_drive_the_hover_preview() {
    let mut session = in_room(19);
    session.measure(600);
    assert_eq!(session.hover_cell(), None);
    assert_eq!(session.on_intent(Intent::PointerMove(Position(110, 84))), redrawing());
    assert_eq!(table(&session).pointer, Some(Position(110, 84)));
    assert_eq!(session.hover_cell(), Some(Position(1, 0)));
    assert_eq!(session.on_intent(Intent::PointerMove(Position(0, 0))), redrawing());
    assert_eq!(session.hover_cell(), None);
    assert_eq!(session.on_intent(Intent::PointerMove(Position(84, 84))), redrawing());
    assert_eq!(session.on_intent(Intent::PointerLeave), redrawing());
    assert_eq!(table(&session).pointer, None);
    assert_eq!(session.hover_cell(), None);
}

#[test]
fn chat_goes_out_under_the_local_name() {
    let mut session = in_room(9);
    let reaction = session.on_intent(Intent::SendChat(text("hello")));
    assert_eq!(reaction, sending(ClientMessage::Chat(text("<bob>: hello"))));
    let reaction = session.on_intent(Intent::SendChat(text(" ")));
    assert_eq!(reaction, sending(ClientMessage::Chat(text("<bob>:  "))));
}

#[test]
fn empty_chat_is_not_sent() {
    let mut session = in_room(9);
    assert_eq!(session.on_intent(Intent::SendChat(text(""))), quiet());
}

#[test]
fn a_fresh_connection_starts_from_scratch() {
    let mut session = in_room(9);
    session.on_message(ServerMessage::Chat(text("old")));
    session.on_message(ServerMessage::PlaceResponse(Ok(Move(Some((Position(0, 0), Some(Stone::Black))), None))));
    session.on_transport(TransportEvent::Closed);
    session.on_intent(submit_login());
    session.on_transport(TransportEvent::Opened);
    session.on_message(ServerMessage::LoginResponse(Ok(club(9))));
    assert_eq!(session.phase(), &Phase::InRoom(fresh(club(9))));
}

#[test]
fn geometry_of_the_caller_is_kept_for_clicks() {
    let mut session = in_room(19);
    let geometry = BoardGeometry { origin: 80, spacing: 20, side: 19 };
    session.use_geometry(Some(geometry));
    assert_eq!(table(&session).geometry, Some(geometry));
    assert_eq!(session.on_intent(Intent::PointerClick(Position(0, 0))), redrawing());
    assert!(!table(&session).awaiting_ruling);
    let reaction = session.on_intent(Intent::PointerClick(Position(80, 80)));
    assert_eq!(
        reaction,
        Reaction { redraw: true, ..sending(ClientMessage::Place(Some(Position(0, 0)))) }
    );
    session.on_message(ServerMessage::PlaceResponse(Ok(Move(None, None))));
    let reaction = session.on_intent(Intent::PointerClick(Position(80 + 7 * 20 + 9, 80 + 18 * 20)));
    assert_eq!(reaction.send, Some(ClientMessage::Place(Some(Position(7, 18)))));
    session.use_geometry(None);
    assert_eq!(table(&session).geometry, None);
}

#[test]
fn geometry_outside_a_room_is_not_kept() {
    for mut session in [Session::new(), connecting(), logging_in(), negotiating()] {
        let before = format!("{:?}", session);
        session.use_geometry(Some(BoardGeometry { origin: 80, spacing: 20, side: 19 }));
        assert_eq!(format!("{:?}", session), before);
    }
}
