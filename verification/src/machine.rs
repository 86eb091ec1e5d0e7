//! The session state machine as a mathematical model: what the session
//! holds, what can happen to it, and how it reacts.
//!
//! A session is `Disconnected`, `Connecting`, `LoggingIn`, negotiating the
//! creation of a room, or in a room. A room exists only while the session is
//! in it, so there is never more than one, and leaving the connected phases
//! discards it. Every reaction carries at most one outbound message.

use vstd::prelude::*;
use crate::frames::parse_server_message;
use crate::logic::{
    grid_after, grid_is_square, lemma_placement_sets_one_cell, placement_on_grid, MoveView,
    Position,
};
use crate::mapper::{cell_at, BoardGeometry};
use crate::protocol::{
    ClientMessageView, LoginErrorView, RoomCreateError, ServerMessageView,
};
use crate::room::{
    lemma_insert_keeps_roster, lemma_remove_keeps_roster, room_well_formed, roster_has,
    roster_insert, roster_remove, RoomView,
};

verus! {

/// Why a login was turned down, where the reason is about a form field.
#[derive(Clone, Copy, Debug, PartialEq, Eq, Structural)]
pub enum LoginRejection {
    RoomFull,
    UsernameTaken,
    RoomNameTooLong,
    UsernameTooLong,
}

/// Something the user has to be told.
#[derive(Clone, Copy, Debug, PartialEq, Eq, Structural)]
pub enum Notice {
    /// The transport reported an error; the session is disconnected.
    ConnectionFailed,
    /// The transport was closed; the session is disconnected.
    ConnectionClosed,
    /// The server sent what is no message, or a message that contradicts the
    /// mirrored room; the connection was given up.
    ProtocolViolation,
    /// The server turned the login down.
    LoginRejected(LoginRejection),
    /// The server turned the room creation down.
    RoomCreateRejected(RoomCreateError),
}

/// The model of what a session holds while in a room.
pub struct TableView {
    pub room: RoomView,
    /// A placement or pass was sent and nothing was ruled since.
    pub awaiting_ruling: bool,
    /// The player whose last attempt was turned down.
    pub flagged: Option<Seq<char>>,
    /// The player to move has left the room. The room keeps them seated
    /// until the turn passes, so that the turn always lies with a seated
    /// player.
    pub leaving: bool,
    /// The chat lines received, oldest first.
    pub transcript: Seq<Seq<char>>,
    /// The grid measurements of the last render pass.
    pub geometry: Option<BoardGeometry>,
    /// The last known pointer position over the board.
    pub pointer: Option<Position<i32>>,
}

/// The model of a session's phase.
pub enum PhaseView {
    Disconnected,
    Connecting,
    LoggingIn,
    /// The room of this name does not exist yet and may be created.
    RoomNegotiation(Seq<char>),
    InRoom(TableView),
}

/// The model of a session.
pub struct SessionView {
    pub phase: PhaseView,
    /// The username of the last submitted login.
    pub username: Seq<char>,
    /// The room name of the last submitted login.
    pub room_name: Seq<char>,
}

/// The model of an order to the transport.
pub enum TransportCommandView {
    /// Open a connection to this address.
    Open(Seq<char>),
    /// Close the connection and release it.
    Close,
}

/// The model of a reaction: what the caller has to do after an event.
pub struct ReactionView {
    pub transport: Option<TransportCommandView>,
    pub send: Option<ClientMessageView>,
    pub notice: Option<Notice>,
    pub redraw: bool,
}

/// The model of a user intent.
pub enum IntentView {
    SubmitLogin { server: Seq<char>, username: Seq<char>, room: Seq<char> },
    SubmitRoomCreate { capacity: u8, width: u8, height: u8 },
    PointerMove(Position<i32>),
    PointerClick(Position<i32>),
    PointerLeave,
    Pass,
    Quit,
    SendChat(Seq<char>),
}

/// The model of what the transport reports.
pub enum TransportEventView {
    Opened,
    Failed,
    Closed,
    Frame(Seq<u8>),
}

/// What a session holds on entering `room`.
pub open spec fn fresh_table(room: RoomView) -> TableView {
    TableView {
        room,
        awaiting_ruling: false,
        flagged: None,
        leaving: false,
        transcript: Seq::empty(),
        geometry: None,
        pointer: None,
    }
}

/// A table is well formed when its room is and the flagged player is seated.
pub open spec fn table_well_formed(table: TableView) -> bool {
    &&& room_well_formed(table.room)
    &&& table.flagged matches Some(name) ==> roster_has(table.room.players, name)
}

/// A session is well formed when the table it sits at, if any, is.
pub open spec fn session_well_formed(session: SessionView) -> bool {
    session.phase matches PhaseView::InRoom(table) ==> table_well_formed(table)
}

/// The session a process starts with.
pub open spec fn initial_session() -> SessionView {
    SessionView {
        phase: PhaseView::Disconnected,
        username: Seq::empty(),
        room_name: Seq::empty(),
    }
}

/// The reaction that asks for nothing.
pub open spec fn quiet() -> ReactionView {
    ReactionView { transport: None, send: None, notice: None, redraw: false }
}

/// The reaction that sends `message` and asks for nothing else.
pub open spec fn sending(message: ClientMessageView) -> ReactionView {
    ReactionView { transport: None, send: Some(message), notice: None, redraw: false }
}

/// The reaction that only asks for a render pass.
pub open spec fn redrawing() -> ReactionView {
    ReactionView { transport: None, send: None, notice: None, redraw: true }
}

/// `session` in another phase.
pub open spec fn in_phase(session: SessionView, phase: PhaseView) -> SessionView {
    SessionView { phase, ..session }
}

/// `session` at `table`.
pub open spec fn seated(session: SessionView, table: TableView) -> SessionView {
    in_phase(session, PhaseView::InRoom(table))
}

/// Leaving the connected phases: the room is discarded, the transport is
/// released, and the user is told why, if there is something to tell.
pub open spec fn dropped(session: SessionView, notice: Option<Notice>) -> (
    SessionView,
    ReactionView,
) {
    (
        in_phase(session, PhaseView::Disconnected),
        ReactionView {
            transport: Some(TransportCommandView::Close),
            send: None,
            notice,
            redraw: true,
        },
    )
}

/// Giving the connection up over what the server sent.
pub open spec fn violated(session: SessionView) -> (SessionView, ReactionView) {
    dropped(session, Some(Notice::ProtocolViolation))
}

/// The login message for the credentials that `session` holds.
pub open spec fn login_of(session: SessionView) -> ClientMessageView {
    ClientMessageView::Login(session.username, session.room_name)
}

/// The line that goes out when `speaker` says `text`.
pub open spec fn chat_line(speaker: Seq<char>, text: Seq<char>) -> Seq<char> {
    seq!['<'] + speaker + seq!['>', ':', ' '] + text
}

/// The cell that a click at `pointer` asks for: the cell the pointer
/// resolves to under the measurements of the last render pass, if it is a
/// cell of the board and can be named in a message.
pub open spec fn click_target(table: TableView, pointer: Position<i32>) -> Option<Position<u8>> {
    match table.geometry {
        Some(geometry) => match cell_at(geometry, pointer.0 as int, pointer.1 as int) {
            Some((x, y)) => if x < table.room.board.len() && y < table.room.board.len() && 0 <= x
                <= u8::MAX && 0 <= y <= u8::MAX {
                Some(Position(x as u8, y as u8))
            } else {
                None
            },
            None => None,
        },
        None => None,
    }
}

/// A ruling against the player called `name`: the wait for a ruling is over
/// and the player is flagged. Where nobody of that name is seated there is
/// nobody to flag, and only the wait ends. The room stays as it was either
/// way.
pub open spec fn flag(session: SessionView, table: TableView, name: Seq<char>) -> (
    SessionView,
    ReactionView,
) {
    (
        seated(
            session,
            TableView {
                flagged: if roster_has(table.room.players, name) {
                    Some(name)
                } else {
                    table.flagged
                },
                awaiting_ruling: false,
                ..table
            },
        ),
        redrawing(),
    )
}

/// The table after the turn has passed to the seated player called `name`.
/// A player who left while it was their turn is unseated now.
pub open spec fn after_turn(table: TableView, name: Seq<char>) -> TableView {
    let gone = table.leaving && name != table.room.current_player;
    TableView {
        room: RoomView {
            players: if gone {
                roster_remove(table.room.players, table.room.current_player)
            } else {
                table.room.players
            },
            current_player: name,
            ..table.room
        },
        flagged: None,
        awaiting_ruling: false,
        leaving: table.leaving && !gone,
        ..table
    }
}

/// How a session at `table` reacts to a message.
pub open spec fn react_in_room(
    session: SessionView,
    table: TableView,
    message: ServerMessageView,
) -> (SessionView, ReactionView) {
    match message {
        ServerMessageView::PlaceResponse(Ok(ruling)) => match ruling.placement {
            Some(placement) => if placement_on_grid(placement, table.room.board.len() as int) {
                (
                    seated(
                        session,
                        TableView {
                            room: RoomView {
                                board: grid_after(table.room.board, placement),
                                ..table.room
                            },
                            flagged: None,
                            awaiting_ruling: false,
                            ..table
                        },
                    ),
                    redrawing(),
                )
            } else {
                violated(session)
            },
            None => match ruling.player {
                Some(name) => flag(session, table, name),
                None => (
                    seated(session, TableView { awaiting_ruling: false, ..table }),
                    redrawing(),
                ),
            },
        },
        ServerMessageView::PlaceResponse(Err(offender)) => flag(session, table, offender),
        ServerMessageView::PlayerAdd(player) => (
            seated(
                session,
                TableView {
                    room: RoomView {
                        players: roster_insert(table.room.players, player),
                        ..table.room
                    },
                    leaving: table.leaving && player.username != table.room.current_player,
                    ..table
                },
            ),
            redrawing(),
        ),
        ServerMessageView::PlayerRemove(name) => if name == table.room.current_player {
            (seated(session, TableView { leaving: true, ..table }), redrawing())
        } else {
            (
                seated(
                    session,
                    TableView {
                        room: RoomView {
                            players: roster_remove(table.room.players, name),
                            ..table.room
                        },
                        flagged: if table.flagged == Some(name) {
                            None
                        } else {
                            table.flagged
                        },
                        ..table
                    },
                ),
                redrawing(),
            )
        },
        ServerMessageView::NextTurn(name) => if roster_has(table.room.players, name) {
            (seated(session, after_turn(table, name)), redrawing())
        } else {
            violated(session)
        },
        ServerMessageView::Chat(text) => (
            seated(session, TableView { transcript: table.transcript.push(text), ..table }),
            redrawing(),
        ),
        _ => (session, quiet()),
    }
}

/// How a session that awaits the answer to its login reacts to that answer.
pub open spec fn react_to_login_response(
    session: SessionView,
    answer: Result<RoomView, LoginErrorView>,
) -> (SessionView, ReactionView) {
    match answer {
        Ok(room) => if room_well_formed(room) {
            (seated(session, fresh_table(room)), redrawing())
        } else {
            violated(session)
        },
        Err(LoginErrorView::RoomDoesNotExist(name)) => (
            in_phase(session, PhaseView::RoomNegotiation(name)),
            redrawing(),
        ),
        Err(error) => (
            session,
            ReactionView {
                transport: None,
                send: None,
                notice: Some(Notice::LoginRejected(login_rejection(error))),
                redraw: false,
            },
        ),
    }
}

/// The rejection that a login error stands for.
pub open spec fn login_rejection(error: LoginErrorView) -> LoginRejection {
    match error {
        LoginErrorView::RoomFull => LoginRejection::RoomFull,
        LoginErrorView::UsernameTaken => LoginRejection::UsernameTaken,
        LoginErrorView::RoomNameTooLong => LoginRejection::RoomNameTooLong,
        _ => LoginRejection::UsernameTooLong,
    }
}

/// How a session that negotiates a room reacts to the answer to its room
/// creation.
pub open spec fn react_to_room_create_response(
    session: SessionView,
    answer: Result<Option<RoomView>, RoomCreateError>,
) -> (SessionView, ReactionView) {
    match answer {
        Ok(None) => (in_phase(session, PhaseView::LoggingIn), ReactionView {
            transport: None,
            send: Some(login_of(session)),
            notice: None,
            redraw: true,
        }),
        Ok(Some(_)) => (session, quiet()),
        Err(error) => (
            session,
            ReactionView {
                transport: None,
                send: None,
                notice: Some(Notice::RoomCreateRejected(error)),
                redraw: false,
            },
        ),
    }
}

/// How a session reacts to a message from the server. A message that the
/// current phase does not await changes nothing.
pub open spec fn react_to_message(session: SessionView, message: ServerMessageView) -> (
    SessionView,
    ReactionView,
) {
    match session.phase {
        PhaseView::LoggingIn => match message {
            ServerMessageView::LoginResponse(answer) => react_to_login_response(session, answer),
            _ => (session, quiet()),
        },
        PhaseView::RoomNegotiation(_) => match message {
            ServerMessageView::RoomCreateResponse(answer) => react_to_room_create_response(
                session,
                answer,
            ),
            _ => (session, quiet()),
        },
        PhaseView::InRoom(table) => react_in_room(session, table, message),
        _ => (session, quiet()),
    }
}

/// How a session reacts to what the transport reports.
pub open spec fn react_to_transport(session: SessionView, event: TransportEventView) -> (
    SessionView,
    ReactionView,
) {
    if session.phase is Disconnected {
        (session, quiet())
    } else {
        match event {
            TransportEventView::Opened => if session.phase is Connecting {
                (in_phase(session, PhaseView::LoggingIn), ReactionView {
                    transport: None,
                    send: Some(login_of(session)),
                    notice: None,
                    redraw: true,
                })
            } else {
                (session, quiet())
            },
            TransportEventView::Failed => dropped(session, Some(Notice::ConnectionFailed)),
            TransportEventView::Closed => dropped(session, Some(Notice::ConnectionClosed)),
            TransportEventView::Frame(bytes) => match parse_server_message(bytes) {
                Some((message, _)) => react_to_message(session, message),
                None => violated(session),
            },
        }
    }
}

/// How a session reacts to a submitted login.
pub open spec fn react_to_login(
    session: SessionView,
    server: Seq<char>,
    username: Seq<char>,
    room: Seq<char>,
) -> (SessionView, ReactionView) {
    let named = SessionView { username, room_name: room, ..session };
    match session.phase {
        PhaseView::Disconnected => (in_phase(named, PhaseView::Connecting), ReactionView {
            transport: Some(TransportCommandView::Open(server)),
            send: None,
            notice: None,
            redraw: true,
        }),
        PhaseView::Connecting => (named, quiet()),
        PhaseView::LoggingIn => (named, sending(login_of(named))),
        PhaseView::RoomNegotiation(_) => (in_phase(named, PhaseView::LoggingIn), ReactionView {
            transport: None,
            send: Some(login_of(named)),
            notice: None,
            redraw: true,
        }),
        PhaseView::InRoom(_) => (named, sending(login_of(named))),
    }
}

/// How a session at `table` reacts to an intent other than a login.
pub open spec fn react_at_table(session: SessionView, table: TableView, intent: IntentView) -> (
    SessionView,
    ReactionView,
) {
    match intent {
        IntentView::PointerMove(pointer) => (
            seated(session, TableView { pointer: Some(pointer), ..table }),
            redrawing(),
        ),
        IntentView::PointerLeave => (
            seated(session, TableView { pointer: None, ..table }),
            redrawing(),
        ),
        IntentView::PointerClick(pointer) => match click_target(table, pointer) {
            Some(cell) => if table.awaiting_ruling {
                (session, redrawing())
            } else {
                (seated(session, TableView { awaiting_ruling: true, ..table }), ReactionView {
                    transport: None,
                    send: Some(ClientMessageView::Place(Some(cell))),
                    notice: None,
                    redraw: true,
                })
            },
            None => (session, redrawing()),
        },
        IntentView::Pass => if table.awaiting_ruling {
            (session, quiet())
        } else {
            (seated(session, TableView { awaiting_ruling: true, ..table }), ReactionView {
                transport: None,
                send: Some(ClientMessageView::Place(None)),
                notice: None,
                redraw: true,
            })
        },
        IntentView::SendChat(text) => if text.len() > 0 {
            (session, sending(ClientMessageView::Chat(chat_line(table.room.self_player, text))))
        } else {
            (session, quiet())
        },
        _ => (session, quiet()),
    }
}

/// How a session reacts to a user intent.
pub open spec fn react_to_intent(session: SessionView, intent: IntentView) -> (
    SessionView,
    ReactionView,
) {
    match intent {
        IntentView::SubmitLogin { server, username, room } => react_to_login(
            session,
            server,
            username,
            room,
        ),
        IntentView::Quit => if session.phase is Disconnected {
            (session, quiet())
        } else {
            dropped(session, None)
        },
        IntentView::SubmitRoomCreate { capacity, width, height } => match session.phase {
            PhaseView::RoomNegotiation(name) => (
                session,
                sending(ClientMessageView::RoomCreate(name, capacity, width, height)),
            ),
            _ => (session, quiet()),
        },
        _ => match session.phase {
            PhaseView::InRoom(table) => react_at_table(session, table, intent),
            _ => (session, quiet()),
        },
    }
}

/// Anything that can happen to a session.
pub enum EventView {
    Intent(IntentView),
    Transport(TransportEventView),
    Message(ServerMessageView),
}

/// How a session reacts to an event.
pub open spec fn react(session: SessionView, event: EventView) -> (SessionView, ReactionView) {
    match event {
        EventView::Intent(intent) => react_to_intent(session, intent),
        EventView::Transport(event) => react_to_transport(session, event),
        EventView::Message(message) => react_to_message(session, message),
    }
}

/// The message that `event` delivers, if it delivers one: a message handed
/// over as such, or the message that a frame decodes to.
pub open spec fn delivered(event: EventView) -> Option<ServerMessageView> {
    match event {
        EventView::Message(message) => Some(message),
        EventView::Transport(TransportEventView::Frame(bytes)) => match parse_server_message(
            bytes,
        ) {
            Some((message, _)) => Some(message),
            None => None,
        },
        _ => None,
    }
}

/// The table that `session` sits at, if it is in a room.
pub open spec fn table_of(session: SessionView) -> Option<TableView> {
    match session.phase {
        PhaseView::InRoom(table) => Some(table),
        _ => None,
    }
}

/// The session a process starts with is well formed.
pub proof fn lemma_initial_session_well_formed()
    ensures
        session_well_formed(initial_session()),
        initial_session().phase is Disconnected,
{
}

/// No event leads a well-formed session to one that is not: the player
/// whose turn it is stays seated, names stay unique, the board stays square.
pub proof fn lemma_react_keeps_well_formed(session: SessionView, event: EventView)
    requires
        session_well_formed(session),
    ensures
        session_well_formed(react(session, event).0),
{
    match event {
        EventView::Intent(_) => {},
        EventView::Transport(TransportEventView::Frame(bytes)) => {
            if !(session.phase is Disconnected) {
                if let Some((message, _)) = parse_server_message(bytes) {
                    lemma_message_keeps_well_formed(session, message);
                }
            }
        },
        EventView::Transport(_) => {},
        EventView::Message(message) => {
            lemma_message_keeps_well_formed(session, message);
        },
    }
}

/// The part of [`lemma_react_keeps_well_formed`] that is about messages.
pub proof fn lemma_message_keeps_well_formed(session: SessionView, message: ServerMessageView)
    requires
        session_well_formed(session),
    ensures
        session_well_formed(react_to_message(session, message).0),
{
    if let PhaseView::InRoom(table) = session.phase {
        let room = table.room;
        match message {
            ServerMessageView::PlaceResponse(Ok(ruling)) => {
                if let Some(placement) = ruling.placement {
                    if placement_on_grid(placement, room.board.len() as int) {
                        lemma_placement_sets_one_cell(room.board, placement, 0, 0);
                    }
                }
            },
            ServerMessageView::PlayerAdd(player) => {
                lemma_insert_keeps_roster(room.players, player, room.current_player);
                if let Some(name) = table.flagged {
                    lemma_insert_keeps_roster(room.players, player, name);
                }
            },
            ServerMessageView::PlayerRemove(name) => {
                lemma_remove_keeps_roster(room.players, name, room.current_player);
                if let Some(flagged) = table.flagged {
                    lemma_remove_keeps_roster(room.players, name, flagged);
                }
            },
            ServerMessageView::NextTurn(name) => {
                lemma_remove_keeps_roster(room.players, room.current_player, name);
            },
            _ => {},
        }
    }
}

/// A disconnected session is deaf to the transport: whatever the transport
/// reports, a failure or a close among it, the session stays as it is and
/// nothing is asked of the caller.
pub proof fn lemma_disconnect_is_idempotent(session: SessionView, event: TransportEventView)
    requires
        session.phase is Disconnected,
    ensures
        react_to_transport(session, event) == (session, quiet()),
{
}

/// Losing the transport, or having it fail, leaves the session disconnected,
/// the room discarded and the transport released; a second such report
/// changes nothing more.
pub proof fn lemma_transport_loss_disconnects(session: SessionView, event: TransportEventView)
    requires
        event is Failed || event is Closed,
    ensures
        react_to_transport(session, event).0.phase is Disconnected,
        !(session.phase is Disconnected) ==> react_to_transport(session, event).1.transport
            == Some(TransportCommandView::Close),
        react_to_transport(react_to_transport(session, event).0, event) == (
            react_to_transport(session, event).0,
            quiet(),
        ),
{
}

/// The transport is released exactly when the session leaves the connected
/// phases, and opened exactly when it leaves `Disconnected`.
pub proof fn lemma_transport_follows_phase(session: SessionView, event: EventView)
    ensures
        react(session, event).1.transport == Some(TransportCommandView::Close) <==> !(
        session.phase is Disconnected) && react(session, event).0.phase is Disconnected,
        react(session, event).1.transport matches Some(TransportCommandView::Open(_))
            <==> session.phase is Disconnected && !(react(session, event).0.phase
            is Disconnected),
        session.phase is Disconnected ==> react(session, event).1.send is None,
{
    if let Some(message) = delivered(event) {
        lemma_message_transport(session, message);
    }
}

/// The part of [`lemma_transport_follows_phase`] that is about messages.
proof fn lemma_message_transport(session: SessionView, message: ServerMessageView)
    ensures
        react_to_message(session, message).1.transport == Some(TransportCommandView::Close)
            <==> !(session.phase is Disconnected) && react_to_message(
            session,
            message,
        ).0.phase is Disconnected,
        !(react_to_message(session, message).1.transport matches Some(
            TransportCommandView::Open(_),
        )),
        session.phase is Disconnected ==> react_to_message(session, message) == (
            session,
            quiet(),
        ),
{
}

/// A reaction that asks for no render pass has left the phase, and with it
/// the room and everything else at the table, as it was.
pub proof fn lemma_no_redraw_no_change(session: SessionView, event: EventView)
    requires
        !react(session, event).1.redraw,
    ensures
        react(session, event).0.phase == session.phase,
{
}

/// A ruling that places a stone on the board sets exactly one cell and
/// leaves all others as they were. The session stays in its room, and
/// roster and turn stay as they were.
pub proof fn lemma_ruling_changes_one_cell(
    session: SessionView,
    ruling: MoveView,
    x: int,
    y: int,
)
    requires
        session_well_formed(session),
        table_of(session) matches Some(table) && ruling.placement matches Some(placement)
            && placement_on_grid(placement, table.room.board.len() as int),
        0 <= x < table_of(session).unwrap().room.board.len(),
        0 <= y < table_of(session).unwrap().room.board.len(),
    ensures
        ({
            let before = table_of(session).unwrap().room;
            let placement = ruling.placement.unwrap();
            let reacted = react_to_message(session, ServerMessageView::PlaceResponse(Ok(ruling)));
            &&& table_of(reacted.0) matches Some(table) && table.room == (RoomView {
                board: table.room.board,
                ..before
            })
            &&& table_of(reacted.0).unwrap().room.board.len() == before.board.len()
            &&& grid_is_square(table_of(reacted.0).unwrap().room.board)
            &&& table_of(reacted.0).unwrap().room.board[y][x] == if x == placement.0.0 && y
                == placement.0.1 {
                placement.1
            } else {
                before.board[y][x]
            }
        }),
{
    let table = table_of(session).unwrap();
    lemma_placement_sets_one_cell(table.room.board, ruling.placement.unwrap(), x, y);
}

/// A ruling that places no stone, whether it is a pass, names a player or
/// names nobody, and every refusal, whomever it names, leave the session in
/// its room and the room as it was: board, roster and turn. Nothing is sent
/// and the connection is left alone.
pub proof fn lemma_ruling_without_cell_keeps_room(
    session: SessionView,
    answer: Result<MoveView, Seq<char>>,
)
    requires
        table_of(session) is Some,
        !(answer matches Ok(ruling) && ruling.placement is Some),
    ensures
        ({
            let before = table_of(session).unwrap();
            let reacted = react_to_message(session, ServerMessageView::PlaceResponse(answer));
            &&& table_of(reacted.0) matches Some(table) && table.room == before.room
                && !table.awaiting_ruling && table.transcript == before.transcript
                && table.leaving == before.leaving
            &&& reacted.1 == redrawing()
            &&& reacted.0.username == session.username
            &&& reacted.0.room_name == session.room_name
        }),
{
}

/// While a session stays in its room, the room keeps its name, its capacity
/// and the local player, and the board changes only through a ruling that
/// places a stone.
pub proof fn lemma_room_identity_is_fixed(session: SessionView, event: EventView)
    requires
        table_of(session) is Some,
        table_of(react(session, event).0) is Some,
    ensures
        ({
            let before = table_of(session).unwrap().room;
            let after = table_of(react(session, event).0).unwrap().room;
            &&& after.self_player == before.self_player
            &&& after.name == before.name
            &&& after.capacity == before.capacity
            &&& !(delivered(event) matches Some(ServerMessageView::PlaceResponse(Ok(ruling)))
                && ruling.placement is Some) ==> after.board == before.board
        }),
{
}

/// A turn notice naming a seated player makes that player the one to move
/// and, unless the player to move had left, changes nothing else about the
/// room.
pub proof fn lemma_next_turn(session: SessionView, name: Seq<char>)
    requires
        table_of(session) matches Some(table) && roster_has(table.room.players, name)
            && !table.leaving,
    ensures
        table_of(react_to_message(session, ServerMessageView::NextTurn(name)).0) matches Some(
            after,
        ) && after.room == (RoomView {
            current_player: name,
            ..table_of(session).unwrap().room
        }),
{
}

/// Unseating any player but the one to move takes that player off the
/// roster and leaves everyone else seated; board and turn stay as they
/// were.
pub proof fn lemma_player_remove(session: SessionView, gone: Seq<char>, other: Seq<char>)
    requires
        session_well_formed(session),
        table_of(session) matches Some(table) && gone != table.room.current_player,
        other != gone,
    ensures
        ({
            let before = table_of(session).unwrap().room;
            let reacted = react_to_message(session, ServerMessageView::PlayerRemove(gone));
            &&& table_of(reacted.0) matches Some(table) && table.room == (RoomView {
                players: roster_remove(before.players, gone),
                ..before
            })
            &&& !roster_has(roster_remove(before.players, gone), gone)
            &&& roster_has(roster_remove(before.players, gone), other) <==> roster_has(
                before.players,
                other,
            )
        }),
{
    let before = table_of(session).unwrap().room;
    lemma_remove_keeps_roster(before.players, gone, other);
}

/// When the player to move leaves, the session stays in its room and the
/// room stays as it was, the player still seated; once the turn passes to
/// another seated player, the one who left is off the roster.
pub proof fn lemma_departure_waits_for_the_turn(session: SessionView, next: Seq<char>)
    requires
        session_well_formed(session),
        table_of(session) matches Some(table) && roster_has(table.room.players, next) && next
            != table.room.current_player,
    ensures
        ({
            let before = table_of(session).unwrap().room;
            let left = react_to_message(
                session,
                ServerMessageView::PlayerRemove(before.current_player),
            );
            let passed = react_to_message(left.0, ServerMessageView::NextTurn(next));
            &&& left.1 == redrawing()
            &&& table_of(left.0) matches Some(table) && table.room == before && table.leaving
            &&& passed.1 == redrawing()
            &&& table_of(passed.0) matches Some(table) && !table.leaving && table.room == (RoomView {
                players: roster_remove(before.players, before.current_player),
                current_player: next,
                ..before
            })
            &&& !roster_has(
                roster_remove(before.players, before.current_player),
                before.current_player,
            )
            &&& roster_has(roster_remove(before.players, before.current_player), next)
        }),
{
    let before = table_of(session).unwrap().room;
    lemma_remove_keeps_roster(before.players, before.current_player, next);
}

/// A refusal naming a seated player flags that player and leaves the room
/// as it was.
pub proof fn lemma_refusal_flags_player(session: SessionView, offender: Seq<char>)
    requires
        table_of(session) matches Some(table) && roster_has(table.room.players, offender),
    ensures
        table_of(
            react_to_message(session, ServerMessageView::PlaceResponse(Err(offender))).0,
        ) matches Some(after) && after.flagged == Some(offender) && after.room == table_of(
            session,
        ).unwrap().room,
{
}

} // verus!
