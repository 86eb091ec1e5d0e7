//! The session: the client's mirror of connection and room state, and its
//! reactions to user intents, transport reports and server messages.
//!
//! The session performs nothing itself. Each event handler updates the
//! session and returns a [`Reaction`]; the caller carries it out: it opens or
//! closes the transport, sends the message, shows the notice, and redraws.

use vstd::prelude::*;
use vstd::string::StringExecFns;
use crate::codec::decode;
use crate::logic::Position;
use crate::machine::{
    chat_line, click_target, flag, in_phase, initial_session, lemma_message_keeps_well_formed,
    quiet, react_at_table, react_to_intent, react_to_login, react_to_message,
    react_to_transport, redrawing, seated, sending, session_well_formed, IntentView,
    LoginRejection,
    Notice, PhaseView, ReactionView, SessionView, TableView, TransportCommandView,
    TransportEventView,
};
use crate::mapper::{cell_at, layout, BoardGeometry};
use crate::protocol::{ClientMessage, LoginError, RoomCreateError, ServerMessage};
use crate::room::Room;

verus! {

/// An order to the transport.
#[derive(Clone, Debug, PartialEq, Eq)]
pub enum TransportCommand {
    /// Open a connection to this address.
    Open(String),
    /// Close the connection and release it.
    Close,
}

impl View for TransportCommand {
    type V = TransportCommandView;

    open spec fn view(&self) -> TransportCommandView {
        match *self {
            TransportCommand::Open(server) => TransportCommandView::Open(server@),
            TransportCommand::Close => TransportCommandView::Close,
        }
    }
}

/// What the caller has to do after an event, in this order: show the
/// notice, send the message, carry out the transport order, redraw.
#[derive(Clone, Debug, PartialEq, Eq)]
pub struct Reaction {
    pub transport: Option<TransportCommand>,
    pub send: Option<ClientMessage>,
    pub notice: Option<Notice>,
    pub redraw: bool,
}

impl View for Reaction {
    type V = ReactionView;

    open spec fn view(&self) -> ReactionView {
        ReactionView {
            transport: match self.transport {
                Some(command) => Some(command@),
                None => None,
            },
            send: match self.send {
                Some(message) => Some(message@),
                None => None,
            },
            notice: self.notice,
            redraw: self.redraw,
        }
    }
}

/// A user intent.
#[derive(Clone, Debug, PartialEq, Eq)]
pub enum Intent {
    SubmitLogin { server: String, username: String, room: String },
    SubmitRoomCreate { capacity: u8, width: u8, height: u8 },
    PointerMove(Position<i32>),
    PointerClick(Position<i32>),
    PointerLeave,
    Pass,
    Quit,
    SendChat(String),
}

impl View for Intent {
    type V = IntentView;

    open spec fn view(&self) -> IntentView {
        match *self {
            Intent::SubmitLogin { server, username, room } => IntentView::SubmitLogin {
                server: server@,
                username: username@,
                room: room@,
            },
            Intent::SubmitRoomCreate { capacity, width, height } => IntentView::SubmitRoomCreate {
                capacity,
                width,
                height,
            },
            Intent::PointerMove(pointer) => IntentView::PointerMove(pointer),
            Intent::PointerClick(pointer) => IntentView::PointerClick(pointer),
            Intent::PointerLeave => IntentView::PointerLeave,
            Intent::Pass => IntentView::Pass,
            Intent::Quit => IntentView::Quit,
            Intent::SendChat(text) => IntentView::SendChat(text@),
        }
    }
}

/// What the transport reports.
#[derive(Clone, Debug, PartialEq, Eq)]
pub enum TransportEvent {
    /// The connection is open.
    Opened,
    /// The connection could not be made, or broke.
    Failed,
    /// The connection was closed.
    Closed,
    /// One inbound binary frame.
    Frame(Vec<u8>),
}

impl View for TransportEvent {
    type V = TransportEventView;

    open spec fn view(&self) -> TransportEventView {
        match *self {
            TransportEvent::Opened => TransportEventView::Opened,
            TransportEvent::Failed => TransportEventView::Failed,
            TransportEvent::Closed => TransportEventView::Closed,
            TransportEvent::Frame(bytes) => TransportEventView::Frame(bytes@),
        }
    }
}

/// The lines that a vector of strings stands for.
pub open spec fn lines_of(lines: Seq<String>) -> Seq<Seq<char>> {
    Seq::new(lines.len(), |i: int| lines[i]@)
}

/// What a session holds while in a room.
#[derive(Clone, Debug, PartialEq, Eq)]
pub struct Table {
    pub room: Room,
    /// A placement or pass was sent and nothing was ruled since.
    pub awaiting_ruling: bool,
    /// The player whose last attempt was turned down.
    pub flagged: Option<String>,
    /// The player to move has left the room. The room keeps them seated
    /// until the turn passes, so that the turn always lies with a seated
    /// player.
    pub leaving: bool,
    /// The chat lines received, oldest first.
    pub transcript: Vec<String>,
    /// The grid measurements of the last render pass.
    pub geometry: Option<BoardGeometry>,
    /// The last known pointer position over the board.
    pub pointer: Option<Position<i32>>,
}

impl View for Table {
    type V = TableView;

    open spec fn view(&self) -> TableView {
        TableView {
            room: self.room@,
            awaiting_ruling: self.awaiting_ruling,
            flagged: match self.flagged {
                Some(name) => Some(name@),
                None => None,
            },
            leaving: self.leaving,
            transcript: lines_of(self.transcript@),
            geometry: self.geometry,
            pointer: self.pointer,
        }
    }
}

/// The phase of a session.
#[derive(Clone, Debug, PartialEq, Eq)]
pub enum Phase {
    Disconnected,
    Connecting,
    LoggingIn,
    /// The room of this name does not exist yet and may be created.
    RoomNegotiation(String),
    InRoom(Table),
}

impl View for Phase {
    type V = PhaseView;

    open spec fn view(&self) -> PhaseView {
        match *self {
            Phase::Disconnected => PhaseView::Disconnected,
            Phase::Connecting => PhaseView::Connecting,
            Phase::LoggingIn => PhaseView::LoggingIn,
            Phase::RoomNegotiation(name) => PhaseView::RoomNegotiation(name@),
            Phase::InRoom(table) => PhaseView::InRoom(table@),
        }
    }
}

/// The reaction that asks for nothing.
fn quiet_reaction() -> (r: Reaction)
    ensures
        r@ == quiet(),
{
    Reaction { transport: None, send: None, notice: None, redraw: false }
}

/// The reaction that only asks for a render pass.
fn redraw_reaction() -> (r: Reaction)
    ensures
        r@ == redrawing(),
{
    Reaction { transport: None, send: None, notice: None, redraw: true }
}

/// The reaction that sends `message`, with or without a render pass.
fn send_reaction(message: ClientMessage, redraw: bool) -> (r: Reaction)
    ensures
        r@ == (ReactionView { redraw, ..sending(message@) }),
{
    Reaction { transport: None, send: Some(message), notice: None, redraw }
}

/// The reaction that only shows `notice`.
fn notice_reaction(notice: Notice) -> (r: Reaction)
    ensures
        r@ == (ReactionView { notice: Some(notice), ..quiet() }),
{
    Reaction { transport: None, send: None, notice: Some(notice), redraw: false }
}

/// Leaving the connected phases.
fn drop_connection(notice: Option<Notice>) -> (r: (Phase, Reaction))
    ensures
        r.0@ == PhaseView::Disconnected,
        r.1@ == (ReactionView {
            transport: Some(TransportCommandView::Close),
            send: None,
            notice,
            redraw: true,
        }),
{
    (
        Phase::Disconnected,
        Reaction { transport: Some(TransportCommand::Close), send: None, notice, redraw: true },
    )
}

/// Ends the wait for a ruling and flags the player called `name`, if seated.
fn flag_player(table: Table, name: String, Ghost(session): Ghost<SessionView>) -> (r: (
    Phase,
    Reaction,
))
    requires
        session.phase == PhaseView::InRoom(table@),
        session_well_formed(session),
    ensures
        (in_phase(session, r.0@), r.1@) == flag(session, table@, name@),
{
    let mut table = table;
    if table.room.find_player(&name).is_some() {
        table.flagged = Some(name);
    }
    table.awaiting_ruling = false;
    (Phase::InRoom(table), redraw_reaction())
}

/// Reacts to a message while in a room.
fn message_at_table(table: Table, message: ServerMessage, Ghost(session): Ghost<SessionView>) -> (r:
    (Phase, Reaction))
    requires
        session.phase == PhaseView::InRoom(table@),
        session_well_formed(session),
    ensures
        (in_phase(session, r.0@), r.1@) == react_to_message(session, message@),
{
    let mut table = table;
    match message {
        ServerMessage::PlaceResponse(Ok(ruling)) => match ruling.0 {
            Some(placement) => {
                if table.room.place(placement) {
                    table.flagged = None;
                    table.awaiting_ruling = false;
                    (Phase::InRoom(table), redraw_reaction())
                } else {
                    drop_connection(Some(Notice::ProtocolViolation))
                }
            },
            None => match ruling.1 {
                Some(name) => flag_player(table, name, Ghost(session)),
                None => {
                    table.awaiting_ruling = false;
                    (Phase::InRoom(table), redraw_reaction())
                },
            },
        },
        ServerMessage::PlaceResponse(Err(refusal)) => flag_player(
            table,
            refusal.0,
            Ghost(session),
        ),
        ServerMessage::PlayerAdd(player) => {
            if player.username == table.room.current_player {
                table.leaving = false;
            }
            table.room.add_player(player);
            (Phase::InRoom(table), redraw_reaction())
        },
        ServerMessage::PlayerRemove(name) => {
            if table.room.remove_player(&name) {
                let flagged_gone = match &table.flagged {
                    Some(flagged) => *flagged == name,
                    None => false,
                };
                if flagged_gone {
                    table.flagged = None;
                }
            } else {
                table.leaving = true;
            }
            (Phase::InRoom(table), redraw_reaction())
        },
        ServerMessage::NextTurn(name) => {
            let before = table.room.current_player.clone();
            if table.room.set_current_player(name) {
                if table.leaving && table.room.remove_player(&before) {
                    table.leaving = false;
                }
                table.flagged = None;
                table.awaiting_ruling = false;
                (Phase::InRoom(table), redraw_reaction())
            } else {
                drop_connection(Some(Notice::ProtocolViolation))
            }
        },
        ServerMessage::Chat(text) => {
            proof {
                assert(lines_of(table.transcript@.push(text)) =~= lines_of(
                    table.transcript@,
                ).push(text@));
            }
            table.transcript.push(text);
            (Phase::InRoom(table), redraw_reaction())
        },
        ServerMessage::LoginResponse(_) => (Phase::InRoom(table), quiet_reaction()),
        ServerMessage::RoomCreateResponse(_) => (Phase::InRoom(table), quiet_reaction()),
        ServerMessage::AlreadyLoggedIn => (Phase::InRoom(table), quiet_reaction()),
    }
}

/// Reacts to the answer to a login while awaiting it.
fn login_answered(answer: Result<Room, LoginError>, Ghost(session): Ghost<SessionView>) -> (r: (
    Phase,
    Reaction,
))
    requires
        session.phase is LoggingIn,
    ensures
        (in_phase(session, r.0@), r.1@) == react_to_message(
            session,
            ServerMessage::LoginResponse(answer)@,
        ),
{
    match answer {
        Ok(room) => {
            if room.is_well_formed() {
                let table = Table {
                    room,
                    awaiting_ruling: false,
                    flagged: None,
                    leaving: false,
                    transcript: Vec::new(),
                    geometry: None,
                    pointer: None,
                };
                assert(lines_of(table.transcript@) =~= Seq::<Seq<char>>::empty());
                (Phase::InRoom(table), redraw_reaction())
            } else {
                drop_connection(Some(Notice::ProtocolViolation))
            }
        },
        Err(LoginError::RoomDoesNotExist(name)) => (
            Phase::RoomNegotiation(name),
            redraw_reaction(),
        ),
        Err(LoginError::RoomFull) => (
            Phase::LoggingIn,
            notice_reaction(Notice::LoginRejected(LoginRejection::RoomFull)),
        ),
        Err(LoginError::UsernameTaken) => (
            Phase::LoggingIn,
            notice_reaction(Notice::LoginRejected(LoginRejection::UsernameTaken)),
        ),
        Err(LoginError::RoomNameTooLong) => (
            Phase::LoggingIn,
            notice_reaction(Notice::LoginRejected(LoginRejection::RoomNameTooLong)),
        ),
        Err(LoginError::UsernameTooLong) => (
            Phase::LoggingIn,
            notice_reaction(Notice::LoginRejected(LoginRejection::UsernameTooLong)),
        ),
    }
}

/// Reacts to the answer to a room creation while negotiating the room
/// called `name`.
fn room_create_answered(
    name: String,
    answer: Result<Option<Room>, RoomCreateError>,
    username: &String,
    room_name: &String,
    Ghost(session): Ghost<SessionView>,
) -> (r: (Phase, Reaction))
    requires
        session.phase == PhaseView::RoomNegotiation(name@),
        session.username == username@,
        session.room_name == room_name@,
    ensures
        (in_phase(session, r.0@), r.1@) == react_to_message(
            session,
            ServerMessage::RoomCreateResponse(answer)@,
        ),
{
    match answer {
        Ok(None) => (
            Phase::LoggingIn,
            send_reaction(ClientMessage::Login(username.clone(), room_name.clone()), true),
        ),
        Ok(Some(_)) => (Phase::RoomNegotiation(name), quiet_reaction()),
        Err(error) => (
            Phase::RoomNegotiation(name),
            notice_reaction(Notice::RoomCreateRejected(error)),
        ),
    }
}

/// Reacts to a message in any phase.
fn message_in_phase(
    phase: Phase,
    message: ServerMessage,
    username: &String,
    room_name: &String,
    Ghost(session): Ghost<SessionView>,
) -> (r: (Phase, Reaction))
    requires
        session == (SessionView {
            phase: phase@,
            username: username@,
            room_name: room_name@,
        }),
        session_well_formed(session),
    ensures
        (in_phase(session, r.0@), r.1@) == react_to_message(session, message@),
        session_well_formed(in_phase(session, r.0@)),
{
    proof {
        lemma_message_keeps_well_formed(session, message@);
    }
    match phase {
        Phase::LoggingIn => match message {
            ServerMessage::LoginResponse(answer) => login_answered(answer, Ghost(session)),
            _ => (Phase::LoggingIn, quiet_reaction()),
        },
        Phase::RoomNegotiation(name) => match message {
            ServerMessage::RoomCreateResponse(answer) => room_create_answered(
                name,
                answer,
                username,
                room_name,
                Ghost(session),
            ),
            _ => (Phase::RoomNegotiation(name), quiet_reaction()),
        },
        Phase::InRoom(table) => message_at_table(table, message, Ghost(session)),
        Phase::Disconnected => (Phase::Disconnected, quiet_reaction()),
        Phase::Connecting => (Phase::Connecting, quiet_reaction()),
    }
}

/// The line that goes out when `speaker` says `text`.
fn chat_line_text(speaker: &String, text: &String) -> (line: String)
    ensures
        line@ == chat_line(speaker@, text@),
{
    let mut line = String::from_str("<");
    line.append(speaker.as_str());
    line.append(">: ");
    line.append(text.as_str());
    proof {
        reveal_strlit("<");
        reveal_strlit(">: ");
        assert("<"@ =~= seq!['<']);
        assert(">: "@ =~= seq!['>', ':', ' ']);
    }
    line
}

/// The cell that a click at `pointer` asks for.
fn click_cell(table: &Table, pointer: Position<i32>) -> (r: Option<Position<u8>>)
    ensures
        r == click_target(table@, pointer),
{
    let geometry = match table.geometry {
        Some(geometry) => geometry,
        None => {
            return None;
        },
    };
    match geometry.locate(pointer) {
        Some(cell) => {
            let side: usize = table.room.board.side();
            if (cell.0 as usize) < side && (cell.1 as usize) < side && cell.0 <= 255 && cell.1
                <= 255 {
                Some(Position(cell.0 as u8, cell.1 as u8))
            } else {
                None
            }
        },
        None => None,
    }
}

/// Reacts to an intent while in a room.
fn intent_at_table(table: Table, intent: Intent, Ghost(session): Ghost<SessionView>) -> (r: (
    Phase,
    Reaction,
))
    requires
        session.phase == PhaseView::InRoom(table@),
    ensures
        (in_phase(session, r.0@), r.1@) == react_at_table(session, table@, intent@),
{
    let mut table = table;
    match intent {
        Intent::PointerMove(pointer) => {
            table.pointer = Some(pointer);
            (Phase::InRoom(table), redraw_reaction())
        },
        Intent::PointerLeave => {
            table.pointer = None;
            (Phase::InRoom(table), redraw_reaction())
        },
        Intent::PointerClick(pointer) => match click_cell(&table, pointer) {
            Some(cell) => {
                if table.awaiting_ruling {
                    (Phase::InRoom(table), redraw_reaction())
                } else {
                    table.awaiting_ruling = true;
                    (Phase::InRoom(table), send_reaction(ClientMessage::Place(Some(cell)), true))
                }
            },
            None => (Phase::InRoom(table), redraw_reaction()),
        },
        Intent::Pass => {
            if table.awaiting_ruling {
                (Phase::InRoom(table), quiet_reaction())
            } else {
                table.awaiting_ruling = true;
                (Phase::InRoom(table), send_reaction(ClientMessage::Place(None), true))
            }
        },
        Intent::SendChat(text) => {
            if text.as_str().is_empty() {
                (Phase::InRoom(table), quiet_reaction())
            } else {
                let line = chat_line_text(&table.room.self_player, &text);
                (Phase::InRoom(table), send_reaction(ClientMessage::Chat(line), false))
            }
        },
        Intent::SubmitLogin { .. } => (Phase::InRoom(table), quiet_reaction()),
        Intent::SubmitRoomCreate { .. } => (Phase::InRoom(table), quiet_reaction()),
        Intent::Quit => (Phase::InRoom(table), quiet_reaction()),
    }
}

/// Reacts to a submitted login in `phase`, with the credentials already
/// taken over.
fn login_in_phase(
    phase: Phase,
    server: String,
    username: &String,
    room_name: &String,
    Ghost(session): Ghost<SessionView>,
) -> (r: (Phase, Reaction))
    requires
        session.phase == phase@,
    ensures
        (
            SessionView { phase: r.0@, username: username@, room_name: room_name@ },
            r.1@,
        ) == react_to_login(session, server@, username@, room_name@),
{
    match phase {
        Phase::Disconnected => (
            Phase::Connecting,
            Reaction {
                transport: Some(TransportCommand::Open(server)),
                send: None,
                notice: None,
                redraw: true,
            },
        ),
        Phase::Connecting => (Phase::Connecting, quiet_reaction()),
        Phase::LoggingIn => (
            Phase::LoggingIn,
            send_reaction(ClientMessage::Login(username.clone(), room_name.clone()), false),
        ),
        Phase::RoomNegotiation(_) => (
            Phase::LoggingIn,
            send_reaction(ClientMessage::Login(username.clone(), room_name.clone()), true),
        ),
        Phase::InRoom(table) => (
            Phase::InRoom(table),
            send_reaction(ClientMessage::Login(username.clone(), room_name.clone()), false),
        ),
    }
}

impl Phase {
    /// Whether this is `Disconnected`.
    pub fn is_disconnected(&self) -> (b: bool)
        ensures
            b == (self@ is Disconnected),
    {
        match self {
            Phase::Disconnected => true,
            _ => false,
        }
    }

    /// Whether this is `Connecting`.
    pub fn is_connecting(&self) -> (b: bool)
        ensures
            b == (self@ is Connecting),
    {
        match self {
            Phase::Connecting => true,
            _ => false,
        }
    }
}

/// The cell under the pointer of `session`, if it is in a room, the pointer
/// is over the board and the grid has been measured.
pub open spec fn hover_target(session: SessionView) -> Option<(int, int)> {
    match session.phase {
        PhaseView::InRoom(table) => match (table.geometry, table.pointer) {
            (Some(geometry), Some(pointer)) => cell_at(
                geometry,
                pointer.0 as int,
                pointer.1 as int,
            ),
            _ => None,
        },
        _ => None,
    }
}

/// The client's mirror of connection and room state.
#[derive(Debug)]
pub struct Session {
    phase: Phase,
    username: String,
    room_name: String,
}

impl View for Session {
    type V = SessionView;

    closed spec fn view(&self) -> SessionView {
        SessionView { phase: self.phase@, username: self.username@, room_name: self.room_name@ }
    }
}

impl Session {
    #[verifier::type_invariant]
    spec fn well_formed(self) -> bool {
        session_well_formed(self@)
    }

    /// The session a process starts with: disconnected, with no room.
    pub fn new() -> (session: Session)
        ensures
            session@ == initial_session(),
    {
        Session { phase: Phase::Disconnected, username: String::new(), room_name: String::new() }
    }

    /// The phase the session is in, with the table when it is in a room.
    pub fn phase(&self) -> (phase: &Phase)
        ensures
            phase@ == self@.phase,
            session_well_formed(self@),
    {
        proof {
            use_type_invariant(self);
        }
        &self.phase
    }

    /// Reacts to a message from the server.
    pub fn on_message(&mut self, message: ServerMessage) -> (reaction: Reaction)
        ensures
            (final(self)@, reaction@) == react_to_message(old(self)@, message@),
    {
        proof {
            use_type_invariant(&*self);
        }
        let ghost before = self@;
        let mut phase = Phase::Disconnected;
        std::mem::swap(&mut self.phase, &mut phase);
        let (next, reaction) = message_in_phase(
            phase,
            message,
            &self.username,
            &self.room_name,
            Ghost(before),
        );
        self.phase = next;
        reaction
    }

    /// Reacts to what the transport reports.
    pub fn on_transport(&mut self, event: TransportEvent) -> (reaction: Reaction)
        ensures
            (final(self)@, reaction@) == react_to_transport(old(self)@, event@),
    {
        proof {
            use_type_invariant(&*self);
        }
        if self.phase.is_disconnected() {
            return quiet_reaction();
        }
        match event {
            TransportEvent::Opened => {
                if self.phase.is_connecting() {
                    self.phase = Phase::LoggingIn;
                    send_reaction(
                        ClientMessage::Login(self.username.clone(), self.room_name.clone()),
                        true,
                    )
                } else {
                    quiet_reaction()
                }
            },
            TransportEvent::Failed => {
                let (next, reaction) = drop_connection(Some(Notice::ConnectionFailed));
                self.phase = next;
                reaction
            },
            TransportEvent::Closed => {
                let (next, reaction) = drop_connection(Some(Notice::ConnectionClosed));
                self.phase = next;
                reaction
            },
            TransportEvent::Frame(bytes) => match decode(bytes.as_slice()) {
                Ok(message) => self.on_message(message),
                Err(_) => {
                    let (next, reaction) = drop_connection(Some(Notice::ProtocolViolation));
                    self.phase = next;
                    reaction
                },
            },
        }
    }

    /// Reacts to a user intent.
    pub fn on_intent(&mut self, intent: Intent) -> (reaction: Reaction)
        ensures
            (final(self)@, reaction@) == react_to_intent(old(self)@, intent@),
    {
        proof {
            use_type_invariant(&*self);
        }
        let ghost before = self@;
        match intent {
            Intent::SubmitLogin { server, username, room } => {
                self.username = username;
                self.room_name = room;
                let mut phase = Phase::Disconnected;
                std::mem::swap(&mut self.phase, &mut phase);
                let (next, reaction) = login_in_phase(
                    phase,
                    server,
                    &self.username,
                    &self.room_name,
                    Ghost(before),
                );
                self.phase = next;
                reaction
            },
            Intent::Quit => {
                if self.phase.is_disconnected() {
                    quiet_reaction()
                } else {
                    let (next, reaction) = drop_connection(None);
                    self.phase = next;
                    reaction
                }
            },
            Intent::SubmitRoomCreate { capacity, width, height } => match &self.phase {
                Phase::RoomNegotiation(name) => send_reaction(
                    ClientMessage::RoomCreate(name.clone(), capacity, width, height),
                    false,
                ),
                _ => quiet_reaction(),
            },
            intent => {
                let mut phase = Phase::Disconnected;
                std::mem::swap(&mut self.phase, &mut phase);
                let (next, reaction) = match phase {
                    Phase::InRoom(table) => intent_at_table(table, intent, Ghost(before)),
                    phase => (phase, quiet_reaction()),
                };
                self.phase = next;
                reaction
            },
        }
    }

    /// Measures the grid for a render pass on a square surface `surface`
    /// units wide and keeps the measurements for the clicks that follow.
    /// Outside a room there is nothing to measure.
    pub fn measure(&mut self, surface: u32) -> (geometry: Option<BoardGeometry>)
        ensures
            match old(self)@.phase {
                PhaseView::InRoom(table) => {
                    &&& geometry == if table.room.board.len() <= u32::MAX {
                        layout(surface, table.room.board.len() as u32)
                    } else {
                        None
                    }
                    &&& final(self)@ == seated(old(self)@, TableView { geometry, ..table })
                },
                _ => geometry is None && final(self)@ == old(self)@,
            },
    {
        proof {
            use_type_invariant(&*self);
        }
        let mut phase = Phase::Disconnected;
        std::mem::swap(&mut self.phase, &mut phase);
        match phase {
            Phase::InRoom(table) => {
                let mut table = table;
                let side: usize = table.room.board.side();
                let geometry = if side <= 0xffff_ffff {
                    BoardGeometry::measure(surface, side as u32)
                } else {
                    None
                };
                table.geometry = geometry;
                self.phase = Phase::InRoom(table);
                geometry
            },
            phase => {
                self.phase = phase;
                None
            },
        }
    }

    /// Keeps grid measurements that the caller took itself, in place of
    /// those of [`Session::measure`], for the clicks that follow. Outside a
    /// room there is nothing to keep them for.
    pub fn use_geometry(&mut self, geometry: Option<BoardGeometry>)
        ensures
            match old(self)@.phase {
                PhaseView::InRoom(table) => final(self)@ == seated(
                    old(self)@,
                    TableView { geometry, ..table },
                ),
                _ => final(self)@ == old(self)@,
            },
    {
        proof {
            use_type_invariant(&*self);
        }
        let mut phase = Phase::Disconnected;
        std::mem::swap(&mut self.phase, &mut phase);
        match phase {
            Phase::InRoom(table) => {
                let mut table = table;
                table.geometry = geometry;
                self.phase = Phase::InRoom(table);
            },
            phase => {
                self.phase = phase;
            },
        }
    }

    /// The cell under the pointer, for the hover preview: the cell that the
    /// last known pointer position resolves to under the measurements of the
    /// last render pass.
    pub fn hover_cell(&self) -> (r: Option<Position<u32>>)
        ensures
            match r {
                Some(cell) => hover_target(self@) == Some((cell.0 as int, cell.1 as int)),
                None => hover_target(self@) is None,
            },
    {
        match &self.phase {
            Phase::InRoom(table) => match (table.geometry, table.pointer) {
                (Some(geometry), Some(pointer)) => geometry.locate(pointer),
                _ => None,
            },
            _ => None,
        }
    }

    /// The username of the last submitted login.
    pub fn username(&self) -> (r: &String)
        ensures
            r@ == self@.username,
    {
        &self.username
    }

    /// The room name of the last submitted login.
    pub fn room_name(&self) -> (r: &String)
        ensures
            r@ == self@.room_name,
    {
        &self.room_name
    }
}

} // verus!
