//! What the user is told: for each notice, the form field it is about and
//! the words shown beside it.

use vstd::prelude::*;
use crate::logic::Stone;
use crate::machine::{LoginRejection, Notice};
use crate::protocol::RoomCreateError;

verus! {

/// A field of the login form.
#[derive(Clone, Copy, Debug, PartialEq, Eq, Structural)]
pub enum Field {
    Server,
    Username,
    Room,
}

/// The field that `notice` is about.
pub open spec fn notice_field(notice: Notice) -> Field {
    match notice {
        Notice::ConnectionFailed => Field::Server,
        Notice::ConnectionClosed => Field::Server,
        Notice::ProtocolViolation => Field::Server,
        Notice::LoginRejected(LoginRejection::RoomFull) => Field::Room,
        Notice::LoginRejected(LoginRejection::UsernameTaken) => Field::Username,
        Notice::LoginRejected(LoginRejection::RoomNameTooLong) => Field::Room,
        Notice::LoginRejected(LoginRejection::UsernameTooLong) => Field::Username,
        Notice::RoomCreateRejected(_) => Field::Room,
    }
}

/// The words that go with `notice`.
pub open spec fn notice_message(notice: Notice) -> Seq<char> {
    match notice {
        Notice::ConnectionFailed => "Could not join server: Unable to connect to server"@,
        Notice::ConnectionClosed => "Disconnected: The connection to the server was closed"@,
        Notice::ProtocolViolation => "Disconnected: The server sent a message that could not be understood"@,
        Notice::LoginRejected(LoginRejection::RoomFull) => "Could not join room: Room is full"@,
        Notice::LoginRejected(LoginRejection::UsernameTaken) => "Invalid username: Username is taken"@,
        Notice::LoginRejected(LoginRejection::RoomNameTooLong) => "Room name too long: Max room name is 8 characters"@,
        Notice::LoginRejected(LoginRejection::UsernameTooLong) => "Username too long: Max length is 16 characters"@,
        Notice::RoomCreateRejected(RoomCreateError::RoomNameTooLong) => "Room name too long: Max room name is 8 characters"@,
        Notice::RoomCreateRejected(RoomCreateError::RoomNameTaken) => "Could not create room: Room name is taken"@,
    }
}

impl Notice {
    /// The form field that this notice is about.
    pub fn field(&self) -> (field: Field)
        ensures
            field == notice_field(*self),
    {
        match self {
            Notice::ConnectionFailed => Field::Server,
            Notice::ConnectionClosed => Field::Server,
            Notice::ProtocolViolation => Field::Server,
            Notice::LoginRejected(LoginRejection::RoomFull) => Field::Room,
            Notice::LoginRejected(LoginRejection::UsernameTaken) => Field::Username,
            Notice::LoginRejected(LoginRejection::RoomNameTooLong) => Field::Room,
            Notice::LoginRejected(LoginRejection::UsernameTooLong) => Field::Username,
            Notice::RoomCreateRejected(_) => Field::Room,
        }
    }

    /// The words shown to the user for this notice.
    pub fn message(&self) -> (message: &'static str)
        ensures
            message@ == notice_message(*self),
    {
        match self {
            Notice::ConnectionFailed => "Could not join server: Unable to connect to server",
            Notice::ConnectionClosed => "Disconnected: The connection to the server was closed",
            Notice::ProtocolViolation => "Disconnected: The server sent a message that could not be understood",
            Notice::LoginRejected(LoginRejection::RoomFull) => "Could not join room: Room is full",
            Notice::LoginRejected(LoginRejection::UsernameTaken) => "Invalid username: Username is taken",
            Notice::LoginRejected(LoginRejection::RoomNameTooLong) => "Room name too long: Max room name is 8 characters",
            Notice::LoginRejected(LoginRejection::UsernameTooLong) => "Username too long: Max length is 16 characters",
            Notice::RoomCreateRejected(RoomCreateError::RoomNameTooLong) => "Room name too long: Max room name is 8 characters",
            Notice::RoomCreateRejected(RoomCreateError::RoomNameTaken) => "Could not create room: Room name is taken",
        }
    }
}

/// The name of a stone's colour.
pub open spec fn stone_name(stone: Stone) -> Seq<char> {
    match stone {
        Stone::Black => "Black"@,
        Stone::White => "White"@,
    }
}

impl Stone {
    /// The name of this stone's colour, as shown in the roster.
    pub fn name(&self) -> (name: &'static str)
        ensures
            name@ == stone_name(*self),
    {
        match self {
            Stone::Black => "Black",
            Stone::White => "White",
        }
    }
}

} // verus!
