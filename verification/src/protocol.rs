//! The messages exchanged with the game server.

use vstd::prelude::*;
use crate::logic::{InvalidMove, Move, MoveView, Position};
use crate::room::{Player, PlayerView, Room, RoomView};

verus! {

/// Why a login was turned down.
#[derive(Clone, Debug, PartialEq, Eq)]
pub enum LoginError {
    RoomFull,
    UsernameTaken,
    RoomNameTooLong,
    UsernameTooLong,
    RoomDoesNotExist(String),
}

/// The model of a [`LoginError`].
pub enum LoginErrorView {
    RoomFull,
    UsernameTaken,
    RoomNameTooLong,
    UsernameTooLong,
    RoomDoesNotExist(Seq<char>),
}

impl View for LoginError {
    type V = LoginErrorView;

    open spec fn view(&self) -> LoginErrorView {
        match *self {
            LoginError::RoomFull => LoginErrorView::RoomFull,
            LoginError::UsernameTaken => LoginErrorView::UsernameTaken,
            LoginError::RoomNameTooLong => LoginErrorView::RoomNameTooLong,
            LoginError::UsernameTooLong => LoginErrorView::UsernameTooLong,
            LoginError::RoomDoesNotExist(name) => LoginErrorView::RoomDoesNotExist(name@),
        }
    }
}

/// Why the creation of a room was turned down.
#[derive(Clone, Copy, Debug, PartialEq, Eq, Structural)]
pub enum RoomCreateError {
    RoomNameTooLong,
    RoomNameTaken,
}

/// What the client sends.
#[derive(Clone, Debug, PartialEq, Eq)]
pub enum ClientMessage {
    /// Username, then room name.
    Login(String, String),
    /// Room name, capacity, board width, board height.
    RoomCreate(String, u8, u8, u8),
    /// A stone on the given cell, or a pass.
    Place(Option<Position<u8>>),
    Chat(String),
}

/// The model of a [`ClientMessage`].
pub enum ClientMessageView {
    Login(Seq<char>, Seq<char>),
    RoomCreate(Seq<char>, u8, u8, u8),
    Place(Option<Position<u8>>),
    Chat(Seq<char>),
}

impl View for ClientMessage {
    type V = ClientMessageView;

    open spec fn view(&self) -> ClientMessageView {
        match *self {
            ClientMessage::Login(username, room) => ClientMessageView::Login(username@, room@),
            ClientMessage::RoomCreate(room, capacity, width, height) => ClientMessageView::RoomCreate(
                room@,
                capacity,
                width,
                height,
            ),
            ClientMessage::Place(cell) => ClientMessageView::Place(cell),
            ClientMessage::Chat(text) => ClientMessageView::Chat(text@),
        }
    }
}

/// What the server sends.
#[derive(Debug, PartialEq, Eq)]
pub enum ServerMessage {
    LoginResponse(Result<Room, LoginError>),
    /// `Ok(None)`: the room now exists and the client is not yet in it.
    RoomCreateResponse(Result<Option<Room>, RoomCreateError>),
    PlaceResponse(Result<Move, InvalidMove>),
    PlayerAdd(Player),
    PlayerRemove(String),
    NextTurn(String),
    Chat(String),
    AlreadyLoggedIn,
}

/// The model of a [`ServerMessage`].
pub enum ServerMessageView {
    LoginResponse(Result<RoomView, LoginErrorView>),
    RoomCreateResponse(Result<Option<RoomView>, RoomCreateError>),
    PlaceResponse(Result<MoveView, Seq<char>>),
    PlayerAdd(PlayerView),
    PlayerRemove(Seq<char>),
    NextTurn(Seq<char>),
    Chat(Seq<char>),
    AlreadyLoggedIn,
}

impl View for ServerMessage {
    type V = ServerMessageView;

    open spec fn view(&self) -> ServerMessageView {
        match *self {
            ServerMessage::LoginResponse(Ok(room)) => ServerMessageView::LoginResponse(Ok(room@)),
            ServerMessage::LoginResponse(Err(error)) => ServerMessageView::LoginResponse(
                Err(error@),
            ),
            ServerMessage::RoomCreateResponse(Ok(Some(room))) => ServerMessageView::RoomCreateResponse(
                Ok(Some(room@)),
            ),
            ServerMessage::RoomCreateResponse(Ok(None)) => ServerMessageView::RoomCreateResponse(
                Ok(None),
            ),
            ServerMessage::RoomCreateResponse(Err(error)) => ServerMessageView::RoomCreateResponse(
                Err(error),
            ),
            ServerMessage::PlaceResponse(Ok(ruling)) => ServerMessageView::PlaceResponse(
                Ok(ruling@),
            ),
            ServerMessage::PlaceResponse(Err(refusal)) => ServerMessageView::PlaceResponse(
                Err(refusal@),
            ),
            ServerMessage::PlayerAdd(player) => ServerMessageView::PlayerAdd(player@),
            ServerMessage::PlayerRemove(name) => ServerMessageView::PlayerRemove(name@),
            ServerMessage::NextTurn(name) => ServerMessageView::NextTurn(name@),
            ServerMessage::Chat(text) => ServerMessageView::Chat(text@),
            ServerMessage::AlreadyLoggedIn => ServerMessageView::AlreadyLoggedIn,
        }
    }
}

} // verus!
