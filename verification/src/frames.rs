//! The wire forms of the messages. Each message travels as one frame: the
//! 32-bit index of its variant, followed by the variant's fields. A result is
//! written as an enumeration of two variants, success first.

use vstd::prelude::*;
use crate::format::{
    lemma_move_parsed, lemma_move_round_trip, lemma_optional_position_parsed,
    lemma_optional_position_round_trip, lemma_optional_room_parsed,
    lemma_optional_room_round_trip, lemma_player_parsed, lemma_player_round_trip,
    lemma_room_parsed, lemma_room_round_trip, move_bytes, move_fits,
    optional_position_bytes, optional_room_bytes, parse_move, parse_optional_position,
    parse_optional_room, parse_player, parse_room, player_bytes, room_bytes, room_fits,
};
use crate::logic::MoveView;
use crate::protocol::{ClientMessageView, LoginErrorView, RoomCreateError, ServerMessageView};
use crate::room::RoomView;
use crate::wire::{
    lemma_text_parsed, lemma_text_round_trip, lemma_u32_parsed, lemma_u32_round_trip,
    lemma_u8_parsed, lemma_u8_round_trip, parse_text, parse_u32, parse_u8, text_bytes,
    text_fits, u32_bytes, u8_bytes, Parsed,
};

verus! {

/// The wire form of a login error.
pub open spec fn login_error_bytes(error: LoginErrorView) -> Seq<u8> {
    match error {
        LoginErrorView::RoomFull => u32_bytes(0),
        LoginErrorView::UsernameTaken => u32_bytes(1),
        LoginErrorView::RoomNameTooLong => u32_bytes(2),
        LoginErrorView::UsernameTooLong => u32_bytes(3),
        LoginErrorView::RoomDoesNotExist(name) => u32_bytes(4) + text_bytes(name),
    }
}

/// Reads a login error.
pub open spec fn parse_login_error(s: Seq<u8>) -> Parsed<LoginErrorView> {
    match parse_u32(s) {
        Some((tag, rest)) => if tag == 0 {
            Some((LoginErrorView::RoomFull, rest))
        } else if tag == 1 {
            Some((LoginErrorView::UsernameTaken, rest))
        } else if tag == 2 {
            Some((LoginErrorView::RoomNameTooLong, rest))
        } else if tag == 3 {
            Some((LoginErrorView::UsernameTooLong, rest))
        } else if tag == 4 {
            match parse_text(rest) {
                Some((name, rest)) => Some((LoginErrorView::RoomDoesNotExist(name), rest)),
                None => None,
            }
        } else {
            None
        },
        None => None,
    }
}

/// The wire form of a room-creation error.
pub open spec fn room_create_error_bytes(error: RoomCreateError) -> Seq<u8> {
    match error {
        RoomCreateError::RoomNameTooLong => u32_bytes(0),
        RoomCreateError::RoomNameTaken => u32_bytes(1),
    }
}

/// Reads a room-creation error.
pub open spec fn parse_room_create_error(s: Seq<u8>) -> Parsed<RoomCreateError> {
    match parse_u32(s) {
        Some((tag, rest)) => if tag == 0 {
            Some((RoomCreateError::RoomNameTooLong, rest))
        } else if tag == 1 {
            Some((RoomCreateError::RoomNameTaken, rest))
        } else {
            None
        },
        None => None,
    }
}

/// The wire form of a client message.
pub open spec fn client_message_bytes(message: ClientMessageView) -> Seq<u8> {
    match message {
        ClientMessageView::Login(username, room) => u32_bytes(0) + text_bytes(username)
            + text_bytes(room),
        ClientMessageView::RoomCreate(room, capacity, width, height) => u32_bytes(1) + text_bytes(
            room,
        ) + u8_bytes(capacity) + u8_bytes(width) + u8_bytes(height),
        ClientMessageView::Place(cell) => u32_bytes(2) + optional_position_bytes(cell),
        ClientMessageView::Chat(text) => u32_bytes(3) + text_bytes(text),
    }
}

/// Reads the fields of a login.
pub open spec fn parse_login(s: Seq<u8>) -> Parsed<ClientMessageView> {
    match parse_text(s) {
        Some((username, rest)) => match parse_text(rest) {
            Some((room, rest)) => Some((ClientMessageView::Login(username, room), rest)),
            None => None,
        },
        None => None,
    }
}

/// Reads the fields of a room creation.
pub open spec fn parse_room_create(s: Seq<u8>) -> Parsed<ClientMessageView> {
    match parse_text(s) {
        Some((room, rest)) => match parse_u8(rest) {
            Some((capacity, rest)) => match parse_u8(rest) {
                Some((width, rest)) => match parse_u8(rest) {
                    Some((height, rest)) => Some(
                        (ClientMessageView::RoomCreate(room, capacity, width, height), rest),
                    ),
                    None => None,
                },
                None => None,
            },
            None => None,
        },
        None => None,
    }
}

/// Reads a client message.
pub open spec fn parse_client_message(s: Seq<u8>) -> Parsed<ClientMessageView> {
    match parse_u32(s) {
        Some((tag, rest)) => if tag == 0 {
            parse_login(rest)
        } else if tag == 1 {
            parse_room_create(rest)
        } else if tag == 2 {
            match parse_optional_position(rest) {
                Some((cell, rest)) => Some((ClientMessageView::Place(cell), rest)),
                None => None,
            }
        } else if tag == 3 {
            match parse_text(rest) {
                Some((text, rest)) => Some((ClientMessageView::Chat(text), rest)),
                None => None,
            }
        } else {
            None
        },
        None => None,
    }
}

/// Whether the lengths in `message` can be written as 64-bit integers.
pub open spec fn client_message_fits(message: ClientMessageView) -> bool {
    match message {
        ClientMessageView::Login(username, room) => text_fits(username) && text_fits(room),
        ClientMessageView::RoomCreate(room, _, _, _) => text_fits(room),
        ClientMessageView::Place(_) => true,
        ClientMessageView::Chat(text) => text_fits(text),
    }
}

/// The wire form of the answer to a login.
pub open spec fn login_response_bytes(answer: Result<RoomView, LoginErrorView>) -> Seq<u8> {
    match answer {
        Ok(room) => u32_bytes(0) + room_bytes(room),
        Err(error) => u32_bytes(1) + login_error_bytes(error),
    }
}

/// Reads the answer to a login.
pub open spec fn parse_login_response(s: Seq<u8>) -> Parsed<Result<RoomView, LoginErrorView>> {
    match parse_u32(s) {
        Some((tag, rest)) => if tag == 0 {
            match parse_room(rest) {
                Some((room, rest)) => Some((Ok(room), rest)),
                None => None,
            }
        } else if tag == 1 {
            match parse_login_error(rest) {
                Some((error, rest)) => Some((Err(error), rest)),
                None => None,
            }
        } else {
            None
        },
        None => None,
    }
}

/// The wire form of the answer to a room creation.
pub open spec fn room_create_response_bytes(
    answer: Result<Option<RoomView>, RoomCreateError>,
) -> Seq<u8> {
    match answer {
        Ok(room) => u32_bytes(0) + optional_room_bytes(room),
        Err(error) => u32_bytes(1) + room_create_error_bytes(error),
    }
}

/// Reads the answer to a room creation.
pub open spec fn parse_room_create_response(s: Seq<u8>) -> Parsed<
    Result<Option<RoomView>, RoomCreateError>,
> {
    match parse_u32(s) {
        Some((tag, rest)) => if tag == 0 {
            match parse_optional_room(rest) {
                Some((room, rest)) => Some((Ok(room), rest)),
                None => None,
            }
        } else if tag == 1 {
            match parse_room_create_error(rest) {
                Some((error, rest)) => Some((Err(error), rest)),
                None => None,
            }
        } else {
            None
        },
        None => None,
    }
}

/// The wire form of the answer to a placement.
pub open spec fn place_response_bytes(answer: Result<MoveView, Seq<char>>) -> Seq<u8> {
    match answer {
        Ok(ruling) => u32_bytes(0) + move_bytes(ruling),
        Err(offender) => u32_bytes(1) + text_bytes(offender),
    }
}

/// Reads the answer to a placement.
pub open spec fn parse_place_response(s: Seq<u8>) -> Parsed<Result<MoveView, Seq<char>>> {
    match parse_u32(s) {
        Some((tag, rest)) => if tag == 0 {
            match parse_move(rest) {
                Some((ruling, rest)) => Some((Ok(ruling), rest)),
                None => None,
            }
        } else if tag == 1 {
            match parse_text(rest) {
                Some((offender, rest)) => Some((Err(offender), rest)),
                None => None,
            }
        } else {
            None
        },
        None => None,
    }
}

/// The wire form of a server message.
pub open spec fn server_message_bytes(message: ServerMessageView) -> Seq<u8> {
    match message {
        ServerMessageView::LoginResponse(answer) => u32_bytes(0) + login_response_bytes(answer),
        ServerMessageView::RoomCreateResponse(answer) => u32_bytes(1)
            + room_create_response_bytes(answer),
        ServerMessageView::PlaceResponse(answer) => u32_bytes(2) + place_response_bytes(answer),
        ServerMessageView::PlayerAdd(player) => u32_bytes(3) + player_bytes(player),
        ServerMessageView::PlayerRemove(name) => u32_bytes(4) + text_bytes(name),
        ServerMessageView::NextTurn(name) => u32_bytes(5) + text_bytes(name),
        ServerMessageView::Chat(text) => u32_bytes(6) + text_bytes(text),
        ServerMessageView::AlreadyLoggedIn => u32_bytes(7),
    }
}

/// Reads a server message.
pub open spec fn parse_server_message(s: Seq<u8>) -> Parsed<ServerMessageView> {
    match parse_u32(s) {
        Some((tag, rest)) => if tag == 0 {
            match parse_login_response(rest) {
                Some((answer, rest)) => Some((ServerMessageView::LoginResponse(answer), rest)),
                None => None,
            }
        } else if tag == 1 {
            match parse_room_create_response(rest) {
                Some((answer, rest)) => Some(
                    (ServerMessageView::RoomCreateResponse(answer), rest),
                ),
                None => None,
            }
        } else if tag == 2 {
            match parse_place_response(rest) {
                Some((answer, rest)) => Some((ServerMessageView::PlaceResponse(answer), rest)),
                None => None,
            }
        } else if tag == 3 {
            match parse_player(rest) {
                Some((player, rest)) => Some((ServerMessageView::PlayerAdd(player), rest)),
                None => None,
            }
        } else if tag == 4 {
            match parse_text(rest) {
                Some((name, rest)) => Some((ServerMessageView::PlayerRemove(name), rest)),
                None => None,
            }
        } else if tag == 5 {
            match parse_text(rest) {
                Some((name, rest)) => Some((ServerMessageView::NextTurn(name), rest)),
                None => None,
            }
        } else if tag == 6 {
            match parse_text(rest) {
                Some((text, rest)) => Some((ServerMessageView::Chat(text), rest)),
                None => None,
            }
        } else if tag == 7 {
            Some((ServerMessageView::AlreadyLoggedIn, rest))
        } else {
            None
        },
        None => None,
    }
}

/// Whether the lengths in `message` can be written as 64-bit integers.
pub open spec fn server_message_fits(message: ServerMessageView) -> bool {
    match message {
        ServerMessageView::LoginResponse(Ok(room)) => room_fits(room),
        ServerMessageView::LoginResponse(Err(LoginErrorView::RoomDoesNotExist(name))) => text_fits(
            name,
        ),
        ServerMessageView::LoginResponse(Err(_)) => true,
        ServerMessageView::RoomCreateResponse(Ok(Some(room))) => room_fits(room),
        ServerMessageView::RoomCreateResponse(_) => true,
        ServerMessageView::PlaceResponse(Ok(ruling)) => move_fits(ruling),
        ServerMessageView::PlaceResponse(Err(offender)) => text_fits(offender),
        ServerMessageView::PlayerAdd(player) => text_fits(player.username),
        ServerMessageView::PlayerRemove(name) => text_fits(name),
        ServerMessageView::NextTurn(name) => text_fits(name),
        ServerMessageView::Chat(text) => text_fits(text),
        ServerMessageView::AlreadyLoggedIn => true,
    }
}

/// A written login error is read back, whatever follows it.
pub proof fn lemma_login_error_round_trip(error: LoginErrorView, rest: Seq<u8>)
    requires
        error matches LoginErrorView::RoomDoesNotExist(name) ==> text_fits(name),
    ensures
        parse_login_error(login_error_bytes(error) + rest) == Some((error, rest)),
{
    match error {
        LoginErrorView::RoomFull => lemma_u32_round_trip(0, rest),
        LoginErrorView::UsernameTaken => lemma_u32_round_trip(1, rest),
        LoginErrorView::RoomNameTooLong => lemma_u32_round_trip(2, rest),
        LoginErrorView::UsernameTooLong => lemma_u32_round_trip(3, rest),
        LoginErrorView::RoomDoesNotExist(name) => {
            lemma_u32_round_trip(4, text_bytes(name) + rest);
            lemma_text_round_trip(name, rest);
            assert(login_error_bytes(error) + rest =~= u32_bytes(4) + (text_bytes(name) + rest));
        },
    }
}

/// A written room-creation error is read back, whatever follows it.
pub proof fn lemma_room_create_error_round_trip(error: RoomCreateError, rest: Seq<u8>)
    ensures
        parse_room_create_error(room_create_error_bytes(error) + rest) == Some((error, rest)),
{
    lemma_u32_round_trip(0, rest);
    lemma_u32_round_trip(1, rest);
}

/// Decoding what was encoded gives the client message back, whatever
/// follows it in the buffer.
pub proof fn lemma_client_message_round_trip(message: ClientMessageView, rest: Seq<u8>)
    requires
        client_message_fits(message),
    ensures
        parse_client_message(client_message_bytes(message) + rest) == Some((message, rest)),
{
    match message {
        ClientMessageView::Login(username, room) => {
            let r2 = text_bytes(room) + rest;
            let r1 = text_bytes(username) + r2;
            lemma_u32_round_trip(0, r1);
            lemma_text_round_trip(username, r2);
            lemma_text_round_trip(room, rest);
            assert(client_message_bytes(message) + rest =~= u32_bytes(0) + r1);
        },
        ClientMessageView::RoomCreate(room, capacity, width, height) => {
            let r4 = u8_bytes(height) + rest;
            let r3 = u8_bytes(width) + r4;
            let r2 = u8_bytes(capacity) + r3;
            let r1 = text_bytes(room) + r2;
            lemma_u32_round_trip(1, r1);
            lemma_text_round_trip(room, r2);
            lemma_u8_round_trip(capacity, r3);
            lemma_u8_round_trip(width, r4);
            lemma_u8_round_trip(height, rest);
            assert(client_message_bytes(message) + rest =~= u32_bytes(1) + r1);
        },
        ClientMessageView::Place(cell) => {
            let r1 = optional_position_bytes(cell) + rest;
            lemma_u32_round_trip(2, r1);
            lemma_optional_position_round_trip(cell, rest);
            assert(client_message_bytes(message) + rest =~= u32_bytes(2) + r1);
        },
        ClientMessageView::Chat(text) => {
            let r1 = text_bytes(text) + rest;
            lemma_u32_round_trip(3, r1);
            lemma_text_round_trip(text, rest);
            assert(client_message_bytes(message) + rest =~= u32_bytes(3) + r1);
        },
    }
}

/// A written answer to a login is read back, whatever follows it.
pub proof fn lemma_login_response_round_trip(
    answer: Result<RoomView, LoginErrorView>,
    rest: Seq<u8>,
)
    requires
        server_message_fits(ServerMessageView::LoginResponse(answer)),
    ensures
        parse_login_response(login_response_bytes(answer) + rest) == Some((answer, rest)),
{
    match answer {
        Ok(room) => {
            lemma_u32_round_trip(0, room_bytes(room) + rest);
            lemma_room_round_trip(room, rest);
            assert(login_response_bytes(answer) + rest =~= u32_bytes(0) + (room_bytes(room)
                + rest));
        },
        Err(error) => {
            lemma_u32_round_trip(1, login_error_bytes(error) + rest);
            lemma_login_error_round_trip(error, rest);
            assert(login_response_bytes(answer) + rest =~= u32_bytes(1) + (login_error_bytes(
                error,
            ) + rest));
        },
    }
}

/// A written answer to a room creation is read back, whatever follows it.
pub proof fn lemma_room_create_response_round_trip(
    answer: Result<Option<RoomView>, RoomCreateError>,
    rest: Seq<u8>,
)
    requires
        server_message_fits(ServerMessageView::RoomCreateResponse(answer)),
    ensures
        parse_room_create_response(room_create_response_bytes(answer) + rest) == Some(
            (answer, rest),
        ),
{
    match answer {
        Ok(room) => {
            lemma_u32_round_trip(0, optional_room_bytes(room) + rest);
            lemma_optional_room_round_trip(room, rest);
            assert(room_create_response_bytes(answer) + rest =~= u32_bytes(0) + (
            optional_room_bytes(room) + rest));
        },
        Err(error) => {
            lemma_u32_round_trip(1, room_create_error_bytes(error) + rest);
            lemma_room_create_error_round_trip(error, rest);
            assert(room_create_response_bytes(answer) + rest =~= u32_bytes(1) + (
            room_create_error_bytes(error) + rest));
        },
    }
}

/// A written answer to a placement is read back, whatever follows it.
pub proof fn lemma_place_response_round_trip(answer: Result<MoveView, Seq<char>>, rest: Seq<u8>)
    requires
        server_message_fits(ServerMessageView::PlaceResponse(answer)),
    ensures
        parse_place_response(place_response_bytes(answer) + rest) == Some((answer, rest)),
{
    match answer {
        Ok(ruling) => {
            lemma_u32_round_trip(0, move_bytes(ruling) + rest);
            lemma_move_round_trip(ruling, rest);
            assert(place_response_bytes(answer) + rest =~= u32_bytes(0) + (move_bytes(ruling)
                + rest));
        },
        Err(offender) => {
            lemma_u32_round_trip(1, text_bytes(offender) + rest);
            lemma_text_round_trip(offender, rest);
            assert(place_response_bytes(answer) + rest =~= u32_bytes(1) + (text_bytes(offender)
                + rest));
        },
    }
}

/// A written variant index is read back in front of the variant's fields.
proof fn lemma_after_tag(tag: u32, fields: Seq<u8>, rest: Seq<u8>)
    ensures
        parse_u32(u32_bytes(tag) + fields + rest) == Some((tag, fields + rest)),
{
    lemma_u32_round_trip(tag, fields + rest);
    assert(u32_bytes(tag) + fields + rest =~= u32_bytes(tag) + (fields + rest));
}

/// Decoding what was encoded gives the server message back, whatever
/// follows it in the buffer.
pub proof fn lemma_server_message_round_trip(message: ServerMessageView, rest: Seq<u8>)
    requires
        server_message_fits(message),
    ensures
        parse_server_message(server_message_bytes(message) + rest) == Some((message, rest)),
{
    match message {
        ServerMessageView::LoginResponse(answer) => {
            lemma_after_tag(0, login_response_bytes(answer), rest);
            lemma_login_response_round_trip(answer, rest);
        },
        ServerMessageView::RoomCreateResponse(answer) => {
            lemma_after_tag(1, room_create_response_bytes(answer), rest);
            lemma_room_create_response_round_trip(answer, rest);
        },
        ServerMessageView::PlaceResponse(answer) => {
            lemma_after_tag(2, place_response_bytes(answer), rest);
            lemma_place_response_round_trip(answer, rest);
        },
        ServerMessageView::PlayerAdd(player) => {
            lemma_after_tag(3, player_bytes(player), rest);
            lemma_player_round_trip(player, rest);
        },
        ServerMessageView::PlayerRemove(name) => {
            lemma_after_tag(4, text_bytes(name), rest);
            lemma_text_round_trip(name, rest);
        },
        ServerMessageView::NextTurn(name) => {
            lemma_after_tag(5, text_bytes(name), rest);
            lemma_text_round_trip(name, rest);
        },
        ServerMessageView::Chat(text) => {
            lemma_after_tag(6, text_bytes(text), rest);
            lemma_text_round_trip(text, rest);
        },
        ServerMessageView::AlreadyLoggedIn => {
            lemma_u32_round_trip(7, rest);
        },
    }
}

/// What was read after a variant index stood behind it.
proof fn lemma_behind_tag(s: Seq<u8>, tag: Seq<u8>, after: Seq<u8>, fields: Seq<u8>, rest: Seq<u8>)
    requires
        s == tag + after,
        after == fields + rest,
    ensures
        s == tag + fields + rest,
{
    assert(tag + (fields + rest) =~= tag + fields + rest);
}

/// A login error that was read stood in front of the rest in its wire form.
pub proof fn lemma_login_error_parsed(s: Seq<u8>)
    ensures
        parse_login_error(s) matches Some((error, rest)) ==> s == login_error_bytes(error) + rest
            && (error matches LoginErrorView::RoomDoesNotExist(name) ==> text_fits(name)),
{
    if let Some((error, rest)) = parse_login_error(s) {
        lemma_u32_parsed(s);
        let (tag, after) = parse_u32(s).unwrap();
        if tag == 4 {
            lemma_text_parsed(after);
            let (name, _) = parse_text(after).unwrap();
            lemma_behind_tag(s, u32_bytes(4), after, text_bytes(name), rest);
        }
    }
}

/// A room-creation error that was read stood in front of the rest in its
/// wire form.
pub proof fn lemma_room_create_error_parsed(s: Seq<u8>)
    ensures
        parse_room_create_error(s) matches Some((error, rest)) ==> s == room_create_error_bytes(
            error,
        ) + rest,
{
    lemma_u32_parsed(s);
}

/// The fields of a login that were read stood in front of the rest.
proof fn lemma_login_parsed(s: Seq<u8>)
    ensures
        parse_login(s) matches Some((ClientMessageView::Login(username, room), rest)) ==> s
            == text_bytes(username) + text_bytes(room) + rest && text_fits(username)
            && text_fits(room),
        parse_login(s) matches Some((message, _)) ==> message is Login,
{
    if let Some((ClientMessageView::Login(username, room), rest)) = parse_login(s) {
        lemma_text_parsed(s);
        let (_, r1) = parse_text(s).unwrap();
        lemma_text_parsed(r1);
        lemma_behind_tag(s, text_bytes(username), r1, text_bytes(room), rest);
    }
}

/// The fields of a room creation that were read stood in front of the
/// rest.
proof fn lemma_room_create_parsed(s: Seq<u8>)
    ensures
        parse_room_create(s) matches Some(
            (ClientMessageView::RoomCreate(room, capacity, width, height), rest),
        ) ==> s == text_bytes(room) + u8_bytes(capacity) + u8_bytes(width) + u8_bytes(height) + rest
            && text_fits(room),
        parse_room_create(s) matches Some((message, _)) ==> message is RoomCreate,
{
    if let Some((ClientMessageView::RoomCreate(room, capacity, width, height), rest)) =
        parse_room_create(s) {
        lemma_text_parsed(s);
        let (_, r1) = parse_text(s).unwrap();
        lemma_u8_parsed(r1);
        let (_, r2) = parse_u8(r1).unwrap();
        lemma_u8_parsed(r2);
        let (_, r3) = parse_u8(r2).unwrap();
        lemma_u8_parsed(r3);
        lemma_behind_tag(r2, u8_bytes(width), r3, u8_bytes(height), rest);
        lemma_behind_tag(r1, u8_bytes(capacity), r2, u8_bytes(width) + u8_bytes(height), rest);
        lemma_behind_tag(
            s,
            text_bytes(room),
            r1,
            u8_bytes(capacity) + (u8_bytes(width) + u8_bytes(height)),
            rest,
        );
        assert(text_bytes(room) + (u8_bytes(capacity) + (u8_bytes(width) + u8_bytes(height)))
            =~= text_bytes(room) + u8_bytes(capacity) + u8_bytes(width) + u8_bytes(height));
    }
}

/// A client message that was read stood in front of the rest in its wire
/// form.
pub proof fn lemma_client_message_parsed(s: Seq<u8>)
    ensures
        parse_client_message(s) matches Some((message, rest)) ==> s == client_message_bytes(
            message,
        ) + rest && client_message_fits(message),
{
    if let Some((message, rest)) = parse_client_message(s) {
        lemma_u32_parsed(s);
        let (tag, after) = parse_u32(s).unwrap();
        if tag == 0 {
            lemma_login_parsed(after);
            if let ClientMessageView::Login(username, room) = message {
                lemma_behind_tag(
                    s,
                    u32_bytes(0),
                    after,
                    text_bytes(username) + text_bytes(room),
                    rest,
                );
                assert(u32_bytes(0) + (text_bytes(username) + text_bytes(room)) =~= u32_bytes(0)
                    + text_bytes(username) + text_bytes(room));
            }
        } else if tag == 1 {
            lemma_room_create_parsed(after);
            if let ClientMessageView::RoomCreate(room, capacity, width, height) = message {
                let fields = text_bytes(room) + u8_bytes(capacity) + u8_bytes(width) + u8_bytes(
                    height,
                );
                lemma_behind_tag(s, u32_bytes(1), after, fields, rest);
                assert(u32_bytes(1) + fields =~= u32_bytes(1) + text_bytes(room) + u8_bytes(
                    capacity,
                ) + u8_bytes(width) + u8_bytes(height));
            }
        } else if tag == 2 {
            lemma_optional_position_parsed(after);
            let (cell, _) = parse_optional_position(after).unwrap();
            lemma_behind_tag(s, u32_bytes(2), after, optional_position_bytes(cell), rest);
        } else {
            lemma_text_parsed(after);
            let (text, _) = parse_text(after).unwrap();
            lemma_behind_tag(s, u32_bytes(3), after, text_bytes(text), rest);
        }
    }
}

/// An answer to a login that was read stood in front of the rest in its
/// wire form.
pub proof fn lemma_login_response_parsed(s: Seq<u8>)
    ensures
        parse_login_response(s) matches Some((answer, rest)) ==> s == login_response_bytes(
            answer,
        ) + rest && server_message_fits(ServerMessageView::LoginResponse(answer)),
{
    if let Some((answer, rest)) = parse_login_response(s) {
        lemma_u32_parsed(s);
        let (tag, after) = parse_u32(s).unwrap();
        if tag == 0 {
            lemma_room_parsed(after);
            let (room, _) = parse_room(after).unwrap();
            lemma_behind_tag(s, u32_bytes(0), after, room_bytes(room), rest);
        } else {
            lemma_login_error_parsed(after);
            let (error, _) = parse_login_error(after).unwrap();
            lemma_behind_tag(s, u32_bytes(1), after, login_error_bytes(error), rest);
        }
    }
}

/// An answer to a room creation that was read stood in front of the rest in
/// its wire form.
pub proof fn lemma_room_create_response_parsed(s: Seq<u8>)
    ensures
        parse_room_create_response(s) matches Some((answer, rest)) ==> s
            == room_create_response_bytes(answer) + rest && server_message_fits(
            ServerMessageView::RoomCreateResponse(answer),
        ),
{
    if let Some((answer, rest)) = parse_room_create_response(s) {
        lemma_u32_parsed(s);
        let (tag, after) = parse_u32(s).unwrap();
        if tag == 0 {
            lemma_optional_room_parsed(after);
            let (room, _) = parse_optional_room(after).unwrap();
            lemma_behind_tag(s, u32_bytes(0), after, optional_room_bytes(room), rest);
        } else {
            lemma_room_create_error_parsed(after);
            let (error, _) = parse_room_create_error(after).unwrap();
            lemma_behind_tag(s, u32_bytes(1), after, room_create_error_bytes(error), rest);
        }
    }
}

/// An answer to a placement that was read stood in front of the rest in its
/// wire form.
pub proof fn lemma_place_response_parsed(s: Seq<u8>)
    ensures
        parse_place_response(s) matches Some((answer, rest)) ==> s == place_response_bytes(
            answer,
        ) + rest && server_message_fits(ServerMessageView::PlaceResponse(answer)),
{
    if let Some((answer, rest)) = parse_place_response(s) {
        lemma_u32_parsed(s);
        let (tag, after) = parse_u32(s).unwrap();
        if tag == 0 {
            lemma_move_parsed(after);
            let (ruling, _) = parse_move(after).unwrap();
            lemma_behind_tag(s, u32_bytes(0), after, move_bytes(ruling), rest);
        } else {
            lemma_text_parsed(after);
            let (offender, _) = parse_text(after).unwrap();
            lemma_behind_tag(s, u32_bytes(1), after, text_bytes(offender), rest);
        }
    }
}

/// A server message that was read stood in front of the rest in its wire
/// form.
pub proof fn lemma_server_message_parsed(s: Seq<u8>)
    ensures
        parse_server_message(s) matches Some((message, rest)) ==> s == server_message_bytes(
            message,
        ) + rest && server_message_fits(message),
{
    if let Some((message, rest)) = parse_server_message(s) {
        lemma_u32_parsed(s);
        let (tag, after) = parse_u32(s).unwrap();
        if tag == 0 {
            lemma_login_response_parsed(after);
            let (answer, _) = parse_login_response(after).unwrap();
            lemma_behind_tag(s, u32_bytes(0), after, login_response_bytes(answer), rest);
        } else if tag == 1 {
            lemma_room_create_response_parsed(after);
            let (answer, _) = parse_room_create_response(after).unwrap();
            lemma_behind_tag(s, u32_bytes(1), after, room_create_response_bytes(answer), rest);
        } else if tag == 2 {
            lemma_place_response_parsed(after);
            let (answer, _) = parse_place_response(after).unwrap();
            lemma_behind_tag(s, u32_bytes(2), after, place_response_bytes(answer), rest);
        } else if tag == 3 {
            lemma_player_parsed(after);
            let (player, _) = parse_player(after).unwrap();
            lemma_behind_tag(s, u32_bytes(3), after, player_bytes(player), rest);
        } else if tag == 4 || tag == 5 || tag == 6 {
            lemma_text_parsed(after);
            let (text, _) = parse_text(after).unwrap();
            lemma_behind_tag(s, u32_bytes(tag), after, text_bytes(text), rest);
        } else {
            assert(u32_bytes(7) + rest == s);
        }
    }
}

/// Whether `frame` begins with the wire form of `message`.
pub open spec fn begins_with_server_message(frame: Seq<u8>, message: ServerMessageView) -> bool {
    &&& server_message_fits(message)
    &&& server_message_bytes(message).len() <= frame.len()
    &&& frame.take(server_message_bytes(message).len() as int) == server_message_bytes(message)
}

/// Whether `frame` begins with the wire form of `message`.
pub open spec fn begins_with_client_message(frame: Seq<u8>, message: ClientMessageView) -> bool {
    &&& client_message_fits(message)
    &&& client_message_bytes(message).len() <= frame.len()
    &&& frame.take(client_message_bytes(message).len() as int) == client_message_bytes(message)
}

/// Reading a frame gives a message exactly when the frame begins with the
/// wire form of that message; no frame begins with the wire forms of two
/// messages.
pub proof fn lemma_server_frame_reads_as(frame: Seq<u8>, message: ServerMessageView)
    ensures
        begins_with_server_message(frame, message) <==> (parse_server_message(frame) matches Some(
            (read, _),
        ) && read == message),
{
    let form = server_message_bytes(message);
    if begins_with_server_message(frame, message) {
        let rest = frame.skip(form.len() as int);
        assert(frame =~= form + rest);
        lemma_server_message_round_trip(message, rest);
    }
    if let Some((read, rest)) = parse_server_message(frame) {
        lemma_server_message_parsed(frame);
        if read == message {
            assert(frame.take(form.len() as int) =~= form);
        }
    }
}

/// Reading a frame gives a message exactly when the frame begins with the
/// wire form of that message; no frame begins with the wire forms of two
/// messages.
pub proof fn lemma_client_frame_reads_as(frame: Seq<u8>, message: ClientMessageView)
    ensures
        begins_with_client_message(frame, message) <==> (parse_client_message(frame) matches Some(
            (read, _),
        ) && read == message),
{
    let form = client_message_bytes(message);
    if begins_with_client_message(frame, message) {
        let rest = frame.skip(form.len() as int);
        assert(frame =~= form + rest);
        lemma_client_message_round_trip(message, rest);
    }
    if let Some((read, rest)) = parse_client_message(frame) {
        lemma_client_message_parsed(frame);
        if read == message {
            assert(frame.take(form.len() as int) =~= form);
        }
    }
}

} // verus!
