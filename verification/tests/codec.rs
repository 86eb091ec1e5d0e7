use rengo_client::codec::{decode, decode_client_message, encode, encode_server_message, DecodeError};
use rengo_client::logic::{Board, InvalidMove, Move, Position, Stone};
use rengo_client::protocol::{ClientMessage, LoginError, RoomCreateError, ServerMessage};
use rengo_client::room::{Player, Room};

fn text(s: &str) -> String {
    s.to_string()
}

fn small_room() -> Room {
    let mut stones = vec![vec![None; 2]; 2];
    stones[1][0] = Some(Stone::White);
    Room {
        name: text("club1"),
        capacity: 4,
        board: Board { stones },
        players: vec![
            Player { username: text("alice"), stone: Stone::Black },
            Player { username: text("bob"), stone: Stone::White },
        ],
        current_player: text("alice"),
        self_player: text("bob"),
    }
}

fn client_messages() -> Vec<ClientMessage> {
    vec![
        ClientMessage::Login(text("alice"), text("club1")),
        ClientMessage::Login(text(""), text("")),
        ClientMessage::Login(text("sixteen_chars_ab"), text("8letters")),
        ClientMessage::Login(text("zo\u{e9}\u{4e16}\u{1f600}"), text("\u{7f}\u{80}\u{7ff}\u{800}\u{ffff}\u{10000}\u{10ffff}")),
        ClientMessage::RoomCreate(text("club1"), 4, 9, 9),
        ClientMessage::RoomCreate(text(""), 0, 0, 255),
        ClientMessage::Place(None),
        ClientMessage::Place(Some(Position(0, 0))),
        ClientMessage::Place(Some(Position(18, 255))),
        ClientMessage::Chat(text("<alice>: hello")),
        ClientMessage::Chat(text("")),
    ]
}

fn server_messages() -> Vec<ServerMessage> {
    vec![
        ServerMessage::LoginResponse(Ok(small_room())),
        ServerMessage::LoginResponse(Ok(Room {
            name: text(""),
            capacity: 0,
            board: Board { stones: vec![] },
            players: vec![],
            current_player: text(""),
            self_player: text(""),
        })),
        ServerMessage::LoginResponse(Err(LoginError::RoomFull)),
        ServerMessage::LoginResponse(Err(LoginError::UsernameTaken)),
        ServerMessage::LoginResponse(Err(LoginError::RoomNameTooLong)),
        ServerMessage::LoginResponse(Err(LoginError::UsernameTooLong)),
        ServerMessage::LoginResponse(Err(LoginError::RoomDoesNotExist(text("club1")))),
        ServerMessage::LoginResponse(Err(LoginError::RoomDoesNotExist(text("")))),
        ServerMessage::RoomCreateResponse(Ok(None)),
        ServerMessage::RoomCreateResponse(Ok(Some(small_room()))),
        ServerMessage::RoomCreateResponse(Err(RoomCreateError::RoomNameTooLong)),
        ServerMessage::RoomCreateResponse(Err(RoomCreateError::RoomNameTaken)),
        ServerMessage::PlaceResponse(Ok(Move(Some((Position(3, 4), Some(Stone::Black))), Some(text("alice"))))),
        ServerMessage::PlaceResponse(Ok(Move(Some((Position(3, 4), None)), None))),
        ServerMessage::PlaceResponse(Ok(Move(None, Some(text("carol"))))),
        ServerMessage::PlaceResponse(Ok(Move(None, None))),
        ServerMessage::PlaceResponse(Err(InvalidMove(text("carol")))),
        ServerMessage::PlayerAdd(Player { username: text("sixteen_chars_ab"), stone: Stone::White }),
        ServerMessage::PlayerRemove(text("bob")),
        ServerMessage::NextTurn(text("bob")),
        ServerMessage::Chat(text("<bob>: \u{4f60}\u{597d}")),
        ServerMessage::Chat(text("")),
        ServerMessage::AlreadyLoggedIn,
    ]
}

#[test]
fn client_messages_round_trip() {
    for message in client_messages() {
        assert_eq!(decode_client_message(&encode(&message)), Ok(message));
    }
}

#[test]
fn server_messages_round_trip() {
    for message in server_messages() {
        let frame = encode_server_message(&message);
        assert_eq!(decode(&frame), Ok(message));
    }
}

#[test]
fn boundary_strings_round_trip() {
    for name in ["", "a", "8letters", "sixteen_chars_ab"] {
        let login = ClientMessage::Login(text(name), text(name));
        assert_eq!(decode_client_message(&encode(&login)), Ok(login));
        let turn = ServerMessage::NextTurn(text(name));
        assert_eq!(decode(&encode_server_message(&turn)), Ok(turn));
    }
}

#[test]
fn login_layout_is_exact() {
    let frame = encode(&ClientMessage::Login(text("al"), text("r1")));
    assert_eq!(
        frame,
        vec![
            0, 0, 0, 0, // variant
            2, 0, 0, 0, 0, 0, 0, 0, b'a', b'l', // username
            2, 0, 0, 0, 0, 0, 0, 0, b'r', b'1', // room
        ]
    );
}

#[test]
fn room_create_layout_is_exact() {
    let frame = encode(&ClientMessage::RoomCreate(text("c"), 4, 9, 13));
    assert_eq!(frame, vec![1, 0, 0, 0, 1, 0, 0, 0, 0, 0, 0, 0, b'c', 4, 9, 13]);
}

#[test]
fn place_layout_is_exact() {
    assert_eq!(encode(&ClientMessage::Place(None)), vec![2, 0, 0, 0, 0]);
    assert_eq!(encode(&ClientMessage::Place(Some(Position(3, 18)))), vec![2, 0, 0, 0, 1, 3, 18]);
}

#[test]
fn chat_layout_counts_bytes_not_characters() {
    let frame = encode(&ClientMessage::Chat(text("\u{e9}")));
    assert_eq!(frame, vec![3, 0, 0, 0, 2, 0, 0, 0, 0, 0, 0, 0, 0xc3, 0xa9]);
}

#[test]
fn server_layouts_are_exact() {
    assert_eq!(encode_server_message(&ServerMessage::AlreadyLoggedIn), vec![7, 0, 0, 0]);
    assert_eq!(
        encode_server_message(&ServerMessage::LoginResponse(Err(LoginError::UsernameTaken))),
        vec![0, 0, 0, 0, 1, 0, 0, 0, 1, 0, 0, 0]
    );
    assert_eq!(
        encode_server_message(&ServerMessage::RoomCreateResponse(Ok(None))),
        vec![1, 0, 0, 0, 0, 0, 0, 0, 0]
    );
    assert_eq!(
        encode_server_message(&ServerMessage::PlayerAdd(Player { username: text("b"), stone: Stone::White })),
        vec![3, 0, 0, 0, 1, 0, 0, 0, 0, 0, 0, 0, b'b', 1, 0, 0, 0]
    );
    assert_eq!(
        encode_server_message(&ServerMessage::PlaceResponse(Ok(Move(
            Some((Position(1, 2), Some(Stone::Black))),
            None
        )))),
        vec![2, 0, 0, 0, 0, 0, 0, 0, 1, 1, 2, 1, 0, 0, 0, 0, 0]
    );
}

#[test]
fn room_layout_is_exact() {
    let room = Room {
        name: text("r"),
        capacity: 2,
        board: Board { stones: vec![vec![Some(Stone::White)]] },
        players: vec![Player { username: text("a"), stone: Stone::Black }],
        current_player: text("a"),
        self_player: text("a"),
    };
    let mut expected: Vec<u8> = vec![0, 0, 0, 0, 0, 0, 0, 0];
    expected.extend([1, 0, 0, 0, 0, 0, 0, 0, b'r']); // name
    expected.push(2); // capacity
    expected.extend([1, 0, 0, 0, 0, 0, 0, 0]); // rows
    expected.extend([1, 0, 0, 0, 0, 0, 0, 0]); // cells of row 0
    expected.extend([1, 1, 0, 0, 0]); // a white stone
    expected.extend([1, 0, 0, 0, 0, 0, 0, 0]); // players
    expected.extend([1, 0, 0, 0, 0, 0, 0, 0, b'a']); // filed under
    expected.extend([1, 0, 0, 0, 0, 0, 0, 0, b'a', 0, 0, 0, 0]); // player
    expected.extend([1, 0, 0, 0, 0, 0, 0, 0, b'a']); // current player
    expected.extend([1, 0, 0, 0, 0, 0, 0, 0, b'a']); // self player
    assert_eq!(encode_server_message(&ServerMessage::LoginResponse(Ok(room))), expected);
}

#[test]
fn client_frames_match_bincode() {
    assert_eq!(
        encode(&ClientMessage::Login(text("alice"), text("club1"))),
        bincode::serialize(&(0u32, "alice", "club1")).unwrap()
    );
    assert_eq!(
        encode(&ClientMessage::RoomCreate(text("club1"), 4, 9, 9)),
        bincode::serialize(&(1u32, "club1", 4u8, 9u8, 9u8)).unwrap()
    );
    assert_eq!(
        encode(&ClientMessage::Place(Some(Position(3, 4)))),
        bincode::serialize(&(2u32, Some((3u8, 4u8)))).unwrap()
    );
    assert_eq!(
        encode(&ClientMessage::Place(None)),
        bincode::serialize(&(2u32, None::<(u8, u8)>)).unwrap()
    );
    assert_eq!(
        encode(&ClientMessage::Chat(text("<alice>: \u{4f60}\u{597d}"))),
        bincode::serialize(&(3u32, "<alice>: \u{4f60}\u{597d}")).unwrap()
    );
}

#[test]
fn server_frames_are_read_as_bincode_writes_them() {
    let frame = bincode::serialize(&(0u32, Err::<u8, (u32, &str)>((4u32, "club1")))).unwrap();
    assert_eq!(
        decode(&frame),
        Ok(ServerMessage::LoginResponse(Err(LoginError::RoomDoesNotExist(text("club1")))))
    );
    let frame = bincode::serialize(&(1u32, Ok::<Option<u8>, u32>(None))).unwrap();
    assert_eq!(decode(&frame), Ok(ServerMessage::RoomCreateResponse(Ok(None))));
    let frame = bincode::serialize(&(1u32, Err::<Option<u8>, u32>(1u32))).unwrap();
    assert_eq!(
        decode(&frame),
        Ok(ServerMessage::RoomCreateResponse(Err(RoomCreateError::RoomNameTaken)))
    );
    let ruling = (Some(((3u8, 4u8), Some(1u32))), Some("alice"));
    let frame = bincode::serialize(&(2u32, Ok::<_, &str>(ruling))).unwrap();
    assert_eq!(
        decode(&frame),
        Ok(ServerMessage::PlaceResponse(Ok(Move(
            Some((Position(3, 4), Some(Stone::White))),
            Some(text("alice"))
        ))))
    );
    let frame = bincode::serialize(&(2u32, Err::<u8, &str>("carol"))).unwrap();
    assert_eq!(decode(&frame), Ok(ServerMessage::PlaceResponse(Err(InvalidMove(text("carol"))))));
    let frame = bincode::serialize(&(3u32, ("bob", 1u32))).unwrap();
    assert_eq!(
        decode(&frame),
        Ok(ServerMessage::PlayerAdd(Player { username: text("bob"), stone: Stone::White }))
    );
    let frame = bincode::serialize(&(5u32, "bob")).unwrap();
    assert_eq!(decode(&frame), Ok(ServerMessage::NextTurn(text("bob"))));
    let frame = bincode::serialize(&7u32).unwrap();
    assert_eq!(decode(&frame), Ok(ServerMessage::AlreadyLoggedIn));
}

#[test]
fn room_frame_is_read_as_bincode_writes_it() {
    let board: Vec<Vec<Option<u32>>> = vec![vec![None, None], vec![Some(1), None]];
    let mut players = std::collections::BTreeMap::new();
    players.insert("alice", ("alice", 0u32));
    players.insert("bob", ("bob", 1u32));
    let room = ("club1", 4u8, board, players, "alice", "bob");
    let frame = bincode::serialize(&(0u32, Ok::<_, u32>(room))).unwrap();
    assert_eq!(decode(&frame), Ok(ServerMessage::LoginResponse(Ok(small_room()))));
    assert_eq!(encode_server_message(&ServerMessage::LoginResponse(Ok(small_room()))), frame);
}

#[test]
fn truncated_frames_are_errors() {
    for message in server_messages() {
        let frame = encode_server_message(&message);
        for cut in 0..frame.len() {
            assert_eq!(decode(&frame[..cut]), Err(DecodeError));
        }
    }
    for message in client_messages() {
        let frame = encode(&message);
        for cut in 0..frame.len() {
            assert_eq!(decode_client_message(&frame[..cut]), Err(DecodeError));
        }
    }
}

#[test]
fn empty_frame_is_an_error() {
    assert_eq!(decode(&[]), Err(DecodeError));
    assert_eq!(decode_client_message(&[]), Err(DecodeError));
}

#[test]
fn unknown_variants_are_errors() {
    assert_eq!(decode(&[8, 0, 0, 0]), Err(DecodeError));
    assert_eq!(decode(&[7, 1, 0, 0]), Err(DecodeError));
    assert_eq!(decode(&[0, 0, 0, 0, 2, 0, 0, 0]), Err(DecodeError));
    assert_eq!(decode(&[0, 0, 0, 0, 1, 0, 0, 0, 5, 0, 0, 0]), Err(DecodeError));
    assert_eq!(decode(&[1, 0, 0, 0, 1, 0, 0, 0, 2, 0, 0, 0]), Err(DecodeError));
    assert_eq!(decode(&[1, 0, 0, 0, 0, 0, 0, 0, 2]), Err(DecodeError));
    assert_eq!(decode_client_message(&[4, 0, 0, 0]), Err(DecodeError));
    assert_eq!(decode_client_message(&[2, 0, 0, 0, 2, 0, 0]), Err(DecodeError));
    // a stone that is neither black nor white
    assert_eq!(
        decode(&[3, 0, 0, 0, 1, 0, 0, 0, 0, 0, 0, 0, b'b', 2, 0, 0, 0]),
        Err(DecodeError)
    );
}

#[test]
fn text_that_is_not_utf8_is_an_error() {
    assert_eq!(decode(&[6, 0, 0, 0, 1, 0, 0, 0, 0, 0, 0, 0, 0xff]), Err(DecodeError));
    assert_eq!(decode(&[6, 0, 0, 0, 2, 0, 0, 0, 0, 0, 0, 0, 0xc3, 0x28]), Err(DecodeError));
    // an overlong form and a surrogate
    assert_eq!(decode(&[6, 0, 0, 0, 2, 0, 0, 0, 0, 0, 0, 0, 0xc0, 0x80]), Err(DecodeError));
    assert_eq!(
        decode(&[6, 0, 0, 0, 3, 0, 0, 0, 0, 0, 0, 0, 0xed, 0xa0, 0x80]),
        Err(DecodeError)
    );
    assert_eq!(
        decode(&[6, 0, 0, 0, 2, 0, 0, 0, 0, 0, 0, 0, 0xc3, 0xa9]),
        Ok(ServerMessage::Chat(text("\u{e9}")))
    );
}

#[test]
fn text_longer_than_the_frame_is_an_error() {
    assert_eq!(decode(&[6, 0, 0, 0, 5, 0, 0, 0, 0, 0, 0, 0, b'a', b'b']), Err(DecodeError));
    assert_eq!(
        decode(&[6, 0, 0, 0, 0xff, 0xff, 0xff, 0xff, 0xff, 0xff, 0xff, 0xff, b'a']),
        Err(DecodeError)
    );
}

#[test]
fn list_longer_than_the_frame_is_an_error() {
    // a login answer whose board claims 2^64 - 1 rows
    let mut frame: Vec<u8> = vec![0, 0, 0, 0, 0, 0, 0, 0];
    frame.extend([0, 0, 0, 0, 0, 0, 0, 0]); // name ""
    frame.push(4);
    frame.extend([0xff; 8]);
    assert_eq!(decode(&frame), Err(DecodeError));
}

#[test]
fn player_filed_under_another_name_is_an_error() {
    let board: Vec<Vec<Option<u32>>> = vec![];
    let players = vec![("alice", ("bob", 0u32))];
    let room = ("club1", 4u8, board, players, "alice", "bob");
    let frame = bincode::serialize(&(0u32, Ok::<_, u32>(room))).unwrap();
    assert_eq!(decode(&frame), Err(DecodeError));
}

#[test]
fn bytes_after_the_message_are_not_looked_at() {
    let mut frame = encode_server_message(&ServerMessage::NextTurn(text("bob")));
    frame.extend([1, 2, 3]);
    assert_eq!(decode(&frame), Ok(ServerMessage::NextTurn(text("bob"))));
    let mut frame = encode(&ClientMessage::Place(None));
    frame.push(9);
    assert_eq!(decode_client_message(&frame), Ok(ClientMessage::Place(None)));
}

#[test]
fn decoded_room_is_an_independent_value() {
    let frame = encode_server_message(&ServerMessage::LoginResponse(Ok(small_room())));
    match decode(&frame) {
        Ok(ServerMessage::LoginResponse(Ok(room))) => {
            assert!(room.is_well_formed());
            assert_eq!(room.board.side(), 2);
            assert_eq!(room.board.stones[1][0], Some(Stone::White));
            assert_eq!(room.stone_of(&text("bob")), Some(Stone::White));
        }
        other => panic!("unexpected: {:?}", other),
    }
}
