use rengo_client::decoration::{column_label, star_cells};
use rengo_client::feedback::Field;
use rengo_client::logic::{Position, Stone};
use rengo_client::machine::{LoginRejection, Notice};
use rengo_client::mapper::surface_for;
use rengo_client::protocol::RoomCreateError;

#[test]
fn notices_name_their_field() {
    assert_eq!(Notice::ConnectionFailed.field(), Field::Server);
    assert_eq!(Notice::ConnectionClosed.field(), Field::Server);
    assert_eq!(Notice::ProtocolViolation.field(), Field::Server);
    assert_eq!(Notice::LoginRejected(LoginRejection::RoomFull).field(), Field::Room);
    assert_eq!(Notice::LoginRejected(LoginRejection::UsernameTaken).field(), Field::Username);
    assert_eq!(Notice::LoginRejected(LoginRejection::RoomNameTooLong).field(), Field::Room);
    assert_eq!(Notice::LoginRejected(LoginRejection::UsernameTooLong).field(), Field::Username);
    assert_eq!(Notice::RoomCreateRejected(RoomCreateError::RoomNameTooLong).field(), Field::Room);
    assert_eq!(Notice::RoomCreateRejected(RoomCreateError::RoomNameTaken).field(), Field::Room);
}

#[test]
fn notices_have_their_words() {
    assert_eq!(
        Notice::ConnectionFailed.message(),
        "Could not join server: Unable to connect to server"
    );
    assert_eq!(
        Notice::LoginRejected(LoginRejection::RoomFull).message(),
        "Could not join room: Room is full"
    );
    assert_eq!(
        Notice::LoginRejected(LoginRejection::UsernameTaken).message(),
        "Invalid username: Username is taken"
    );
    assert_eq!(
        Notice::LoginRejected(LoginRejection::RoomNameTooLong).message(),
        "Room name too long: Max room name is 8 characters"
    );
    assert_eq!(
        Notice::LoginRejected(LoginRejection::UsernameTooLong).message(),
        "Username too long: Max length is 16 characters"
    );
    assert_eq!(
        Notice::RoomCreateRejected(RoomCreateError::RoomNameTooLong).message(),
        "Room name too long: Max room name is 8 characters"
    );
    assert_eq!(
        Notice::RoomCreateRejected(RoomCreateError::RoomNameTaken).message(),
        "Could not create room: Room name is taken"
    );
    assert!(Notice::ConnectionClosed.message().starts_with("Disconnected"));
    assert!(Notice::ProtocolViolation.message().starts_with("Disconnected"));
}

#[test]
fn stones_have_names() {
    assert_eq!(Stone::Black.name(), "Black");
    assert_eq!(Stone::White.name(), "White");
}

#[test]
fn star_points_of_the_customary_boards() {
    assert_eq!(
        star_cells(9),
        vec![Position(2, 2), Position(6, 2), Position(2, 6), Position(6, 6), Position(4, 4)]
    );
    assert_eq!(
        star_cells(13),
        vec![Position(3, 3), Position(9, 3), Position(3, 9), Position(9, 9), Position(6, 6)]
    );
    assert_eq!(
        star_cells(19),
        vec![
            Position(3, 3),
            Position(9, 3),
            Position(15, 3),
            Position(3, 9),
            Position(9, 9),
            Position(15, 9),
            Position(3, 15),
            Position(9, 15),
            Position(15, 15),
        ]
    );
}

#[test]
fn other_boards_have_no_star_points() {
    for side in [0, 1, 2, 5, 8, 10, 12, 14, 18, 20, 21, 255, 1000] {
        assert_eq!(star_cells(side), vec![]);
    }
}

#[test]
fn column_labels_follow_the_alphabet() {
    assert_eq!(column_label(0), "A");
    assert_eq!(column_label(8), "I");
    assert_eq!(column_label(9), "J");
    assert_eq!(column_label(18), "S");
    assert_eq!(column_label(25), "Z");
}

#[test]
fn column_labels_past_the_alphabet_repeat_the_letter() {
    assert_eq!(column_label(26), "A");
    assert_eq!(column_label(27), "BB");
    assert_eq!(column_label(51), "ZZ");
    assert_eq!(column_label(52), "AA");
    assert_eq!(column_label(53), "BBB");
    assert_eq!(column_label(78), "AAA");
    assert_eq!(column_label(254), "UUUUUUUUUU");
}

#[test]
fn surface_is_the_lesser_of_the_two_shares() {
    assert_eq!(surface_for(1200, 900), 800);
    assert_eq!(surface_for(1920, 600), 540);
    assert_eq!(surface_for(900, 1000), 600);
    assert_eq!(surface_for(0, 1000), 0);
    assert_eq!(surface_for(1000, 0), 0);
    assert_eq!(surface_for(100, 100), 66);
    assert_eq!(surface_for(u32::MAX, u32::MAX), 2863311530);
}
