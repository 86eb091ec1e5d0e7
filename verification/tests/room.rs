use rengo_client::logic::{Board, Position, Stone};
use rengo_client::room::{board_is_square, players_are_unique, Player, Room};

fn player(name: &str, stone: Stone) -> Player {
    Player { username: name.to_string(), stone }
}

fn empty_board(side: usize) -> Board {
    Board { stones: vec![vec![None; side]; side] }
}

fn club() -> Room {
    Room {
        name: "club1".to_string(),
        capacity: 4,
        board: empty_board(9),
        players: vec![player("alice", Stone::Black), player("bob", Stone::White)],
        current_player: "alice".to_string(),
        self_player: "bob".to_string(),
    }
}

#[test]
fn board_place_sets_one_cell() {
    let mut board = empty_board(9);
    board.place(Position(2, 5), Some(Stone::White));
    for y in 0..9 {
        for x in 0..9 {
            let expected = if x == 2 && y == 5 { Some(Stone::White) } else { None };
            assert_eq!(board.stones[y][x], expected);
        }
    }
    assert_eq!(board.side(), 9);
}

#[test]
fn board_place_can_lift_a_stone() {
    let mut board = empty_board(3);
    board.place(Position(1, 1), Some(Stone::Black));
    board.place(Position(1, 1), None);
    assert_eq!(board, empty_board(3));
}

#[test]
fn square_boards_are_told_apart() {
    assert!(board_is_square(&empty_board(0)));
    assert!(board_is_square(&empty_board(13)));
    assert!(!board_is_square(&Board { stones: vec![vec![None; 3]; 2] }));
    assert!(!board_is_square(&Board { stones: vec![vec![None; 2], vec![None; 1]] }));
}

#[test]
fn unique_names_are_told_apart() {
    assert!(players_are_unique(&vec![]));
    assert!(players_are_unique(&vec![player("a", Stone::Black), player("b", Stone::Black)]));
    assert!(!players_are_unique(&vec![
        player("a", Stone::Black),
        player("b", Stone::Black),
        player("a", Stone::White),
    ]));
}

#[test]
fn room_well_formedness() {
    assert!(club().is_well_formed());
    let mut absent_turn = club();
    absent_turn.current_player = "carol".to_string();
    assert!(!absent_turn.is_well_formed());
    let mut twice = club();
    twice.players.push(player("alice", Stone::White));
    assert!(!twice.is_well_formed());
    let mut ragged = club();
    ragged.board.stones[3].pop();
    assert!(!ragged.is_well_formed());
}

#[test]
fn find_player_gives_the_place() {
    let room = club();
    assert_eq!(room.find_player(&"alice".to_string()), Some(0));
    assert_eq!(room.find_player(&"bob".to_string()), Some(1));
    assert_eq!(room.find_player(&"carol".to_string()), None);
    assert_eq!(room.find_player(&"".to_string()), None);
}

#[test]
fn stone_of_gives_the_colour() {
    let room = club();
    assert_eq!(room.stone_of(&"alice".to_string()), Some(Stone::Black));
    assert_eq!(room.stone_of(&"bob".to_string()), Some(Stone::White));
    assert_eq!(room.stone_of(&"carol".to_string()), None);
}

#[test]
fn add_player_appends_a_new_name() {
    let mut room = club();
    room.add_player(player("carol", Stone::Black));
    assert_eq!(room.players.len(), 3);
    assert_eq!(room.players[2], player("carol", Stone::Black));
    assert!(room.is_well_formed());
}

#[test]
fn add_player_replaces_a_known_name() {
    let mut room = club();
    room.add_player(player("alice", Stone::White));
    assert_eq!(room.players, vec![player("alice", Stone::White), player("bob", Stone::White)]);
}

#[test]
fn remove_player_unseats() {
    let mut room = club();
    assert!(room.remove_player(&"bob".to_string()));
    assert_eq!(room.players, vec![player("alice", Stone::Black)]);
    assert!(room.remove_player(&"nobody".to_string()));
    assert_eq!(room.players, vec![player("alice", Stone::Black)]);
}

#[test]
fn remove_player_keeps_the_player_to_move() {
    let mut room = club();
    assert!(!room.remove_player(&"alice".to_string()));
    assert_eq!(room, club());
}

#[test]
fn set_current_player_needs_a_seated_player() {
    let mut room = club();
    assert!(room.set_current_player("bob".to_string()));
    assert_eq!(room.current_player, "bob");
    assert!(!room.set_current_player("carol".to_string()));
    assert_eq!(room.current_player, "bob");
}

#[test]
fn room_place_checks_the_board() {
    let mut room = club();
    assert!(room.place((Position(8, 0), Some(Stone::Black))));
    assert_eq!(room.board.stones[0][8], Some(Stone::Black));
    assert!(!room.place((Position(9, 0), Some(Stone::Black))));
    assert!(!room.place((Position(0, 9), Some(Stone::Black))));
    let mut expected = club();
    expected.board.stones[0][8] = Some(Stone::Black);
    assert_eq!(room, expected);
}
