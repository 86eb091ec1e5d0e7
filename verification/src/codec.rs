//! Encoding messages into frames and decoding frames into messages.

use vstd::prelude::*;
use crate::format::{
    cell_bytes, cells_bytes, entries_bytes, entry_bytes, grid_bytes, grid_fits,
    lemma_cells_bytes_push, lemma_entries_bytes_push, lemma_rows_bytes_push, move_bytes,
    move_fits, optional_placement_bytes, optional_position_bytes, optional_room_bytes,
    optional_text_bytes, parse_cell, parse_cells, parse_entries, parse_entry, parse_grid,
    parse_move, parse_optional_placement, parse_optional_position, parse_optional_room,
    parse_optional_text, parse_player, parse_position, parse_roster, parse_room, parse_row,
    parse_rows, parse_stone, player_bytes, position_bytes, prepend, room_bytes, room_fits,
    roster_bytes, roster_fits, row_bytes, rows_bytes, stone_bytes,
};
use crate::frames::{
    begins_with_client_message, begins_with_server_message, client_message_bytes,
    client_message_fits, lemma_client_frame_reads_as, lemma_client_message_round_trip,
    lemma_server_frame_reads_as, lemma_server_message_round_trip, login_error_bytes, login_response_bytes,
    parse_client_message, parse_login, parse_login_error, parse_login_response,
    parse_place_response, parse_room_create, parse_room_create_error,
    parse_room_create_response, parse_server_message, place_response_bytes,
    room_create_error_bytes, room_create_response_bytes, server_message_bytes,
    server_message_fits,
};
use crate::logic::{grid_of, Board, InvalidMove, Move, Placement, Position, Stone};
use crate::protocol::{
    ClientMessage, ClientMessageView, LoginError, LoginErrorView, RoomCreateError,
    ServerMessage, ServerMessageView,
};
use crate::room::{roster_of, Player, Room};
use crate::wire::{
    advanced, put_text, put_u32, put_u64, put_u8, take_text, take_u32, take_u64, take_u8,
    text_fits, u32_bytes, u64_bytes, Parsed,
};

verus! {

/// Reading one more item after `acc` is reading it in front of what follows.
proof fn lemma_prepend_push<T>(acc: Seq<T>, item: T, parsed: Parsed<Seq<T>>)
    ensures
        prepend(acc, prepend(seq![item], parsed)) == prepend(acc.push(item), parsed),
{
    match parsed {
        Some((tail, rest)) => {
            assert(acc + (seq![item] + tail) =~= acc.push(item) + tail);
        },
        None => {},
    }
}

/// Appends the wire form of a stone.
pub(crate) fn put_stone(out: &mut Vec<u8>, stone: Stone)
    ensures
        final(out)@ == old(out)@ + stone_bytes(stone),
{
    match stone {
        Stone::Black => put_u32(out, 0),
        Stone::White => put_u32(out, 1),
    }
}

/// Reads a stone at `at`.
pub(crate) fn take_stone(bytes: &[u8], at: usize) -> (r: Option<(Stone, usize)>)
    requires
        at <= bytes@.len(),
    ensures
        match parse_stone(bytes@.skip(at as int)) {
            Some((v, rest)) => r matches Some((got, next)) && got == v && advanced(
                bytes@,
                at as int,
                next as int,
                rest,
            ),
            None => r is None,
        },
{
    match take_u32(bytes, at) {
        Some((tag, next)) => if tag == 0 {
            Some((Stone::Black, next))
        } else if tag == 1 {
            Some((Stone::White, next))
        } else {
            None
        },
        None => None,
    }
}

/// Appends the wire form of a cell.
pub(crate) fn put_cell(out: &mut Vec<u8>, cell: Option<Stone>)
    ensures
        final(out)@ == old(out)@ + cell_bytes(cell),
{
    match cell {
        None => put_u8(out, 0),
        Some(stone) => {
            put_u8(out, 1);
            put_stone(out, stone);
            assert(out@ =~= old(out)@ + cell_bytes(cell));
        },
    }
}

/// Reads a cell at `at`.
pub(crate) fn take_cell(bytes: &[u8], at: usize) -> (r: Option<(Option<Stone>, usize)>)
    requires
        at <= bytes@.len(),
    ensures
        match parse_cell(bytes@.skip(at as int)) {
            Some((v, rest)) => r matches Some((got, next)) && got == v && advanced(
                bytes@,
                at as int,
                next as int,
                rest,
            ),
            None => r is None,
        },
{
    match take_u8(bytes, at) {
        Some((tag, next)) => if tag == 0 {
            Some((None, next))
        } else if tag == 1 {
            match take_stone(bytes, next) {
                Some((stone, next)) => Some((Some(stone), next)),
                None => None,
            }
        } else {
            None
        },
        None => None,
    }
}

/// Appends the wire form of a cell position.
pub(crate) fn put_position(out: &mut Vec<u8>, position: Position<u8>)
    ensures
        final(out)@ == old(out)@ + position_bytes(position),
{
    put_u8(out, position.0);
    put_u8(out, position.1);
    assert(out@ =~= old(out)@ + position_bytes(position));
}

/// Reads a cell position at `at`.
pub(crate) fn take_position(bytes: &[u8], at: usize) -> (r: Option<(Position<u8>, usize)>)
    requires
        at <= bytes@.len(),
    ensures
        match parse_position(bytes@.skip(at as int)) {
            Some((v, rest)) => r matches Some((got, next)) && got == v && advanced(
                bytes@,
                at as int,
                next as int,
                rest,
            ),
            None => r is None,
        },
{
    match take_u8(bytes, at) {
        Some((x, next)) => match take_u8(bytes, next) {
            Some((y, next)) => Some((Position(x, y), next)),
            None => None,
        },
        None => None,
    }
}

/// Appends the wire form of an optional cell position.
pub(crate) fn put_optional_position(out: &mut Vec<u8>, position: Option<Position<u8>>)
    ensures
        final(out)@ == old(out)@ + optional_position_bytes(position),
{
    match position {
        None => put_u8(out, 0),
        Some(position) => {
            put_u8(out, 1);
            put_position(out, position);
            assert(out@ =~= old(out)@ + optional_position_bytes(Some(position)));
        },
    }
}

/// Reads an optional cell position at `at`.
pub(crate) fn take_optional_position(bytes: &[u8], at: usize) -> (r: Option<
    (Option<Position<u8>>, usize),
>)
    requires
        at <= bytes@.len(),
    ensures
        match parse_optional_position(bytes@.skip(at as int)) {
            Some((v, rest)) => r matches Some((got, next)) && got == v && advanced(
                bytes@,
                at as int,
                next as int,
                rest,
            ),
            None => r is None,
        },
{
    match take_u8(bytes, at) {
        Some((tag, next)) => if tag == 0 {
            Some((None, next))
        } else if tag == 1 {
            match take_position(bytes, next) {
                Some((position, next)) => Some((Some(position), next)),
                None => None,
            }
        } else {
            None
        },
        None => None,
    }
}

/// Appends the wire form of a row.
pub(crate) fn put_row(out: &mut Vec<u8>, row: &Vec<Option<Stone>>)
    ensures
        final(out)@ == old(out)@ + row_bytes(row@),
        row@.len() <= u64::MAX,
{
    let ghost before = out@;
    let count: usize = row.len();
    put_u64(out, count as u64);
    let mut i: usize = 0;
    assert(cells_bytes(row@.take(0)) =~= Seq::<u8>::empty());
    while i < count
        invariant
            i <= count,
            count == row@.len(),
            out@ =~= before + u64_bytes(count as u64) + cells_bytes(
                row@.take(i as int),
            ),
        decreases count - i,
    {
        put_cell(out, row[i]);
        proof {
            lemma_cells_bytes_push(row@.take(i as int), row@[i as int]);
            assert(row@.take(i + 1) =~= row@.take(i as int).push(row@[i as int]));
        }
        i = i + 1;
    }
    assert(row@.take(count as int) =~= row@);
}

/// Reads a row at `at`.
pub(crate) fn take_row(bytes: &[u8], at: usize) -> (r: Option<(Vec<Option<Stone>>, usize)>)
    requires
        at <= bytes@.len(),
    ensures
        match parse_row(bytes@.skip(at as int)) {
            Some((v, rest)) => r matches Some((got, next)) && got@ == v && advanced(
                bytes@,
                at as int,
                next as int,
                rest,
            ),
            None => r is None,
        },
{
    let (count, start) = match take_u64(bytes, at) {
        Some(read) => read,
        None => {
            return None;
        },
    };
    let ghost whole = parse_cells(bytes@.skip(start as int), count as nat);
    let mut cells: Vec<Option<Stone>> = Vec::new();
    let mut p: usize = start;
    let mut i: u64 = 0;
    assert(prepend(cells@, whole) == whole) by {
        if let Some((tail, rest)) = whole {
            assert(cells@ + tail =~= tail);
        }
    }
    while i < count
        invariant
            i <= count,
            at <= p <= bytes@.len(),
            parse_row(bytes@.skip(at as int)) == whole,
            whole == prepend(cells@, parse_cells(bytes@.skip(p as int), (count - i) as nat)),
        decreases count - i,
    {
        match take_cell(bytes, p) {
            Some((cell, next)) => {
                proof {
                    lemma_prepend_push(
                        cells@,
                        cell,
                        parse_cells(bytes@.skip(next as int), (count - i - 1) as nat),
                    );
                }
                cells.push(cell);
                p = next;
            },
            None => {
                return None;
            },
        }
        i = i + 1;
    }
    assert(cells@ + Seq::<Option<Stone>>::empty() =~= cells@);
    Some((cells, p))
}

/// Appends the wire form of a board.
pub(crate) fn put_board(out: &mut Vec<u8>, board: &Board)
    ensures
        final(out)@ == old(out)@ + grid_bytes(board@),
        grid_fits(board@),
{
    let ghost before = out@;
    let count: usize = board.stones.len();
    put_u64(out, count as u64);
    let mut y: usize = 0;
    assert(rows_bytes(board@.take(0)) =~= Seq::<u8>::empty());
    while y < count
        invariant
            y <= count,
            count == board@.len(),
            count == board.stones@.len(),
            out@ =~= before + u64_bytes(count as u64) + rows_bytes(
                board@.take(y as int),
            ),
            forall|k: int| 0 <= k < y ==> (#[trigger] board@[k]).len() <= u64::MAX,
        decreases count - y,
    {
        put_row(out, &board.stones[y]);
        proof {
            lemma_rows_bytes_push(board@.take(y as int), board@[y as int]);
            assert(board@.take(y + 1) =~= board@.take(y as int).push(board@[y as int]));
        }
        y = y + 1;
    }
    assert(board@.take(count as int) =~= board@);
}

/// Reads a board at `at`.
pub(crate) fn take_board(bytes: &[u8], at: usize) -> (r: Option<(Board, usize)>)
    requires
        at <= bytes@.len(),
    ensures
        match parse_grid(bytes@.skip(at as int)) {
            Some((v, rest)) => r matches Some((got, next)) && got@ == v && advanced(
                bytes@,
                at as int,
                next as int,
                rest,
            ),
            None => r is None,
        },
{
    let (count, start) = match take_u64(bytes, at) {
        Some(read) => read,
        None => {
            return None;
        },
    };
    let ghost whole = parse_rows(bytes@.skip(start as int), count as nat);
    let mut rows: Vec<Vec<Option<Stone>>> = Vec::new();
    let mut p: usize = start;
    let mut i: u64 = 0;
    assert(prepend(grid_of(rows@), whole) == whole) by {
        if let Some((tail, rest)) = whole {
            assert(grid_of(rows@) + tail =~= tail);
        }
    }
    while i < count
        invariant
            i <= count,
            at <= p <= bytes@.len(),
            parse_grid(bytes@.skip(at as int)) == whole,
            whole == prepend(
                grid_of(rows@),
                parse_rows(bytes@.skip(p as int), (count - i) as nat),
            ),
        decreases count - i,
    {
        match take_row(bytes, p) {
            Some((row, next)) => {
                proof {
                    lemma_prepend_push(
                        grid_of(rows@),
                        row@,
                        parse_rows(bytes@.skip(next as int), (count - i - 1) as nat),
                    );
                    assert(grid_of(rows@.push(row)) =~= grid_of(rows@).push(row@));
                }
                rows.push(row);
                p = next;
            },
            None => {
                return None;
            },
        }
        i = i + 1;
    }
    assert(grid_of(rows@) + Seq::<Seq<Option<Stone>>>::empty() =~= grid_of(rows@));
    Some((Board { stones: rows }, p))
}

/// Appends the wire form of a player.
pub(crate) fn put_player(out: &mut Vec<u8>, player: &Player)
    ensures
        final(out)@ == old(out)@ + player_bytes(player@),
        text_fits(player@.username),
{
    put_text(out, &player.username);
    put_stone(out, player.stone);
    assert(out@ =~= old(out)@ + player_bytes(player@));
}

/// Reads a player at `at`.
pub(crate) fn take_player(bytes: &[u8], at: usize) -> (r: Option<(Player, usize)>)
    requires
        at <= bytes@.len(),
    ensures
        match parse_player(bytes@.skip(at as int)) {
            Some((v, rest)) => r matches Some((got, next)) && got@ == v && advanced(
                bytes@,
                at as int,
                next as int,
                rest,
            ),
            None => r is None,
        },
{
    match take_text(bytes, at) {
        Some((username, next)) => match take_stone(bytes, next) {
            Some((stone, next)) => Some((Player { username, stone }, next)),
            None => None,
        },
        None => None,
    }
}

/// Appends the wire form of a roster entry.
pub(crate) fn put_entry(out: &mut Vec<u8>, player: &Player)
    ensures
        final(out)@ == old(out)@ + entry_bytes(player@),
        text_fits(player@.username),
{
    put_text(out, &player.username);
    put_player(out, player);
    assert(out@ =~= old(out)@ + entry_bytes(player@));
}

/// Reads a roster entry at `at`.
pub(crate) fn take_entry(bytes: &[u8], at: usize) -> (r: Option<(Player, usize)>)
    requires
        at <= bytes@.len(),
    ensures
        match parse_entry(bytes@.skip(at as int)) {
            Some((v, rest)) => r matches Some((got, next)) && got@ == v && advanced(
                bytes@,
                at as int,
                next as int,
                rest,
            ),
            None => r is None,
        },
{
    match take_text(bytes, at) {
        Some((key, next)) => match take_player(bytes, next) {
            Some((player, next)) => if key == player.username {
                Some((player, next))
            } else {
                None
            },
            None => None,
        },
        None => None,
    }
}

/// Appends the wire form of a roster.
pub(crate) fn put_roster(out: &mut Vec<u8>, players: &Vec<Player>)
    ensures
        final(out)@ == old(out)@ + roster_bytes(roster_of(players@)),
        roster_fits(roster_of(players@)),
{
    let ghost before = out@;
    let ghost roster = roster_of(players@);
    let count: usize = players.len();
    put_u64(out, count as u64);
    let mut i: usize = 0;
    assert(entries_bytes(roster.take(0)) =~= Seq::<u8>::empty());
    while i < count
        invariant
            i <= count,
            count == players@.len(),
            roster == roster_of(players@),
            out@ =~= before + u64_bytes(count as u64) + entries_bytes(roster.take(i as int)),
            forall|k: int| 0 <= k < i ==> text_fits((#[trigger] roster[k]).username),
        decreases count - i,
    {
        put_entry(out, &players[i]);
        proof {
            lemma_entries_bytes_push(roster.take(i as int), roster[i as int]);
            assert(roster.take(i + 1) =~= roster.take(i as int).push(roster[i as int]));
        }
        i = i + 1;
    }
    assert(roster.take(count as int) =~= roster);
}

/// Reads a roster at `at`.
pub(crate) fn take_roster(bytes: &[u8], at: usize) -> (r: Option<(Vec<Player>, usize)>)
    requires
        at <= bytes@.len(),
    ensures
        match parse_roster(bytes@.skip(at as int)) {
            Some((v, rest)) => r matches Some((got, next)) && roster_of(got@) == v && advanced(
                bytes@,
                at as int,
                next as int,
                rest,
            ),
            None => r is None,
        },
{
    let (count, start) = match take_u64(bytes, at) {
        Some(read) => read,
        None => {
            return None;
        },
    };
    let ghost whole = parse_entries(bytes@.skip(start as int), count as nat);
    let mut players: Vec<Player> = Vec::new();
    let mut p: usize = start;
    let mut i: u64 = 0;
    assert(prepend(roster_of(players@), whole) == whole) by {
        if let Some((tail, rest)) = whole {
            assert(roster_of(players@) + tail =~= tail);
        }
    }
    while i < count
        invariant
            i <= count,
            at <= p <= bytes@.len(),
            parse_roster(bytes@.skip(at as int)) == whole,
            whole == prepend(
                roster_of(players@),
                parse_entries(bytes@.skip(p as int), (count - i) as nat),
            ),
        decreases count - i,
    {
        match take_entry(bytes, p) {
            Some((player, next)) => {
                proof {
                    lemma_prepend_push(
                        roster_of(players@),
                        player@,
                        parse_entries(bytes@.skip(next as int), (count - i - 1) as nat),
                    );
                    assert(roster_of(players@.push(player)) =~= roster_of(players@).push(
                        player@,
                    ));
                }
                players.push(player);
                p = next;
            },
            None => {
                return None;
            },
        }
        i = i + 1;
    }
    assert(roster_of(players@) + Seq::empty() =~= roster_of(players@));
    Some((players, p))
}

/// Appends the wire form of a room.
pub(crate) fn put_room(out: &mut Vec<u8>, room: &Room)
    ensures
        final(out)@ == old(out)@ + room_bytes(room@),
        room_fits(room@),
{
    put_text(out, &room.name);
    put_u8(out, room.capacity);
    put_board(out, &room.board);
    put_roster(out, &room.players);
    put_text(out, &room.current_player);
    put_text(out, &room.self_player);
    assert(out@ =~= old(out)@ + room_bytes(room@));
}

/// Reads a room at `at`.
pub(crate) fn take_room(bytes: &[u8], at: usize) -> (r: Option<(Room, usize)>)
    requires
        at <= bytes@.len(),
    ensures
        match parse_room(bytes@.skip(at as int)) {
            Some((v, rest)) => r matches Some((got, next)) && got@ == v && advanced(
                bytes@,
                at as int,
                next as int,
                rest,
            ),
            None => r is None,
        },
{
    let (name, p) = match take_text(bytes, at) {
        Some(read) => read,
        None => {
            return None;
        },
    };
    let (capacity, p) = match take_u8(bytes, p) {
        Some(read) => read,
        None => {
            return None;
        },
    };
    let (board, p) = match take_board(bytes, p) {
        Some(read) => read,
        None => {
            return None;
        },
    };
    let (players, p) = match take_roster(bytes, p) {
        Some(read) => read,
        None => {
            return None;
        },
    };
    let (current_player, p) = match take_text(bytes, p) {
        Some(read) => read,
        None => {
            return None;
        },
    };
    let (self_player, p) = match take_text(bytes, p) {
        Some(read) => read,
        None => {
            return None;
        },
    };
    Some((Room { name, capacity, board, players, current_player, self_player }, p))
}

/// Appends the wire form of an optional room.
pub(crate) fn put_optional_room(out: &mut Vec<u8>, room: &Option<Room>)
    ensures
        final(out)@ == old(out)@ + optional_room_bytes(
            match *room {
                Some(r) => Some(r@),
                None => None,
            },
        ),
        *room matches Some(r) ==> room_fits(r@),
{
    match room {
        None => put_u8(out, 0),
        Some(r) => {
            put_u8(out, 1);
            put_room(out, r);
            assert(out@ =~= old(out)@ + optional_room_bytes(Some(r@)));
        },
    }
}

/// Reads an optional room at `at`.
pub(crate) fn take_optional_room(bytes: &[u8], at: usize) -> (r: Option<(Option<Room>, usize)>)
    requires
        at <= bytes@.len(),
    ensures
        match parse_optional_room(bytes@.skip(at as int)) {
            Some((v, rest)) => r matches Some((got, next)) && advanced(
                bytes@,
                at as int,
                next as int,
                rest,
            ) && match got {
                Some(room) => v == Some(room@),
                None => v is None,
            },
            None => r is None,
        },
{
    match take_u8(bytes, at) {
        Some((tag, next)) => if tag == 0 {
            Some((None, next))
        } else if tag == 1 {
            match take_room(bytes, next) {
                Some((room, next)) => Some((Some(room), next)),
                None => None,
            }
        } else {
            None
        },
        None => None,
    }
}

/// Appends the wire form of optional text.
pub(crate) fn put_optional_text(out: &mut Vec<u8>, text: &Option<String>)
    ensures
        final(out)@ == old(out)@ + optional_text_bytes(
            match *text {
                Some(t) => Some(t@),
                None => None,
            },
        ),
        *text matches Some(t) ==> text_fits(t@),
{
    match text {
        None => put_u8(out, 0),
        Some(t) => {
            put_u8(out, 1);
            put_text(out, t);
            assert(out@ =~= old(out)@ + optional_text_bytes(Some(t@)));
        },
    }
}

/// Reads optional text at `at`.
pub(crate) fn take_optional_text(bytes: &[u8], at: usize) -> (r: Option<
    (Option<String>, usize),
>)
    requires
        at <= bytes@.len(),
    ensures
        match parse_optional_text(bytes@.skip(at as int)) {
            Some((v, rest)) => r matches Some((got, next)) && advanced(
                bytes@,
                at as int,
                next as int,
                rest,
            ) && match got {
                Some(text) => v == Some(text@),
                None => v is None,
            },
            None => r is None,
        },
{
    match take_u8(bytes, at) {
        Some((tag, next)) => if tag == 0 {
            Some((None, next))
        } else if tag == 1 {
            match take_text(bytes, next) {
                Some((text, next)) => Some((Some(text), next)),
                None => None,
            }
        } else {
            None
        },
        None => None,
    }
}

/// Appends the wire form of an optional placement.
pub(crate) fn put_optional_placement(out: &mut Vec<u8>, placement: Option<Placement>)
    ensures
        final(out)@ == old(out)@ + optional_placement_bytes(placement),
{
    match placement {
        None => put_u8(out, 0),
        Some(p) => {
            put_u8(out, 1);
            put_position(out, p.0);
            put_cell(out, p.1);
            assert(out@ =~= old(out)@ + optional_placement_bytes(placement));
        },
    }
}

/// Reads an optional placement at `at`.
pub(crate) fn take_optional_placement(bytes: &[u8], at: usize) -> (r: Option<
    (Option<Placement>, usize),
>)
    requires
        at <= bytes@.len(),
    ensures
        match parse_optional_placement(bytes@.skip(at as int)) {
            Some((v, rest)) => r matches Some((got, next)) && got == v && advanced(
                bytes@,
                at as int,
                next as int,
                rest,
            ),
            None => r is None,
        },
{
    match take_u8(bytes, at) {
        Some((tag, next)) => if tag == 0 {
            Some((None, next))
        } else if tag == 1 {
            match take_position(bytes, next) {
                Some((position, next)) => match take_cell(bytes, next) {
                    Some((cell, next)) => Some((Some((position, cell)), next)),
                    None => None,
                },
                None => None,
            }
        } else {
            None
        },
        None => None,
    }
}

/// Appends the wire form of a ruling.
pub(crate) fn put_move(out: &mut Vec<u8>, ruling: &Move)
    ensures
        final(out)@ == old(out)@ + move_bytes(ruling@),
        move_fits(ruling@),
{
    put_optional_placement(out, ruling.0);
    put_optional_text(out, &ruling.1);
    assert(out@ =~= old(out)@ + move_bytes(ruling@));
}

/// Reads a ruling at `at`.
pub(crate) fn take_move(bytes: &[u8], at: usize) -> (r: Option<(Move, usize)>)
    requires
        at <= bytes@.len(),
    ensures
        match parse_move(bytes@.skip(at as int)) {
            Some((v, rest)) => r matches Some((got, next)) && got@ == v && advanced(
                bytes@,
                at as int,
                next as int,
                rest,
            ),
            None => r is None,
        },
{
    match take_optional_placement(bytes, at) {
        Some((placement, next)) => match take_optional_text(bytes, next) {
            Some((player, next)) => Some((Move(placement, player), next)),
            None => None,
        },
        None => None,
    }
}

/// Appends the wire form of a login error.
pub(crate) fn put_login_error(out: &mut Vec<u8>, error: &LoginError)
    ensures
        final(out)@ == old(out)@ + login_error_bytes(error@),
        error@ matches LoginErrorView::RoomDoesNotExist(name) ==> text_fits(name),
{
    match error {
        LoginError::RoomFull => put_u32(out, 0),
        LoginError::UsernameTaken => put_u32(out, 1),
        LoginError::RoomNameTooLong => put_u32(out, 2),
        LoginError::UsernameTooLong => put_u32(out, 3),
        LoginError::RoomDoesNotExist(name) => {
            put_u32(out, 4);
            put_text(out, name);
            assert(out@ =~= old(out)@ + login_error_bytes(error@));
        },
    }
}

/// Reads a login error at `at`.
pub(crate) fn take_login_error(bytes: &[u8], at: usize) -> (r: Option<(LoginError, usize)>)
    requires
        at <= bytes@.len(),
    ensures
        match parse_login_error(bytes@.skip(at as int)) {
            Some((v, rest)) => r matches Some((got, next)) && got@ == v && advanced(
                bytes@,
                at as int,
                next as int,
                rest,
            ),
            None => r is None,
        },
{
    match take_u32(bytes, at) {
        Some((tag, next)) => if tag == 0 {
            Some((LoginError::RoomFull, next))
        } else if tag == 1 {
            Some((LoginError::UsernameTaken, next))
        } else if tag == 2 {
            Some((LoginError::RoomNameTooLong, next))
        } else if tag == 3 {
            Some((LoginError::UsernameTooLong, next))
        } else if tag == 4 {
            match take_text(bytes, next) {
                Some((name, next)) => Some((LoginError::RoomDoesNotExist(name), next)),
                None => None,
            }
        } else {
            None
        },
        None => None,
    }
}

/// Appends the wire form of a room-creation error.
pub(crate) fn put_room_create_error(out: &mut Vec<u8>, error: RoomCreateError)
    ensures
        final(out)@ == old(out)@ + room_create_error_bytes(error),
{
    match error {
        RoomCreateError::RoomNameTooLong => put_u32(out, 0),
        RoomCreateError::RoomNameTaken => put_u32(out, 1),
    }
}

/// Reads a room-creation error at `at`.
pub(crate) fn take_room_create_error(bytes: &[u8], at: usize) -> (r: Option<
    (RoomCreateError, usize),
>)
    requires
        at <= bytes@.len(),
    ensures
        match parse_room_create_error(bytes@.skip(at as int)) {
            Some((v, rest)) => r matches Some((got, next)) && got == v && advanced(
                bytes@,
                at as int,
                next as int,
                rest,
            ),
            None => r is None,
        },
{
    match take_u32(bytes, at) {
        Some((tag, next)) => if tag == 0 {
            Some((RoomCreateError::RoomNameTooLong, next))
        } else if tag == 1 {
            Some((RoomCreateError::RoomNameTaken, next))
        } else {
            None
        },
        None => None,
    }
}

/// A frame that is no message: it is cut short, names a variant that does
/// not exist, or holds text that is not UTF-8. The connection it came from
/// cannot be read any further.
#[derive(Clone, Copy, Debug, PartialEq, Eq, Structural)]
pub struct DecodeError;

/// Encodes a client message as one frame. The frame is the message's wire
/// form, and reading it gives the message back with no byte left over.
pub fn encode(message: &ClientMessage) -> (frame: Vec<u8>)
    ensures
        frame@ == client_message_bytes(message@),
        client_message_fits(message@),
        parse_client_message(frame@) == Some((message@, Seq::<u8>::empty())),
{
    let mut out: Vec<u8> = Vec::new();
    match message {
        ClientMessage::Login(username, room) => {
            put_u32(&mut out, 0);
            put_text(&mut out, username);
            put_text(&mut out, room);
        },
        ClientMessage::RoomCreate(room, capacity, width, height) => {
            put_u32(&mut out, 1);
            put_text(&mut out, room);
            put_u8(&mut out, *capacity);
            put_u8(&mut out, *width);
            put_u8(&mut out, *height);
        },
        ClientMessage::Place(cell) => {
            put_u32(&mut out, 2);
            put_optional_position(&mut out, *cell);
        },
        ClientMessage::Chat(text) => {
            put_u32(&mut out, 3);
            put_text(&mut out, text);
        },
    }
    proof {
        assert(out@ =~= client_message_bytes(message@));
        lemma_client_message_round_trip(message@, Seq::empty());
        assert(out@ + Seq::<u8>::empty() =~= out@);
    }
    out
}

/// Reads the fields of a login at `at`.
fn take_login(bytes: &[u8], at: usize) -> (r: Option<(ClientMessage, usize)>)
    requires
        at <= bytes@.len(),
    ensures
        match parse_login(bytes@.skip(at as int)) {
            Some((v, rest)) => r matches Some((got, next)) && got@ == v && advanced(
                bytes@,
                at as int,
                next as int,
                rest,
            ),
            None => r is None,
        },
{
    match take_text(bytes, at) {
        Some((username, next)) => match take_text(bytes, next) {
            Some((room, next)) => Some((ClientMessage::Login(username, room), next)),
            None => None,
        },
        None => None,
    }
}

/// Reads the fields of a room creation at `at`.
fn take_room_create(bytes: &[u8], at: usize) -> (r: Option<(ClientMessage, usize)>)
    requires
        at <= bytes@.len(),
    ensures
        match parse_room_create(bytes@.skip(at as int)) {
            Some((v, rest)) => r matches Some((got, next)) && got@ == v && advanced(
                bytes@,
                at as int,
                next as int,
                rest,
            ),
            None => r is None,
        },
{
    let (room, p) = match take_text(bytes, at) {
        Some(read) => read,
        None => {
            return None;
        },
    };
    let (capacity, p) = match take_u8(bytes, p) {
        Some(read) => read,
        None => {
            return None;
        },
    };
    let (width, p) = match take_u8(bytes, p) {
        Some(read) => read,
        None => {
            return None;
        },
    };
    let (height, p) = match take_u8(bytes, p) {
        Some(read) => read,
        None => {
            return None;
        },
    };
    Some((ClientMessage::RoomCreate(room, capacity, width, height), p))
}

/// Decodes a frame as a client message: the message whose wire form the
/// frame begins with. Bytes after the message are not looked at. A frame
/// that begins with no message is an error.
pub fn decode_client_message(frame: &[u8]) -> (r: Result<ClientMessage, DecodeError>)
    ensures
        match parse_client_message(frame@) {
            Some((v, _)) => r matches Ok(message) && message@ == v,
            None => r is Err,
        },
        forall|m: ClientMessageView| #[trigger]
            begins_with_client_message(frame@, m) <==> (r matches Ok(message) && message@ == m),
{
    assert forall|m: ClientMessageView| #[trigger]
        begins_with_client_message(frame@, m) <==> (parse_client_message(frame@) matches Some(
        (read, _),
    ) && read == m) by {
        lemma_client_frame_reads_as(frame@, m);
    }
    assert(frame@.skip(0) =~= frame@);
    let (tag, p) = match take_u32(frame, 0) {
        Some(read) => read,
        None => {
            return Err(DecodeError);
        },
    };
    let read = if tag == 0 {
        take_login(frame, p)
    } else if tag == 1 {
        take_room_create(frame, p)
    } else if tag == 2 {
        match take_optional_position(frame, p) {
            Some((cell, next)) => Some((ClientMessage::Place(cell), next)),
            None => None,
        }
    } else if tag == 3 {
        match take_text(frame, p) {
            Some((text, next)) => Some((ClientMessage::Chat(text), next)),
            None => None,
        }
    } else {
        None
    };
    match read {
        Some((message, _)) => Ok(message),
        None => Err(DecodeError),
    }
}

/// Encodes a server message as one frame. The frame is the message's wire
/// form, and reading it gives the message back with no byte left over.
pub fn encode_server_message(message: &ServerMessage) -> (frame: Vec<u8>)
    ensures
        frame@ == server_message_bytes(message@),
        server_message_fits(message@),
        parse_server_message(frame@) == Some((message@, Seq::<u8>::empty())),
{
    let mut out: Vec<u8> = Vec::new();
    match message {
        ServerMessage::LoginResponse(Ok(room)) => {
            put_u32(&mut out, 0);
            put_u32(&mut out, 0);
            put_room(&mut out, room);
            assert(out@ =~= u32_bytes(0) + login_response_bytes(Ok(room@)));
        },
        ServerMessage::LoginResponse(Err(error)) => {
            put_u32(&mut out, 0);
            put_u32(&mut out, 1);
            put_login_error(&mut out, error);
            assert(out@ =~= u32_bytes(0) + login_response_bytes(Err(error@)));
        },
        ServerMessage::RoomCreateResponse(Ok(room)) => {
            put_u32(&mut out, 1);
            put_u32(&mut out, 0);
            put_optional_room(&mut out, room);
            assert(out@ =~= server_message_bytes(message@));
        },
        ServerMessage::RoomCreateResponse(Err(error)) => {
            put_u32(&mut out, 1);
            put_u32(&mut out, 1);
            put_room_create_error(&mut out, *error);
            assert(out@ =~= u32_bytes(1) + room_create_response_bytes(Err(*error)));
        },
        ServerMessage::PlaceResponse(Ok(ruling)) => {
            put_u32(&mut out, 2);
            put_u32(&mut out, 0);
            put_move(&mut out, ruling);
            assert(out@ =~= u32_bytes(2) + place_response_bytes(Ok(ruling@)));
        },
        ServerMessage::PlaceResponse(Err(refusal)) => {
            put_u32(&mut out, 2);
            put_u32(&mut out, 1);
            put_text(&mut out, &refusal.0);
            assert(out@ =~= u32_bytes(2) + place_response_bytes(Err(refusal@)));
        },
        ServerMessage::PlayerAdd(player) => {
            put_u32(&mut out, 3);
            put_player(&mut out, player);
        },
        ServerMessage::PlayerRemove(name) => {
            put_u32(&mut out, 4);
            put_text(&mut out, name);
        },
        ServerMessage::NextTurn(name) => {
            put_u32(&mut out, 5);
            put_text(&mut out, name);
        },
        ServerMessage::Chat(text) => {
            put_u32(&mut out, 6);
            put_text(&mut out, text);
        },
        ServerMessage::AlreadyLoggedIn => {
            put_u32(&mut out, 7);
        },
    }
    proof {
        assert(out@ =~= server_message_bytes(message@));
        lemma_server_message_round_trip(message@, Seq::empty());
        assert(out@ + Seq::<u8>::empty() =~= out@);
    }
    out
}

/// Reads the answer to a login at `at`.
fn take_login_response(bytes: &[u8], at: usize) -> (r: Option<(ServerMessage, usize)>)
    requires
        at <= bytes@.len(),
    ensures
        match parse_login_response(bytes@.skip(at as int)) {
            Some((v, rest)) => r matches Some((got, next)) && got@
                == ServerMessageView::LoginResponse(v) && advanced(
                bytes@,
                at as int,
                next as int,
                rest,
            ),
            None => r is None,
        },
{
    match take_u32(bytes, at) {
        Some((tag, next)) => if tag == 0 {
            match take_room(bytes, next) {
                Some((room, next)) => Some((ServerMessage::LoginResponse(Ok(room)), next)),
                None => None,
            }
        } else if tag == 1 {
            match take_login_error(bytes, next) {
                Some((error, next)) => Some((ServerMessage::LoginResponse(Err(error)), next)),
                None => None,
            }
        } else {
            None
        },
        None => None,
    }
}

/// Reads the answer to a room creation at `at`.
fn take_room_create_response(bytes: &[u8], at: usize) -> (r: Option<(ServerMessage, usize)>)
    requires
        at <= bytes@.len(),
    ensures
        match parse_room_create_response(bytes@.skip(at as int)) {
            Some((v, rest)) => r matches Some((got, next)) && got@
                == ServerMessageView::RoomCreateResponse(v) && advanced(
                bytes@,
                at as int,
                next as int,
                rest,
            ),
            None => r is None,
        },
{
    match take_u32(bytes, at) {
        Some((tag, next)) => if tag == 0 {
            match take_optional_room(bytes, next) {
                Some((room, next)) => Some(
                    (ServerMessage::RoomCreateResponse(Ok(room)), next),
                ),
                None => None,
            }
        } else if tag == 1 {
            match take_room_create_error(bytes, next) {
                Some((error, next)) => Some(
                    (ServerMessage::RoomCreateResponse(Err(error)), next),
                ),
                None => None,
            }
        } else {
            None
        },
        None => None,
    }
}

/// Reads the answer to a placement at `at`.
fn take_place_response(bytes: &[u8], at: usize) -> (r: Option<(ServerMessage, usize)>)
    requires
        at <= bytes@.len(),
    ensures
        match parse_place_response(bytes@.skip(at as int)) {
            Some((v, rest)) => r matches Some((got, next)) && got@
                == ServerMessageView::PlaceResponse(v) && advanced(
                bytes@,
                at as int,
                next as int,
                rest,
            ),
            None => r is None,
        },
{
    match take_u32(bytes, at) {
        Some((tag, next)) => if tag == 0 {
            match take_move(bytes, next) {
                Some((ruling, next)) => Some((ServerMessage::PlaceResponse(Ok(ruling)), next)),
                None => None,
            }
        } else if tag == 1 {
            match take_text(bytes, next) {
                Some((offender, next)) => Some(
                    (ServerMessage::PlaceResponse(Err(InvalidMove(offender))), next),
                ),
                None => None,
            }
        } else {
            None
        },
        None => None,
    }
}

/// Decodes a frame as a server message: the message whose wire form the
/// frame begins with. Bytes after the message are not looked at. A frame
/// that begins with no message is an error.
pub fn decode(frame: &[u8]) -> (r: Result<ServerMessage, DecodeError>)
    ensures
        match parse_server_message(frame@) {
            Some((v, _)) => r matches Ok(message) && message@ == v,
            None => r is Err,
        },
        forall|m: ServerMessageView| #[trigger]
            begins_with_server_message(frame@, m) <==> (r matches Ok(message) && message@ == m),
{
    assert forall|m: ServerMessageView| #[trigger]
        begins_with_server_message(frame@, m) <==> (parse_server_message(frame@) matches Some(
        (read, _),
    ) && read == m) by {
        lemma_server_frame_reads_as(frame@, m);
    }
    assert(frame@.skip(0) =~= frame@);
    let (tag, p) = match take_u32(frame, 0) {
        Some(read) => read,
        None => {
            return Err(DecodeError);
        },
    };
    let read = if tag == 0 {
        take_login_response(frame, p)
    } else if tag == 1 {
        take_room_create_response(frame, p)
    } else if tag == 2 {
        take_place_response(frame, p)
    } else if tag == 3 {
        match take_player(frame, p) {
            Some((player, next)) => Some((ServerMessage::PlayerAdd(player), next)),
            None => None,
        }
    } else if tag == 4 {
        match take_text(frame, p) {
            Some((name, next)) => Some((ServerMessage::PlayerRemove(name), next)),
            None => None,
        }
    } else if tag == 5 {
        match take_text(frame, p) {
            Some((name, next)) => Some((ServerMessage::NextTurn(name), next)),
            None => None,
        }
    } else if tag == 6 {
        match take_text(frame, p) {
            Some((text, next)) => Some((ServerMessage::Chat(text), next)),
            None => None,
        }
    } else if tag == 7 {
        Some((ServerMessage::AlreadyLoggedIn, p))
    } else {
        None
    };
    match read {
        Some((message, _)) => Ok(message),
        None => Err(DecodeError),
    }
}

} // verus!
