//! The wire forms of stones, boards, players and rooms.
//!
//! An enumeration is written as the 32-bit index of its variant, followed by
//! the variant's fields in order. An optional value is one byte, 0 or 1,
//! followed by the value when the byte is 1. A list is its length as a
//! 64-bit integer, followed by its items. A structure is its fields in
//! order.

use vstd::prelude::*;
use crate::logic::{Grid, MoveView, Placement, Position, Stone};
use crate::room::{PlayerView, RoomView, Roster};
use crate::wire::{
    lemma_text_parsed, lemma_text_round_trip, lemma_u32_parsed, lemma_u32_round_trip,
    lemma_u64_parsed, lemma_u64_round_trip, lemma_u8_parsed, lemma_u8_round_trip, parse_text,
    parse_u32, parse_u64, parse_u8, text_bytes, text_fits, u32_bytes, u64_bytes, u8_bytes,
    Parsed,
};

verus! {

/// `acc` put in front of the list that `parsed` holds.
pub open spec fn prepend<T>(acc: Seq<T>, parsed: Parsed<Seq<T>>) -> Parsed<Seq<T>> {
    match parsed {
        Some((tail, rest)) => Some((acc + tail, rest)),
        None => None,
    }
}

/// The wire form of a stone.
pub open spec fn stone_bytes(stone: Stone) -> Seq<u8> {
    match stone {
        Stone::Black => u32_bytes(0),
        Stone::White => u32_bytes(1),
    }
}

/// Reads a stone.
pub open spec fn parse_stone(s: Seq<u8>) -> Parsed<Stone> {
    match parse_u32(s) {
        Some((tag, rest)) => if tag == 0 {
            Some((Stone::Black, rest))
        } else if tag == 1 {
            Some((Stone::White, rest))
        } else {
            None
        },
        None => None,
    }
}

/// The wire form of a cell.
pub open spec fn cell_bytes(cell: Option<Stone>) -> Seq<u8> {
    match cell {
        None => u8_bytes(0),
        Some(stone) => u8_bytes(1) + stone_bytes(stone),
    }
}

/// Reads a cell.
pub open spec fn parse_cell(s: Seq<u8>) -> Parsed<Option<Stone>> {
    match parse_u8(s) {
        Some((tag, rest)) => if tag == 0 {
            Some((None, rest))
        } else if tag == 1 {
            match parse_stone(rest) {
                Some((stone, rest)) => Some((Some(stone), rest)),
                None => None,
            }
        } else {
            None
        },
        None => None,
    }
}

/// The wire form of a cell position.
pub open spec fn position_bytes(position: Position<u8>) -> Seq<u8> {
    u8_bytes(position.0) + u8_bytes(position.1)
}

/// Reads a cell position.
pub open spec fn parse_position(s: Seq<u8>) -> Parsed<Position<u8>> {
    match parse_u8(s) {
        Some((x, rest)) => match parse_u8(rest) {
            Some((y, rest)) => Some((Position(x, y), rest)),
            None => None,
        },
        None => None,
    }
}

/// The wire form of an optional cell position.
pub open spec fn optional_position_bytes(position: Option<Position<u8>>) -> Seq<u8> {
    match position {
        None => u8_bytes(0),
        Some(position) => u8_bytes(1) + position_bytes(position),
    }
}

/// Reads an optional cell position.
pub open spec fn parse_optional_position(s: Seq<u8>) -> Parsed<Option<Position<u8>>> {
    match parse_u8(s) {
        Some((tag, rest)) => if tag == 0 {
            Some((None, rest))
        } else if tag == 1 {
            match parse_position(rest) {
                Some((position, rest)) => Some((Some(position), rest)),
                None => None,
            }
        } else {
            None
        },
        None => None,
    }
}

/// The wire form of the cells of a row, one after the other.
pub open spec fn cells_bytes(cells: Seq<Option<Stone>>) -> Seq<u8>
    decreases cells.len(),
{
    if cells.len() == 0 {
        Seq::empty()
    } else {
        cell_bytes(cells[0]) + cells_bytes(cells.drop_first())
    }
}

/// Reads `count` cells.
pub open spec fn parse_cells(s: Seq<u8>, count: nat) -> Parsed<Seq<Option<Stone>>>
    decreases count,
{
    if count == 0 {
        Some((Seq::empty(), s))
    } else {
        match parse_cell(s) {
            Some((cell, rest)) => prepend(seq![cell], parse_cells(rest, (count - 1) as nat)),
            None => None,
        }
    }
}

/// The wire form of a row.
pub open spec fn row_bytes(cells: Seq<Option<Stone>>) -> Seq<u8> {
    u64_bytes(cells.len() as u64) + cells_bytes(cells)
}

/// Reads a row.
pub open spec fn parse_row(s: Seq<u8>) -> Parsed<Seq<Option<Stone>>> {
    match parse_u64(s) {
        Some((count, rest)) => parse_cells(rest, count as nat),
        None => None,
    }
}

/// The wire form of the rows of a grid, one after the other.
pub open spec fn rows_bytes(rows: Grid) -> Seq<u8>
    decreases rows.len(),
{
    if rows.len() == 0 {
        Seq::empty()
    } else {
        row_bytes(rows[0]) + rows_bytes(rows.drop_first())
    }
}

/// Reads `count` rows.
pub open spec fn parse_rows(s: Seq<u8>, count: nat) -> Parsed<Grid>
    decreases count,
{
    if count == 0 {
        Some((Seq::empty(), s))
    } else {
        match parse_row(s) {
            Some((row, rest)) => prepend(seq![row], parse_rows(rest, (count - 1) as nat)),
            None => None,
        }
    }
}

/// The wire form of a board.
pub open spec fn grid_bytes(grid: Grid) -> Seq<u8> {
    u64_bytes(grid.len() as u64) + rows_bytes(grid)
}

/// Reads a board.
pub open spec fn parse_grid(s: Seq<u8>) -> Parsed<Grid> {
    match parse_u64(s) {
        Some((count, rest)) => parse_rows(rest, count as nat),
        None => None,
    }
}

/// Whether the lengths in `grid` can be written as 64-bit integers.
pub open spec fn grid_fits(grid: Grid) -> bool {
    &&& grid.len() <= u64::MAX
    &&& forall|y: int| 0 <= y < grid.len() ==> (#[trigger] grid[y]).len() <= u64::MAX
}

/// A written stone is read back, whatever follows it.
pub proof fn lemma_stone_round_trip(stone: Stone, rest: Seq<u8>)
    ensures
        parse_stone(stone_bytes(stone) + rest) == Some((stone, rest)),
{
    lemma_u32_round_trip(0, rest);
    lemma_u32_round_trip(1, rest);
}

/// A written cell is read back, whatever follows it.
pub proof fn lemma_cell_round_trip(cell: Option<Stone>, rest: Seq<u8>)
    ensures
        parse_cell(cell_bytes(cell) + rest) == Some((cell, rest)),
{
    match cell {
        None => {
            lemma_u8_round_trip(0, rest);
        },
        Some(stone) => {
            lemma_u8_round_trip(1, stone_bytes(stone) + rest);
            lemma_stone_round_trip(stone, rest);
            assert(cell_bytes(cell) + rest =~= u8_bytes(1) + (stone_bytes(stone) + rest));
        },
    }
}

/// A written position is read back, whatever follows it.
pub proof fn lemma_position_round_trip(position: Position<u8>, rest: Seq<u8>)
    ensures
        parse_position(position_bytes(position) + rest) == Some((position, rest)),
{
    lemma_u8_round_trip(position.0, u8_bytes(position.1) + rest);
    lemma_u8_round_trip(position.1, rest);
    assert(position_bytes(position) + rest =~= u8_bytes(position.0) + (u8_bytes(position.1)
        + rest));
}

/// A written optional position is read back, whatever follows it.
pub proof fn lemma_optional_position_round_trip(position: Option<Position<u8>>, rest: Seq<u8>)
    ensures
        parse_optional_position(optional_position_bytes(position) + rest) == Some(
            (position, rest),
        ),
{
    match position {
        None => {
            lemma_u8_round_trip(0, rest);
        },
        Some(p) => {
            lemma_u8_round_trip(1, position_bytes(p) + rest);
            lemma_position_round_trip(p, rest);
            assert(optional_position_bytes(position) + rest =~= u8_bytes(1) + (position_bytes(p)
                + rest));
        },
    }
}

/// Writing one more cell appends its wire form.
pub proof fn lemma_cells_bytes_push(cells: Seq<Option<Stone>>, cell: Option<Stone>)
    ensures
        cells_bytes(cells.push(cell)) == cells_bytes(cells) + cell_bytes(cell),
    decreases cells.len(),
{
    if cells.len() == 0 {
        let one = cells.push(cell);
        assert(one.drop_first() =~= Seq::<Option<Stone>>::empty());
        assert(cells_bytes(one.drop_first()) =~= Seq::<u8>::empty());
        assert(cells_bytes(one) =~= cell_bytes(one[0]) + cells_bytes(one.drop_first()));
        assert(cells_bytes(cells.push(cell)) =~= cell_bytes(cell));
        assert(cells_bytes(cells) + cell_bytes(cell) =~= cell_bytes(cell));
    } else {
        lemma_cells_bytes_push(cells.drop_first(), cell);
        assert(cells.push(cell).drop_first() =~= cells.drop_first().push(cell));
        assert(cells_bytes(cells.push(cell)) =~= cells_bytes(cells) + cell_bytes(cell));
    }
}

/// Written cells are read back, whatever follows them.
pub proof fn lemma_cells_round_trip(cells: Seq<Option<Stone>>, rest: Seq<u8>)
    ensures
        parse_cells(cells_bytes(cells) + rest, cells.len()) == Some((cells, rest)),
    decreases cells.len(),
{
    if cells.len() == 0 {
        assert(cells_bytes(cells) + rest =~= rest);
        assert(cells =~= Seq::empty());
    } else {
        let tail = cells.drop_first();
        lemma_cell_round_trip(cells[0], cells_bytes(tail) + rest);
        lemma_cells_round_trip(tail, rest);
        assert(cells_bytes(cells) + rest =~= cell_bytes(cells[0]) + (cells_bytes(tail) + rest));
        assert(seq![cells[0]] + tail =~= cells);
    }
}

/// A written row is read back, whatever follows it.
pub proof fn lemma_row_round_trip(cells: Seq<Option<Stone>>, rest: Seq<u8>)
    requires
        cells.len() <= u64::MAX,
    ensures
        parse_row(row_bytes(cells) + rest) == Some((cells, rest)),
{
    lemma_u64_round_trip(cells.len() as u64, cells_bytes(cells) + rest);
    lemma_cells_round_trip(cells, rest);
    assert(row_bytes(cells) + rest =~= u64_bytes(cells.len() as u64) + (cells_bytes(cells)
        + rest));
}

/// Writing one more row appends its wire form.
pub proof fn lemma_rows_bytes_push(rows: Grid, row: Seq<Option<Stone>>)
    ensures
        rows_bytes(rows.push(row)) == rows_bytes(rows) + row_bytes(row),
    decreases rows.len(),
{
    if rows.len() == 0 {
        let one = rows.push(row);
        assert(one.drop_first() =~= Seq::<Seq<Option<Stone>>>::empty());
        assert(rows_bytes(one.drop_first()) =~= Seq::<u8>::empty());
        assert(rows_bytes(one) =~= row_bytes(one[0]) + rows_bytes(one.drop_first()));
        assert(rows_bytes(rows.push(row)) =~= row_bytes(row));
        assert(rows_bytes(rows) + row_bytes(row) =~= row_bytes(row));
    } else {
        lemma_rows_bytes_push(rows.drop_first(), row);
        assert(rows.push(row).drop_first() =~= rows.drop_first().push(row));
        assert(rows_bytes(rows.push(row)) =~= rows_bytes(rows) + row_bytes(row));
    }
}

/// Written rows are read back, whatever follows them.
pub proof fn lemma_rows_round_trip(rows: Grid, rest: Seq<u8>)
    requires
        forall|y: int| 0 <= y < rows.len() ==> (#[trigger] rows[y]).len() <= u64::MAX,
    ensures
        parse_rows(rows_bytes(rows) + rest, rows.len()) == Some((rows, rest)),
    decreases rows.len(),
{
    if rows.len() == 0 {
        assert(rows_bytes(rows) + rest =~= rest);
        assert(rows =~= Seq::empty());
    } else {
        let tail = rows.drop_first();
        lemma_row_round_trip(rows[0], rows_bytes(tail) + rest);
        assert forall|y: int| 0 <= y < tail.len() implies (#[trigger] tail[y]).len()
            <= u64::MAX by {
            assert(tail[y] == rows[y + 1]);
        }
        lemma_rows_round_trip(tail, rest);
        assert(rows_bytes(rows) + rest =~= row_bytes(rows[0]) + (rows_bytes(tail) + rest));
        assert(seq![rows[0]] + tail =~= rows);
    }
}

/// A written board is read back, whatever follows it.
pub proof fn lemma_grid_round_trip(grid: Grid, rest: Seq<u8>)
    requires
        grid_fits(grid),
    ensures
        parse_grid(grid_bytes(grid) + rest) == Some((grid, rest)),
{
    lemma_u64_round_trip(grid.len() as u64, rows_bytes(grid) + rest);
    lemma_rows_round_trip(grid, rest);
    assert(grid_bytes(grid) + rest =~= u64_bytes(grid.len() as u64) + (rows_bytes(grid) + rest));
}

/// The wire form of a player.
pub open spec fn player_bytes(player: PlayerView) -> Seq<u8> {
    text_bytes(player.username) + stone_bytes(player.stone)
}

/// Reads a player.
pub open spec fn parse_player(s: Seq<u8>) -> Parsed<PlayerView> {
    match parse_text(s) {
        Some((username, rest)) => match parse_stone(rest) {
            Some((stone, rest)) => Some((PlayerView { username, stone }, rest)),
            None => None,
        },
        None => None,
    }
}

/// The wire form of a roster entry: the name the player is filed under,
/// then the player.
pub open spec fn entry_bytes(player: PlayerView) -> Seq<u8> {
    text_bytes(player.username) + player_bytes(player)
}

/// Reads a roster entry. The player must be filed under their own name.
pub open spec fn parse_entry(s: Seq<u8>) -> Parsed<PlayerView> {
    match parse_text(s) {
        Some((key, rest)) => match parse_player(rest) {
            Some((player, rest)) => if key == player.username {
                Some((player, rest))
            } else {
                None
            },
            None => None,
        },
        None => None,
    }
}

/// The wire form of the entries of a roster, one after the other.
pub open spec fn entries_bytes(roster: Roster) -> Seq<u8>
    decreases roster.len(),
{
    if roster.len() == 0 {
        Seq::empty()
    } else {
        entry_bytes(roster[0]) + entries_bytes(roster.drop_first())
    }
}

/// Reads `count` roster entries.
pub open spec fn parse_entries(s: Seq<u8>, count: nat) -> Parsed<Roster>
    decreases count,
{
    if count == 0 {
        Some((Seq::empty(), s))
    } else {
        match parse_entry(s) {
            Some((player, rest)) => prepend(seq![player], parse_entries(rest, (count - 1) as nat)),
            None => None,
        }
    }
}

/// The wire form of a roster.
pub open spec fn roster_bytes(roster: Roster) -> Seq<u8> {
    u64_bytes(roster.len() as u64) + entries_bytes(roster)
}

/// Reads a roster.
pub open spec fn parse_roster(s: Seq<u8>) -> Parsed<Roster> {
    match parse_u64(s) {
        Some((count, rest)) => parse_entries(rest, count as nat),
        None => None,
    }
}

/// Whether the lengths in `roster` can be written as 64-bit integers.
pub open spec fn roster_fits(roster: Roster) -> bool {
    &&& roster.len() <= u64::MAX
    &&& forall|i: int| 0 <= i < roster.len() ==> text_fits((#[trigger] roster[i]).username)
}

/// The wire form of a room.
pub open spec fn room_bytes(room: RoomView) -> Seq<u8> {
    text_bytes(room.name) + u8_bytes(room.capacity) + grid_bytes(room.board) + roster_bytes(
        room.players,
    ) + text_bytes(room.current_player) + text_bytes(room.self_player)
}

/// Reads a room.
pub open spec fn parse_room(s: Seq<u8>) -> Parsed<RoomView> {
    match parse_text(s) {
        Some((name, rest)) => match parse_u8(rest) {
            Some((capacity, rest)) => match parse_grid(rest) {
                Some((board, rest)) => match parse_roster(rest) {
                    Some((players, rest)) => match parse_text(rest) {
                        Some((current_player, rest)) => match parse_text(rest) {
                            Some((self_player, rest)) => Some(
                                (
                                    RoomView {
                                        name,
                                        capacity,
                                        board,
                                        players,
                                        current_player,
                                        self_player,
                                    },
                                    rest,
                                ),
                            ),
                            None => None,
                        },
                        None => None,
                    },
                    None => None,
                },
                None => None,
            },
            None => None,
        },
        None => None,
    }
}

/// Whether the lengths in `room` can be written as 64-bit integers.
pub open spec fn room_fits(room: RoomView) -> bool {
    &&& text_fits(room.name)
    &&& grid_fits(room.board)
    &&& roster_fits(room.players)
    &&& text_fits(room.current_player)
    &&& text_fits(room.self_player)
}

/// The wire form of an optional room.
pub open spec fn optional_room_bytes(room: Option<RoomView>) -> Seq<u8> {
    match room {
        None => u8_bytes(0),
        Some(room) => u8_bytes(1) + room_bytes(room),
    }
}

/// Reads an optional room.
pub open spec fn parse_optional_room(s: Seq<u8>) -> Parsed<Option<RoomView>> {
    match parse_u8(s) {
        Some((tag, rest)) => if tag == 0 {
            Some((None, rest))
        } else if tag == 1 {
            match parse_room(rest) {
                Some((room, rest)) => Some((Some(room), rest)),
                None => None,
            }
        } else {
            None
        },
        None => None,
    }
}

/// The wire form of optional text.
pub open spec fn optional_text_bytes(text: Option<Seq<char>>) -> Seq<u8> {
    match text {
        None => u8_bytes(0),
        Some(text) => u8_bytes(1) + text_bytes(text),
    }
}

/// Reads optional text.
pub open spec fn parse_optional_text(s: Seq<u8>) -> Parsed<Option<Seq<char>>> {
    match parse_u8(s) {
        Some((tag, rest)) => if tag == 0 {
            Some((None, rest))
        } else if tag == 1 {
            match parse_text(rest) {
                Some((text, rest)) => Some((Some(text), rest)),
                None => None,
            }
        } else {
            None
        },
        None => None,
    }
}

/// The wire form of an optional placement.
pub open spec fn optional_placement_bytes(placement: Option<Placement>) -> Seq<u8> {
    match placement {
        None => u8_bytes(0),
        Some(placement) => u8_bytes(1) + position_bytes(placement.0) + cell_bytes(placement.1),
    }
}

/// Reads an optional placement.
pub open spec fn parse_optional_placement(s: Seq<u8>) -> Parsed<Option<Placement>> {
    match parse_u8(s) {
        Some((tag, rest)) => if tag == 0 {
            Some((None, rest))
        } else if tag == 1 {
            match parse_position(rest) {
                Some((position, rest)) => match parse_cell(rest) {
                    Some((cell, rest)) => Some((Some((position, cell)), rest)),
                    None => None,
                },
                None => None,
            }
        } else {
            None
        },
        None => None,
    }
}

/// The wire form of a ruling.
pub open spec fn move_bytes(ruling: MoveView) -> Seq<u8> {
    optional_placement_bytes(ruling.placement) + optional_text_bytes(ruling.player)
}

/// Reads a ruling.
pub open spec fn parse_move(s: Seq<u8>) -> Parsed<MoveView> {
    match parse_optional_placement(s) {
        Some((placement, rest)) => match parse_optional_text(rest) {
            Some((player, rest)) => Some((MoveView { placement, player }, rest)),
            None => None,
        },
        None => None,
    }
}

/// Whether the lengths in `ruling` can be written as 64-bit integers.
pub open spec fn move_fits(ruling: MoveView) -> bool {
    ruling.player matches Some(name) ==> text_fits(name)
}

/// A written player is read back, whatever follows it.
pub proof fn lemma_player_round_trip(player: PlayerView, rest: Seq<u8>)
    requires
        text_fits(player.username),
    ensures
        parse_player(player_bytes(player) + rest) == Some((player, rest)),
{
    lemma_text_round_trip(player.username, stone_bytes(player.stone) + rest);
    lemma_stone_round_trip(player.stone, rest);
    assert(player_bytes(player) + rest =~= text_bytes(player.username) + (stone_bytes(
        player.stone,
    ) + rest));
}

/// A written roster entry is read back, whatever follows it.
pub proof fn lemma_entry_round_trip(player: PlayerView, rest: Seq<u8>)
    requires
        text_fits(player.username),
    ensures
        parse_entry(entry_bytes(player) + rest) == Some((player, rest)),
{
    lemma_text_round_trip(player.username, player_bytes(player) + rest);
    lemma_player_round_trip(player, rest);
    assert(entry_bytes(player) + rest =~= text_bytes(player.username) + (player_bytes(player)
        + rest));
}

/// Writing one more roster entry appends its wire form.
pub proof fn lemma_entries_bytes_push(roster: Roster, player: PlayerView)
    ensures
        entries_bytes(roster.push(player)) == entries_bytes(roster) + entry_bytes(player),
    decreases roster.len(),
{
    if roster.len() == 0 {
        let one = roster.push(player);
        assert(one.drop_first() =~= Seq::<PlayerView>::empty());
        assert(entries_bytes(one.drop_first()) =~= Seq::<u8>::empty());
        assert(entries_bytes(one) =~= entry_bytes(one[0]) + entries_bytes(one.drop_first()));
        assert(entries_bytes(roster.push(player)) =~= entry_bytes(player));
        assert(entries_bytes(roster) + entry_bytes(player) =~= entry_bytes(player));
    } else {
        lemma_entries_bytes_push(roster.drop_first(), player);
        assert(roster.push(player).drop_first() =~= roster.drop_first().push(player));
        assert(entries_bytes(roster.push(player)) =~= entries_bytes(roster) + entry_bytes(
            player,
        ));
    }
}

/// Written roster entries are read back, whatever follows them.
pub proof fn lemma_entries_round_trip(roster: Roster, rest: Seq<u8>)
    requires
        forall|i: int| 0 <= i < roster.len() ==> text_fits((#[trigger] roster[i]).username),
    ensures
        parse_entries(entries_bytes(roster) + rest, roster.len()) == Some((roster, rest)),
    decreases roster.len(),
{
    if roster.len() == 0 {
        assert(entries_bytes(roster) + rest =~= rest);
        assert(roster =~= Seq::empty());
    } else {
        let tail = roster.drop_first();
        lemma_entry_round_trip(roster[0], entries_bytes(tail) + rest);
        assert forall|i: int| 0 <= i < tail.len() implies text_fits(
            (#[trigger] tail[i]).username,
        ) by {
            assert(tail[i] == roster[i + 1]);
        }
        lemma_entries_round_trip(tail, rest);
        assert(entries_bytes(roster) + rest =~= entry_bytes(roster[0]) + (entries_bytes(tail)
            + rest));
        assert(seq![roster[0]] + tail =~= roster);
    }
}

/// A written roster is read back, whatever follows it.
pub proof fn lemma_roster_round_trip(roster: Roster, rest: Seq<u8>)
    requires
        roster_fits(roster),
    ensures
        parse_roster(roster_bytes(roster) + rest) == Some((roster, rest)),
{
    lemma_u64_round_trip(roster.len() as u64, entries_bytes(roster) + rest);
    lemma_entries_round_trip(roster, rest);
    assert(roster_bytes(roster) + rest =~= u64_bytes(roster.len() as u64) + (entries_bytes(
        roster,
    ) + rest));
}

/// A written room is read back, whatever follows it.
pub proof fn lemma_room_round_trip(room: RoomView, rest: Seq<u8>)
    requires
        room_fits(room),
    ensures
        parse_room(room_bytes(room) + rest) == Some((room, rest)),
{
    let r5 = text_bytes(room.self_player) + rest;
    let r4 = text_bytes(room.current_player) + r5;
    let r3 = roster_bytes(room.players) + r4;
    let r2 = grid_bytes(room.board) + r3;
    let r1 = u8_bytes(room.capacity) + r2;
    lemma_text_round_trip(room.name, r1);
    lemma_u8_round_trip(room.capacity, r2);
    lemma_grid_round_trip(room.board, r3);
    lemma_roster_round_trip(room.players, r4);
    lemma_text_round_trip(room.current_player, r5);
    lemma_text_round_trip(room.self_player, rest);
    lemma_regroup(
        text_bytes(room.name),
        u8_bytes(room.capacity),
        grid_bytes(room.board),
        roster_bytes(room.players),
        text_bytes(room.current_player),
        text_bytes(room.self_player),
        rest,
    );
}

/// Six pieces followed by a rest are the first piece followed by everything
/// else.
proof fn lemma_regroup(
    a: Seq<u8>,
    b: Seq<u8>,
    c: Seq<u8>,
    d: Seq<u8>,
    e: Seq<u8>,
    f: Seq<u8>,
    rest: Seq<u8>,
)
    ensures
        a + b + c + d + e + f + rest == a + (b + (c + (d + (e + (f + rest))))),
{
    assert(a + b + c + d + e + f + rest =~= a + (b + (c + (d + (e + (f + rest))))));
}

/// A written optional room is read back, whatever follows it.
pub proof fn lemma_optional_room_round_trip(room: Option<RoomView>, rest: Seq<u8>)
    requires
        room matches Some(r) ==> room_fits(r),
    ensures
        parse_optional_room(optional_room_bytes(room) + rest) == Some((room, rest)),
{
    match room {
        None => {
            lemma_u8_round_trip(0, rest);
        },
        Some(r) => {
            lemma_u8_round_trip(1, room_bytes(r) + rest);
            lemma_room_round_trip(r, rest);
            assert(optional_room_bytes(room) + rest =~= u8_bytes(1) + (room_bytes(r) + rest));
        },
    }
}

/// Written optional text is read back, whatever follows it.
pub proof fn lemma_optional_text_round_trip(text: Option<Seq<char>>, rest: Seq<u8>)
    requires
        text matches Some(t) ==> text_fits(t),
    ensures
        parse_optional_text(optional_text_bytes(text) + rest) == Some((text, rest)),
{
    match text {
        None => {
            lemma_u8_round_trip(0, rest);
        },
        Some(t) => {
            lemma_u8_round_trip(1, text_bytes(t) + rest);
            lemma_text_round_trip(t, rest);
            assert(optional_text_bytes(text) + rest =~= u8_bytes(1) + (text_bytes(t) + rest));
        },
    }
}

/// A written optional placement is read back, whatever follows it.
pub proof fn lemma_optional_placement_round_trip(placement: Option<Placement>, rest: Seq<u8>)
    ensures
        parse_optional_placement(optional_placement_bytes(placement) + rest) == Some(
            (placement, rest),
        ),
{
    match placement {
        None => {
            lemma_u8_round_trip(0, rest);
        },
        Some(p) => {
            let r2 = cell_bytes(p.1) + rest;
            let r1 = position_bytes(p.0) + r2;
            lemma_u8_round_trip(1, r1);
            lemma_position_round_trip(p.0, r2);
            lemma_cell_round_trip(p.1, rest);
            assert(optional_placement_bytes(placement) + rest =~= u8_bytes(1) + r1);
        },
    }
}

/// A written ruling is read back, whatever follows it.
pub proof fn lemma_move_round_trip(ruling: MoveView, rest: Seq<u8>)
    requires
        move_fits(ruling),
    ensures
        parse_move(move_bytes(ruling) + rest) == Some((ruling, rest)),
{
    lemma_optional_placement_round_trip(
        ruling.placement,
        optional_text_bytes(ruling.player) + rest,
    );
    lemma_optional_text_round_trip(ruling.player, rest);
    assert(move_bytes(ruling) + rest =~= optional_placement_bytes(ruling.placement) + (
    optional_text_bytes(ruling.player) + rest));
}

/// A stone that was read stood in front of the rest in its wire form.
pub proof fn lemma_stone_parsed(s: Seq<u8>)
    ensures
        parse_stone(s) matches Some((stone, rest)) ==> s == stone_bytes(stone) + rest,
{
    lemma_u32_parsed(s);
}

/// A cell that was read stood in front of the rest in its wire form.
pub proof fn lemma_cell_parsed(s: Seq<u8>)
    ensures
        parse_cell(s) matches Some((cell, rest)) ==> s == cell_bytes(cell) + rest,
{
    if let Some((cell, rest)) = parse_cell(s) {
        lemma_u8_parsed(s);
        let (tag, after) = parse_u8(s).unwrap();
        if tag == 1 {
            lemma_stone_parsed(after);
            assert(s =~= cell_bytes(cell) + rest);
        }
    }
}

/// A position that was read stood in front of the rest in its wire form.
pub proof fn lemma_position_parsed(s: Seq<u8>)
    ensures
        parse_position(s) matches Some((position, rest)) ==> s == position_bytes(position)
            + rest,
{
    if let Some((position, rest)) = parse_position(s) {
        lemma_u8_parsed(s);
        let (x, after) = parse_u8(s).unwrap();
        lemma_u8_parsed(after);
        assert(s =~= position_bytes(position) + rest);
    }
}

/// An optional position that was read stood in front of the rest in its
/// wire form.
pub proof fn lemma_optional_position_parsed(s: Seq<u8>)
    ensures
        parse_optional_position(s) matches Some((position, rest)) ==> s
            == optional_position_bytes(position) + rest,
{
    if let Some((position, rest)) = parse_optional_position(s) {
        lemma_u8_parsed(s);
        let (tag, after) = parse_u8(s).unwrap();
        if tag == 1 {
            lemma_position_parsed(after);
            assert(s =~= optional_position_bytes(position) + rest);
        }
    }
}

/// Writing a list of cells is writing its first cell and then the others.
proof fn lemma_cells_bytes_cons(cell: Option<Stone>, tail: Seq<Option<Stone>>)
    ensures
        cells_bytes(seq![cell] + tail) == cell_bytes(cell) + cells_bytes(tail),
{
    let whole = seq![cell] + tail;
    assert(whole.drop_first() =~= tail);
    assert(whole[0] == cell);
}

/// Cells that were read are as many as were asked for and stood in front of
/// the rest in their wire form.
pub proof fn lemma_cells_parsed(s: Seq<u8>, count: nat)
    ensures
        parse_cells(s, count) matches Some((cells, rest)) ==> cells.len() == count && s
            == cells_bytes(cells) + rest,
    decreases count,
{
    if let Some((cells, rest)) = parse_cells(s, count) {
        if count == 0 {
            assert(s =~= cells_bytes(cells) + rest);
        } else {
            lemma_cell_parsed(s);
            let (cell, after) = parse_cell(s).unwrap();
            lemma_cells_parsed(after, (count - 1) as nat);
            let (tail, _) = parse_cells(after, (count - 1) as nat).unwrap();
            lemma_cells_bytes_cons(cell, tail);
            assert(s =~= cells_bytes(cells) + rest);
        }
    }
}

/// A row that was read stood in front of the rest in its wire form.
pub proof fn lemma_row_parsed(s: Seq<u8>)
    ensures
        parse_row(s) matches Some((cells, rest)) ==> s == row_bytes(cells) + rest && cells.len()
            <= u64::MAX,
{
    if let Some((cells, rest)) = parse_row(s) {
        lemma_u64_parsed(s);
        let (count, after) = parse_u64(s).unwrap();
        lemma_cells_parsed(after, count as nat);
        assert(s =~= row_bytes(cells) + rest);
    }
}

/// Writing a list of rows is writing its first row and then the others.
proof fn lemma_rows_bytes_cons(row: Seq<Option<Stone>>, tail: Grid)
    ensures
        rows_bytes(seq![row] + tail) == row_bytes(row) + rows_bytes(tail),
{
    let whole = seq![row] + tail;
    assert(whole.drop_first() =~= tail);
    assert(whole[0] == row);
}

/// Rows that were read are as many as were asked for and stood in front of
/// the rest in their wire form.
pub proof fn lemma_rows_parsed(s: Seq<u8>, count: nat)
    ensures
        parse_rows(s, count) matches Some((rows, rest)) ==> {
            &&& rows.len() == count
            &&& s == rows_bytes(rows) + rest
            &&& forall|y: int| 0 <= y < rows.len() ==> (#[trigger] rows[y]).len() <= u64::MAX
        },
    decreases count,
{
    if let Some((rows, rest)) = parse_rows(s, count) {
        if count == 0 {
            assert(s =~= rows_bytes(rows) + rest);
        } else {
            lemma_row_parsed(s);
            let (row, after) = parse_row(s).unwrap();
            lemma_rows_parsed(after, (count - 1) as nat);
            let (tail, _) = parse_rows(after, (count - 1) as nat).unwrap();
            lemma_rows_bytes_cons(row, tail);
            assert(s =~= rows_bytes(rows) + rest);
            assert forall|y: int| 0 <= y < rows.len() implies (#[trigger] rows[y]).len()
                <= u64::MAX by {
                if y > 0 {
                    assert(rows[y] == tail[y - 1]);
                }
            }
        }
    }
}

/// A board that was read stood in front of the rest in its wire form.
pub proof fn lemma_grid_parsed(s: Seq<u8>)
    ensures
        parse_grid(s) matches Some((grid, rest)) ==> s == grid_bytes(grid) + rest && grid_fits(
            grid,
        ),
{
    if let Some((grid, rest)) = parse_grid(s) {
        lemma_u64_parsed(s);
        let (count, after) = parse_u64(s).unwrap();
        lemma_rows_parsed(after, count as nat);
        assert(s =~= grid_bytes(grid) + rest);
    }
}

/// A player that was read stood in front of the rest in its wire form.
pub proof fn lemma_player_parsed(s: Seq<u8>)
    ensures
        parse_player(s) matches Some((player, rest)) ==> s == player_bytes(player) + rest
            && text_fits(player.username),
{
    if let Some((player, rest)) = parse_player(s) {
        lemma_text_parsed(s);
        let (_, after) = parse_text(s).unwrap();
        lemma_stone_parsed(after);
        assert(s =~= player_bytes(player) + rest);
    }
}

/// A roster entry that was read stood in front of the rest in its wire
/// form.
pub proof fn lemma_entry_parsed(s: Seq<u8>)
    ensures
        parse_entry(s) matches Some((player, rest)) ==> s == entry_bytes(player) + rest
            && text_fits(player.username),
{
    if let Some((player, rest)) = parse_entry(s) {
        lemma_text_parsed(s);
        let (_, after) = parse_text(s).unwrap();
        lemma_player_parsed(after);
        assert(s =~= entry_bytes(player) + rest);
    }
}

/// Writing a roster is writing its first entry and then the others.
proof fn lemma_entries_bytes_cons(player: PlayerView, tail: Roster)
    ensures
        entries_bytes(seq![player] + tail) == entry_bytes(player) + entries_bytes(tail),
{
    let whole = seq![player] + tail;
    assert(whole.drop_first() =~= tail);
    assert(whole[0] == player);
}

/// Roster entries that were read are as many as were asked for and stood
/// in front of the rest in their wire form.
pub proof fn lemma_entries_parsed(s: Seq<u8>, count: nat)
    ensures
        parse_entries(s, count) matches Some((roster, rest)) ==> {
            &&& roster.len() == count
            &&& s == entries_bytes(roster) + rest
            &&& forall|i: int| 0 <= i < roster.len() ==> text_fits((#[trigger] roster[i]).username)
        },
    decreases count,
{
    if let Some((roster, rest)) = parse_entries(s, count) {
        if count == 0 {
            assert(s =~= entries_bytes(roster) + rest);
        } else {
            lemma_entry_parsed(s);
            let (player, after) = parse_entry(s).unwrap();
            lemma_entries_parsed(after, (count - 1) as nat);
            let (tail, _) = parse_entries(after, (count - 1) as nat).unwrap();
            lemma_entries_bytes_cons(player, tail);
            assert(s =~= entries_bytes(roster) + rest);
            assert forall|i: int| 0 <= i < roster.len() implies text_fits(
                (#[trigger] roster[i]).username,
            ) by {
                if i > 0 {
                    assert(roster[i] == tail[i - 1]);
                }
            }
        }
    }
}

/// A roster that was read stood in front of the rest in its wire form.
pub proof fn lemma_roster_parsed(s: Seq<u8>)
    ensures
        parse_roster(s) matches Some((roster, rest)) ==> s == roster_bytes(roster) + rest
            && roster_fits(roster),
{
    if let Some((roster, rest)) = parse_roster(s) {
        lemma_u64_parsed(s);
        let (count, after) = parse_u64(s).unwrap();
        lemma_entries_parsed(after, count as nat);
        assert(s =~= roster_bytes(roster) + rest);
    }
}

/// A room that was read stood in front of the rest in its wire form.
pub proof fn lemma_room_parsed(s: Seq<u8>)
    ensures
        parse_room(s) matches Some((room, rest)) ==> s == room_bytes(room) + rest && room_fits(
            room,
        ),
{
    if let Some((room, rest)) = parse_room(s) {
        lemma_text_parsed(s);
        let (_, r1) = parse_text(s).unwrap();
        lemma_u8_parsed(r1);
        let (_, r2) = parse_u8(r1).unwrap();
        lemma_grid_parsed(r2);
        let (_, r3) = parse_grid(r2).unwrap();
        lemma_roster_parsed(r3);
        let (_, r4) = parse_roster(r3).unwrap();
        lemma_text_parsed(r4);
        let (_, r5) = parse_text(r4).unwrap();
        lemma_text_parsed(r5);
        lemma_regroup(
            text_bytes(room.name),
            u8_bytes(room.capacity),
            grid_bytes(room.board),
            roster_bytes(room.players),
            text_bytes(room.current_player),
            text_bytes(room.self_player),
            rest,
        );
    }
}

/// An optional room that was read stood in front of the rest in its wire
/// form.
pub proof fn lemma_optional_room_parsed(s: Seq<u8>)
    ensures
        parse_optional_room(s) matches Some((room, rest)) ==> s == optional_room_bytes(room)
            + rest && (room matches Some(r) ==> room_fits(r)),
{
    if let Some((room, rest)) = parse_optional_room(s) {
        lemma_u8_parsed(s);
        let (tag, after) = parse_u8(s).unwrap();
        if tag == 1 {
            lemma_room_parsed(after);
            assert(s =~= optional_room_bytes(room) + rest);
        }
    }
}

/// Optional text that was read stood in front of the rest in its wire form.
pub proof fn lemma_optional_text_parsed(s: Seq<u8>)
    ensures
        parse_optional_text(s) matches Some((text, rest)) ==> s == optional_text_bytes(text)
            + rest && (text matches Some(t) ==> text_fits(t)),
{
    if let Some((text, rest)) = parse_optional_text(s) {
        lemma_u8_parsed(s);
        let (tag, after) = parse_u8(s).unwrap();
        if tag == 1 {
            lemma_text_parsed(after);
            assert(s =~= optional_text_bytes(text) + rest);
        }
    }
}

/// An optional placement that was read stood in front of the rest in its
/// wire form.
pub proof fn lemma_optional_placement_parsed(s: Seq<u8>)
    ensures
        parse_optional_placement(s) matches Some((placement, rest)) ==> s
            == optional_placement_bytes(placement) + rest,
{
    if let Some((placement, rest)) = parse_optional_placement(s) {
        lemma_u8_parsed(s);
        let (tag, after) = parse_u8(s).unwrap();
        if tag == 1 {
            lemma_position_parsed(after);
            let (_, last) = parse_position(after).unwrap();
            lemma_cell_parsed(last);
            assert(s =~= optional_placement_bytes(placement) + rest);
        }
    }
}

/// A ruling that was read stood in front of the rest in its wire form.
pub proof fn lemma_move_parsed(s: Seq<u8>)
    ensures
        parse_move(s) matches Some((ruling, rest)) ==> s == move_bytes(ruling) + rest
            && move_fits(ruling),
{
    if let Some((ruling, rest)) = parse_move(s) {
        lemma_optional_placement_parsed(s);
        let (_, after) = parse_optional_placement(s).unwrap();
        lemma_optional_text_parsed(after);
        assert(s =~= move_bytes(ruling) + rest);
    }
}

} // verus!
