//! Players, the roster and the room mirror.

use vstd::prelude::*;
use crate::logic::{grid_after, grid_is_square, placement_on_grid, Board, Grid, Placement, Stone};

verus! {

/// A seated player.
#[derive(Clone, Debug, PartialEq, Eq)]
pub struct Player {
    pub username: String,
    pub stone: Stone,
}

/// The model of a [`Player`].
pub struct PlayerView {
    pub username: Seq<char>,
    pub stone: Stone,
}

impl View for Player {
    type V = PlayerView;

    open spec fn view(&self) -> PlayerView {
        PlayerView { username: self.username@, stone: self.stone }
    }
}

/// The model of the seated players, in the order they are held.
pub type Roster = Seq<PlayerView>;

/// The roster that a vector of players stands for.
pub open spec fn roster_of(players: Seq<Player>) -> Roster {
    Seq::new(players.len(), |i: int| players[i]@)
}

/// Whether some player of `roster` is called `name`.
pub open spec fn roster_has(roster: Roster, name: Seq<char>) -> bool {
    exists|i: int| 0 <= i < roster.len() && (#[trigger] roster[i]).username == name
}

/// Whether `i` is the first place in `roster` held by a player called `name`.
pub open spec fn first_named(roster: Roster, name: Seq<char>, i: int) -> bool {
    &&& 0 <= i < roster.len()
    &&& roster[i].username == name
    &&& forall|j: int| 0 <= j < i ==> (#[trigger] roster[j]).username != name
}

/// The first place in `roster` held by a player called `name`, if any.
pub open spec fn roster_find(roster: Roster, name: Seq<char>) -> Option<int> {
    if exists|i: int| first_named(roster, name, i) {
        Some(choose|i: int| first_named(roster, name, i))
    } else {
        None
    }
}

/// Whether no two players of `roster` share a name.
pub open spec fn roster_unique(roster: Roster) -> bool {
    forall|i: int, j: int|
        0 <= i < j < roster.len() ==> (#[trigger] roster[i]).username != (
        #[trigger] roster[j]).username
}

/// `roster` with `player` seated: in the place of the player of that name,
/// if there is one, and at the end otherwise.
pub open spec fn roster_insert(roster: Roster, player: PlayerView) -> Roster {
    match roster_find(roster, player.username) {
        Some(i) => roster.update(i, player),
        None => roster.push(player),
    }
}

/// `roster` without the player called `name`; unchanged when nobody is.
pub open spec fn roster_remove(roster: Roster, name: Seq<char>) -> Roster {
    match roster_find(roster, name) {
        Some(i) => roster.remove(i),
        None => roster,
    }
}

/// The stone of the player called `name`, if seated.
pub open spec fn roster_stone(roster: Roster, name: Seq<char>) -> Option<Stone> {
    match roster_find(roster, name) {
        Some(i) => Some(roster[i].stone),
        None => None,
    }
}

/// What [`roster_find`] returns is the first place held under that name,
/// and it returns nothing exactly when the name is absent.
pub proof fn lemma_roster_find(roster: Roster, name: Seq<char>)
    ensures
        roster_find(roster, name) matches Some(i) ==> first_named(roster, name, i),
        roster_find(roster, name) is None <==> !roster_has(roster, name),
        forall|i: int| first_named(roster, name, i) ==> roster_find(roster, name) == Some(i),
{
    if roster_has(roster, name) {
        let k = choose|i: int| 0 <= i < roster.len() && (#[trigger] roster[i]).username == name;
        lemma_first_exists(roster, name, k);
    }
    assert forall|i: int| first_named(roster, name, i) implies roster_find(roster, name) == Some(
        i,
    ) by {
        let c = choose|c: int| first_named(roster, name, c);
        if c < i {
            assert(roster[c].username == name);
        } else if i < c {
            assert(roster[i].username == name);
        }
    }
}

/// If place `k` is held under `name`, some place at or before `k` is the
/// first one held under it.
proof fn lemma_first_exists(roster: Roster, name: Seq<char>, k: int)
    requires
        0 <= k < roster.len(),
        roster[k].username == name,
    ensures
        exists|i: int| first_named(roster, name, i),
    decreases k,
{
    if exists|j: int| 0 <= j < k && (#[trigger] roster[j]).username == name {
        let j = choose|j: int| 0 <= j < k && (#[trigger] roster[j]).username == name;
        lemma_first_exists(roster, name, j);
    } else {
        assert(first_named(roster, name, k));
    }
}

/// A named, capacity-bounded match: one board and its seated players.
#[derive(Clone, Debug, PartialEq, Eq)]
pub struct Room {
    pub name: String,
    pub capacity: u8,
    pub board: Board,
    pub players: Vec<Player>,
    pub current_player: String,
    pub self_player: String,
}

/// The model of a [`Room`].
pub struct RoomView {
    pub name: Seq<char>,
    pub capacity: u8,
    pub board: Grid,
    pub players: Roster,
    pub current_player: Seq<char>,
    pub self_player: Seq<char>,
}

impl View for Room {
    type V = RoomView;

    open spec fn view(&self) -> RoomView {
        RoomView {
            name: self.name@,
            capacity: self.capacity,
            board: self.board@,
            players: roster_of(self.players@),
            current_player: self.current_player@,
            self_player: self.self_player@,
        }
    }
}

/// A room is well formed when its board is square, no two of its players
/// share a name, and the player whose turn it is is seated.
pub open spec fn room_well_formed(room: RoomView) -> bool {
    &&& grid_is_square(room.board)
    &&& roster_unique(room.players)
    &&& roster_has(room.players, room.current_player)
}

impl Room {
    /// See [`room_well_formed`].
    pub open spec fn well_formed(&self) -> bool {
        room_well_formed(self@)
    }

    /// Runtime form of [`Room::well_formed`].
    pub fn is_well_formed(&self) -> (b: bool)
        ensures
            b == self.well_formed(),
    {
        board_is_square(&self.board) && players_are_unique(&self.players) && self.find_player(
            &self.current_player,
        ).is_some()
    }

    /// The first place in the roster held under `username`.
    pub fn find_player(&self, username: &String) -> (r: Option<usize>)
        ensures
            match r {
                Some(i) => roster_find(self@.players, username@) == Some(i as int),
                None => roster_find(self@.players, username@) is None,
            },
            r is Some <==> roster_has(self@.players, username@),
    {
        let ghost roster = self@.players;
        let mut i: usize = 0;
        while i < self.players.len()
            invariant
                i <= self.players.len(),
                roster == self@.players,
                forall|j: int| 0 <= j < i ==> (#[trigger] roster[j]).username != username@,
            decreases self.players.len() - i,
        {
            if self.players[i].username == *username {
                proof {
                    assert(roster[i as int] == self.players@[i as int]@);
                    assert(first_named(roster, username@, i as int));
                    lemma_roster_find(roster, username@);
                }
                return Some(i);
            }
            proof {
                assert(roster[i as int] == self.players@[i as int]@);
            }
            i = i + 1;
        }
        proof {
            lemma_roster_find(roster, username@);
        }
        None
    }

    /// The stone of the player called `username`, if seated.
    pub fn stone_of(&self, username: &String) -> (r: Option<Stone>)
        ensures
            r == roster_stone(self@.players, username@),
    {
        match self.find_player(username) {
            Some(i) => Some(self.players[i].stone),
            None => None,
        }
    }

    /// Seats `player`, in the place of the player of the same name if there
    /// is one.
    pub fn add_player(&mut self, player: Player)
        ensures
            final(self)@ == (RoomView {
                players: roster_insert(old(self)@.players, player@),
                ..old(self)@
            }),
            old(self).well_formed() ==> final(self).well_formed(),
    {
        let ghost before = self@.players;
        let found = self.find_player(&player.username);
        proof {
            lemma_roster_find(before, player@.username);
            if self.well_formed() {
                lemma_insert_keeps_roster(before, player@, self@.current_player);
            }
        }
        match found {
            Some(i) => {
                self.players[i] = player;
            },
            None => {
                self.players.push(player);
            },
        }
        assert(self@.players =~= roster_insert(before, player@));
    }

    /// Unseats the player called `username`. The player whose turn it is
    /// stays seated: the call then changes nothing and returns `false`.
    pub fn remove_player(&mut self, username: &String) -> (done: bool)
        ensures
            done == (username@ != old(self)@.current_player),
            done ==> final(self)@ == (RoomView {
                players: roster_remove(old(self)@.players, username@),
                ..old(self)@
            }),
            !done ==> final(self)@ == old(self)@,
            old(self).well_formed() ==> final(self).well_formed(),
    {
        if *username == self.current_player {
            return false;
        }
        let ghost before = self@.players;
        let found = self.find_player(username);
        proof {
            lemma_roster_find(before, username@);
            if self.well_formed() {
                lemma_remove_keeps_roster(before, username@, self@.current_player);
            }
        }
        match found {
            Some(i) => {
                let _ = self.players.remove(i);
                assert(self@.players =~= roster_remove(before, username@));
            },
            None => {},
        }
        true
    }

    /// Passes the turn to `username`, who must be seated: otherwise the call
    /// changes nothing and returns `false`.
    pub fn set_current_player(&mut self, username: String) -> (done: bool)
        ensures
            done == roster_has(old(self)@.players, username@),
            done ==> final(self)@ == (RoomView { current_player: username@, ..old(self)@ }),
            !done ==> final(self)@ == old(self)@,
            old(self).well_formed() ==> final(self).well_formed(),
    {
        if self.find_player(&username).is_none() {
            return false;
        }
        self.current_player = username;
        true
    }

    /// Applies a placement to the board. A placement off the board changes
    /// nothing and returns `false`.
    pub fn place(&mut self, placement: Placement) -> (done: bool)
        requires
            old(self).well_formed(),
        ensures
            done == placement_on_grid(placement, old(self)@.board.len() as int),
            done ==> final(self)@ == (RoomView {
                board: grid_after(old(self)@.board, placement),
                ..old(self)@
            }),
            !done ==> final(self)@ == old(self)@,
            final(self).well_formed(),
    {
        let side: usize = self.board.side();
        if placement.0.0 as usize >= side || placement.0.1 as usize >= side {
            return false;
        }
        self.board.place(placement.0, placement.1);
        true
    }
}

/// Whether every row of `board` is as long as the board is high.
pub fn board_is_square(board: &Board) -> (b: bool)
    ensures
        b == board.well_formed(),
{
    let side: usize = board.stones.len();
    let mut y: usize = 0;
    while y < side
        invariant
            y <= side,
            side == board.stones.len(),
            forall|k: int| 0 <= k < y ==> (#[trigger] board@[k]).len() == side,
        decreases side - y,
    {
        if board.stones[y].len() != side {
            assert(board@[y as int].len() != board@.len());
            return false;
        }
        y = y + 1;
    }
    true
}

/// Whether no two of `players` share a name.
pub fn players_are_unique(players: &Vec<Player>) -> (b: bool)
    ensures
        b == roster_unique(roster_of(players@)),
{
    let ghost roster = roster_of(players@);
    let mut j: usize = 0;
    while j < players.len()
        invariant
            j <= players.len(),
            roster == roster_of(players@),
            forall|a: int, c: int|
                0 <= a < c < j ==> (#[trigger] roster[a]).username != (
                #[trigger] roster[c]).username,
        decreases players.len() - j,
    {
        let mut i: usize = 0;
        while i < j
            invariant
                i <= j < players.len(),
                roster == roster_of(players@),
                forall|a: int| 0 <= a < i ==> (#[trigger] roster[a]).username != roster[j as int].username,
            decreases j - i,
        {
            if players[i].username == players[j].username {
                assert(roster[i as int].username == roster[j as int].username);
                return false;
            }
            i = i + 1;
        }
        j = j + 1;
    }
    true
}

/// Seating a player keeps names unique and keeps everyone who was seated.
pub proof fn lemma_insert_keeps_roster(roster: Roster, player: PlayerView, name: Seq<char>)
    requires
        roster_unique(roster),
    ensures
        roster_unique(roster_insert(roster, player)),
        roster_has(roster_insert(roster, player), player.username),
        roster_has(roster, name) ==> roster_has(roster_insert(roster, player), name),
{
    lemma_roster_find(roster, player.username);
    let after = roster_insert(roster, player);
    match roster_find(roster, player.username) {
        Some(i) => {
            assert(after[i].username == player.username);
            assert forall|a: int, c: int| 0 <= a < c < after.len() implies (#[trigger] after[a]).username
                != (#[trigger] after[c]).username by {
                assert(roster[a].username != roster[c].username);
                assert(roster[i].username == player.username);
            }
            if roster_has(roster, name) {
                let k = choose|k: int| 0 <= k < roster.len() && (#[trigger] roster[k]).username == name;
                assert(after[k].username == name);
            }
        },
        None => {
            let last = roster.len() as int;
            assert(after[last].username == player.username);
            assert forall|a: int, c: int| 0 <= a < c < after.len() implies (#[trigger] after[a]).username
                != (#[trigger] after[c]).username by {
                if c < last {
                    assert(roster[a].username != roster[c].username);
                } else {
                    assert(roster[a].username != player.username);
                }
            }
            if roster_has(roster, name) {
                let k = choose|k: int| 0 <= k < roster.len() && (#[trigger] roster[k]).username == name;
                assert(after[k].username == name);
            }
        },
    }
}

/// Unseating a player keeps names unique, removes that name, and keeps
/// everyone else who was seated.
pub proof fn lemma_remove_keeps_roster(roster: Roster, gone: Seq<char>, name: Seq<char>)
    requires
        roster_unique(roster),
    ensures
        roster_unique(roster_remove(roster, gone)),
        !roster_has(roster_remove(roster, gone), gone),
        name != gone ==> (roster_has(roster_remove(roster, gone), name) <==> roster_has(
            roster,
            name,
        )),
{
    lemma_roster_find(roster, gone);
    let after = roster_remove(roster, gone);
    match roster_find(roster, gone) {
        Some(i) => {
            assert forall|a: int, c: int| 0 <= a < c < after.len() implies (#[trigger] after[a]).username
                != (#[trigger] after[c]).username by {
                let a0 = if a < i { a } else { a + 1 };
                let c0 = if c < i { c } else { c + 1 };
                assert(roster[a0].username != roster[c0].username);
            }
            if roster_has(after, gone) {
                let k = choose|k: int| 0 <= k < after.len() && (#[trigger] after[k]).username == gone;
                let k0 = if k < i { k } else { k + 1 };
                assert(roster[k0].username == gone);
                if k0 < i {
                    assert(roster[k0].username != roster[i].username);
                } else {
                    assert(roster[i].username != roster[k0].username);
                }
            }
            if name != gone {
                if roster_has(roster, name) {
                    let k = choose|k: int| 0 <= k < roster.len() && (#[trigger] roster[k]).username == name;
                    let k1 = if k < i { k } else { k - 1 };
                    assert(after[k1].username == name);
                }
                if roster_has(after, name) {
                    let k = choose|k: int| 0 <= k < after.len() && (#[trigger] after[k]).username == name;
                    let k0 = if k < i { k } else { k + 1 };
                    assert(roster[k0].username == name);
                }
            }
        },
        None => {},
    }
}

} // verus!
