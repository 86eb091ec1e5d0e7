//! What is drawn on a board besides its lines and stones: the star points
//! of the customary board sizes and the labels along the edges.

use vstd::prelude::*;
use vstd::string::StringExecFns;
use crate::logic::Position;

verus! {

/// The cells that carry a star point on a board of `side` lines, row by
/// row. Boards of 9 and 13 lines have four at the quarter lines and one in
/// the centre; boards of 19 lines have nine, on the fourth, tenth and
/// sixteenth lines. No other board has any.
pub open spec fn star_points(side: int) -> Seq<Position<u32>> {
    if side == 9 || side == 13 {
        let q = ((side - 1) / 4) as u32;
        seq![
            Position(q, q),
            Position((3 * q) as u32, q),
            Position(q, (3 * q) as u32),
            Position((3 * q) as u32, (3 * q) as u32),
            Position((2 * q) as u32, (2 * q) as u32),
        ]
    } else if side == 19 {
        seq![
            Position(3, 3),
            Position(9, 3),
            Position(15, 3),
            Position(3, 9),
            Position(9, 9),
            Position(15, 9),
            Position(3, 15),
            Position(9, 15),
            Position(15, 15),
        ]
    } else {
        Seq::empty()
    }
}

/// Every star point is a cell of the board it decorates.
pub proof fn lemma_star_points_on_board(side: int, i: int)
    requires
        0 <= i < star_points(side).len(),
    ensures
        star_points(side)[i].0 < side,
        star_points(side)[i].1 < side,
{
}

/// The star points of a board of `side` lines.
pub fn star_cells(side: usize) -> (cells: Vec<Position<u32>>)
    ensures
        cells@ == star_points(side as int),
{
    let mut cells: Vec<Position<u32>> = Vec::new();
    if side == 9 || side == 13 {
        let q: u32 = ((side - 1) / 4) as u32;
        cells.push(Position(q, q));
        cells.push(Position(3 * q, q));
        cells.push(Position(q, 3 * q));
        cells.push(Position(3 * q, 3 * q));
        cells.push(Position(2 * q, 2 * q));
    } else if side == 19 {
        cells.push(Position(3, 3));
        cells.push(Position(9, 3));
        cells.push(Position(15, 3));
        cells.push(Position(3, 9));
        cells.push(Position(9, 9));
        cells.push(Position(15, 9));
        cells.push(Position(3, 15));
        cells.push(Position(9, 15));
        cells.push(Position(15, 15));
    }
    assert(cells@ =~= star_points(side as int));
    cells
}

/// The letter of the alphabet in place `k`, counted from zero.
pub open spec fn letter(k: int) -> Seq<char> {
    if k == 0 {
        "A"@
    } else if k == 1 {
        "B"@
    } else if k == 2 {
        "C"@
    } else if k == 3 {
        "D"@
    } else if k == 4 {
        "E"@
    } else if k == 5 {
        "F"@
    } else if k == 6 {
        "G"@
    } else if k == 7 {
        "H"@
    } else if k == 8 {
        "I"@
    } else if k == 9 {
        "J"@
    } else if k == 10 {
        "K"@
    } else if k == 11 {
        "L"@
    } else if k == 12 {
        "M"@
    } else if k == 13 {
        "N"@
    } else if k == 14 {
        "O"@
    } else if k == 15 {
        "P"@
    } else if k == 16 {
        "Q"@
    } else if k == 17 {
        "R"@
    } else if k == 18 {
        "S"@
    } else if k == 19 {
        "T"@
    } else if k == 20 {
        "U"@
    } else if k == 21 {
        "V"@
    } else if k == 22 {
        "W"@
    } else if k == 23 {
        "X"@
    } else if k == 24 {
        "Y"@
    } else {
        "Z"@
    }
}

/// `text` written `times` times.
pub open spec fn repeated(text: Seq<char>, times: nat) -> Seq<char>
    decreases times,
{
    if times == 0 {
        Seq::empty()
    } else {
        repeated(text, (times - 1) as nat) + text
    }
}

/// How often the letter of column `index` is written: once for the first
/// twenty-seven columns, and once more for every twenty-six after that.
pub open spec fn letter_count(index: int) -> nat {
    if index <= 26 {
        1
    } else {
        ((index + 25) / 26) as nat
    }
}

/// The label of column `index`, counted from zero: the letter of the
/// alphabet in place `index`, starting over after `Z`, written
/// [`letter_count`] times.
pub open spec fn column_label_text(index: int) -> Seq<char> {
    repeated(letter(index % 26), letter_count(index))
}

/// The letter of the alphabet in place `k`, counted from zero.
fn letter_text(k: u32) -> (text: &'static str)
    requires
        k < 26,
    ensures
        text@ == letter(k as int),
{
    if k == 0 {
        "A"
    } else if k == 1 {
        "B"
    } else if k == 2 {
        "C"
    } else if k == 3 {
        "D"
    } else if k == 4 {
        "E"
    } else if k == 5 {
        "F"
    } else if k == 6 {
        "G"
    } else if k == 7 {
        "H"
    } else if k == 8 {
        "I"
    } else if k == 9 {
        "J"
    } else if k == 10 {
        "K"
    } else if k == 11 {
        "L"
    } else if k == 12 {
        "M"
    } else if k == 13 {
        "N"
    } else if k == 14 {
        "O"
    } else if k == 15 {
        "P"
    } else if k == 16 {
        "Q"
    } else if k == 17 {
        "R"
    } else if k == 18 {
        "S"
    } else if k == 19 {
        "T"
    } else if k == 20 {
        "U"
    } else if k == 21 {
        "V"
    } else if k == 22 {
        "W"
    } else if k == 23 {
        "X"
    } else if k == 24 {
        "Y"
    } else {
        "Z"
    }
}

/// The label of column `index`, counted from zero.
pub fn column_label(index: u32) -> (label: String)
    ensures
        label@ == column_label_text(index as int),
{
    let text = letter_text(index % 26);
    let times: u32 = if index <= 26 {
        1
    } else {
        (index - 1) / 26 + 1
    };
    assert(times == letter_count(index as int));
    let mut label = String::new();
    let mut i: u32 = 0;
    while i < times
        invariant
            i <= times,
            label@ == repeated(text@, i as nat),
        decreases times - i,
    {
        label.append(text);
        i = i + 1;
    }
    label
}

} // verus!
