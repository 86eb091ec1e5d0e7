//! Reading the room-creation form: two text fields that must each write a
//! number from 0 to 255.

use vstd::prelude::*;
use vstd::string::StrSliceExecFns;
use vstd::utf8::encode_utf8;
use crate::machine::IntentView;
use crate::session::Intent;

verus! {

/// Shown beside the capacity field when it does not write a number.
pub const INVALID_CAPACITY: &'static str = "Invalid Capacity. Enter a positive integer such as \"4\".";

/// Shown beside the board-length field when it does not write a number.
pub const INVALID_DIMENSIONS: &'static str = "Invalid Dimensions. Enter a positive integer such as \"9\".";

/// Whether `byte` is an ASCII decimal digit.
pub open spec fn is_digit(byte: u8) -> bool {
    0x30 <= byte <= 0x39
}

/// Whether `bytes` are ASCII decimal digits throughout.
pub open spec fn all_digits(bytes: Seq<u8>) -> bool {
    forall|i: int| 0 <= i < bytes.len() ==> is_digit(#[trigger] bytes[i])
}

/// The number that the decimal digits `digits` write.
pub open spec fn digits_value(digits: Seq<u8>) -> nat
    decreases digits.len(),
{
    if digits.len() == 0 {
        0
    } else {
        (digits_value(digits.drop_last()) * 10 + (digits.last() - 0x30)) as nat
    }
}

/// The digits of a field: what follows the plus sign, if the field begins
/// with one, and the whole field otherwise.
pub open spec fn digits_of(bytes: Seq<u8>) -> Seq<u8> {
    if bytes.len() > 0 && bytes[0] == 0x2b {
        bytes.skip(1)
    } else {
        bytes
    }
}

/// The number from 0 to 255 that a field writes: at least one decimal digit,
/// with or without a plus sign in front, and nothing else. Leading zeros
/// count for nothing.
pub open spec fn written_u8(bytes: Seq<u8>) -> Option<u8> {
    let digits = digits_of(bytes);
    if digits.len() > 0 && all_digits(digits) && digits_value(digits) <= u8::MAX {
        Some(digits_value(digits) as u8)
    } else {
        None
    }
}

/// More digits never write a smaller number.
pub proof fn lemma_digits_value_grows(digits: Seq<u8>, k: int)
    requires
        0 <= k <= digits.len(),
        all_digits(digits),
    ensures
        digits_value(digits.take(k)) <= digits_value(digits),
    decreases digits.len() - k,
{
    if k == digits.len() {
        assert(digits.take(k) =~= digits);
    } else {
        lemma_digits_value_grows(digits, k + 1);
        assert(digits.take(k + 1).drop_last() =~= digits.take(k));
        assert(is_digit(digits[k]));
    }
}

/// Reads a number from 0 to 255 out of a form field.
pub fn read_u8(text: &String) -> (r: Option<u8>)
    ensures
        r == written_u8(encode_utf8(text@)),
{
    let bytes = text.as_str().as_bytes_vec();
    let first: usize = if bytes.len() > 0 && bytes[0] == 0x2b {
        1
    } else {
        0
    };
    let ghost digits = digits_of(bytes@);
    assert(digits =~= bytes@.skip(first as int));
    if bytes.len() == first {
        return None;
    }
    let mut value: u32 = 0;
    let mut i: usize = first;
    assert(digits.take(0) =~= Seq::<u8>::empty());
    while i < bytes.len()
        invariant
            first <= i <= bytes.len(),
            first <= 1,
            bytes@ == encode_utf8(text@),
            digits == digits_of(bytes@),
            digits == bytes@.skip(first as int),
            all_digits(digits.take(i - first)),
            value == digits_value(digits.take(i - first)),
            value <= u8::MAX,
        decreases bytes.len() - i,
    {
        let byte: u8 = bytes[i];
        if byte < 0x30 || byte > 0x39 {
            assert(!is_digit(digits[i - first]));
            return None;
        }
        let ghost longer = digits.take(i - first + 1);
        proof {
            assert(longer.drop_last() =~= digits.take(i - first));
            assert(longer.last() == byte);
            assert forall|j: int| 0 <= j < longer.len() implies is_digit(#[trigger] longer[j]) by {
                if j < i - first {
                    assert(longer[j] == digits.take(i - first)[j]);
                }
            }
        }
        value = value * 10 + (byte - 0x30) as u32;
        if value > 255 {
            proof {
                if all_digits(digits) {
                    lemma_digits_value_grows(digits, i - first + 1);
                }
            }
            return None;
        }
        i = i + 1;
    }
    assert(digits.take(i - first) =~= digits);
    Some(value as u8)
}

/// Which fields of the room-creation form do not write a number.
#[derive(Clone, Copy, Debug, PartialEq, Eq, Structural)]
pub struct RoomFormErrors {
    pub capacity: bool,
    pub board_length: bool,
}

/// Reads the room-creation form. When both fields write a number, the
/// result is the intent to create a square board of that length for that
/// many players; otherwise it names every field that does not.
pub fn read_room_form(capacity: &String, board_length: &String) -> (r: Result<
    Intent,
    RoomFormErrors,
>)
    ensures
        match (written_u8(encode_utf8(capacity@)), written_u8(encode_utf8(board_length@))) {
            (Some(seats), Some(length)) => r matches Ok(intent) && intent@
                == (IntentView::SubmitRoomCreate { capacity: seats, width: length, height: length }),
            (seats, length) => r == Err::<Intent, RoomFormErrors>(
                RoomFormErrors { capacity: seats is None, board_length: length is None },
            ),
        },
{
    let seats = read_u8(capacity);
    let length = read_u8(board_length);
    match (seats, length) {
        (Some(seats), Some(length)) => Ok(
            Intent::SubmitRoomCreate { capacity: seats, width: length, height: length },
        ),
        (seats, length) => Err(
            RoomFormErrors { capacity: seats.is_none(), board_length: length.is_none() },
        ),
    }
}

} // verus!
