//! Cell names as a player types them: a row letter `a`, `b` or `c` followed
//! by a column digit, so that `a1` is the top left cell and `c3` the bottom
//! right one.

use vstd::prelude::*;
use vstd::string::StrSliceExecFns;
use vstd::string::StringExecFns;

verus! {

/// Whether `letter` names a row.
pub open spec fn is_row_letter(letter: char) -> bool {
    letter == 'a' || letter == 'b' || letter == 'c'
}

/// Index of the first cell of the row that `letter` names.
pub open spec fn row_offset(letter: char) -> int {
    if letter == 'a' {
        0
    } else if letter == 'b' {
        3
    } else {
        6
    }
}

/// Whether `digit` is one of `0` to `9`.
pub open spec fn is_decimal_digit(digit: char) -> bool {
    '0' <= digit <= '9'
}

/// The number that a decimal digit stands for.
pub open spec fn digit_value(digit: char) -> int {
    digit as u32 - '0' as u32
}

/// Whether a text starts with a coordinate: a row letter and a decimal digit
/// that together name an index that is not negative.  Whatever follows the
/// two characters is not looked at.
pub open spec fn is_coord(text: Seq<char>) -> bool {
    &&& text.len() >= 2
    &&& is_row_letter(text[0])
    &&& is_decimal_digit(text[1])
    &&& row_offset(text[0]) + digit_value(text[1]) >= 1
}

/// The index that a coordinate names: the row's first cell plus the column,
/// columns counted from 1.
pub open spec fn coord_index(text: Seq<char>) -> int {
    row_offset(text[0]) + digit_value(text[1]) - 1
}

/// The letter of row `row`.
pub open spec fn row_letter(row: int) -> char {
    if row == 0 {
        'a'
    } else if row == 1 {
        'b'
    } else {
        'c'
    }
}

/// The digit of column `column`, columns counted from 0.
pub open spec fn column_digit(column: int) -> char {
    if column == 0 {
        '1'
    } else if column == 1 {
        '2'
    } else {
        '3'
    }
}

/// The coordinate of cell `index`.
pub open spec fn coord_text(index: int) -> Seq<char> {
    seq![row_letter(index / 3), column_digit(index % 3)]
}

/// Whether `coord` starts with a coordinate that `coord_to_index` accepts.
pub fn is_coordinate(coord: &str) -> (ok: bool)
    ensures
        ok == is_coord(coord@),
{
    if coord.unicode_len() < 2 {
        return false;
    }
    let letter = coord.get_char(0);
    let digit = coord.get_char(1);
    (letter == 'a' || letter == 'b' || letter == 'c') && '0' <= digit && digit <= '9' && !(letter
        == 'a' && digit == '0')
}

/// The index of the cell that `coord` names.
pub fn coord_to_index(coord: String) -> (index: usize)
    requires
        is_coord(coord@),
    ensures
        index == coord_index(coord@),
{
    let letter = coord.as_str().get_char(0);
    let ch_number = coord.as_str().get_char(1);
    let number: usize = (ch_number as u32 - '0' as u32) as usize;
    let converted: usize = match letter {
        'a' => 0,
        'b' => 3,
        _ => 6,
    };
    converted + number - 1
}

/// The coordinate of cell `index`.
pub fn index_to_coord(index: usize) -> (coord: String)
    requires
        index < 9,
    ensures
        coord@ == coord_text(index as int),
{
    let row = match index / 3 {
        0 => "a",
        1 => "b",
        _ => "c",
    };
    let column = match index % 3 {
        0 => "1",
        1 => "2",
        _ => "3",
    };
    proof {
        reveal_strlit("a");
        reveal_strlit("b");
        reveal_strlit("c");
        reveal_strlit("1");
        reveal_strlit("2");
        reveal_strlit("3");
    }
    let mut coord = String::from_str(row);
    coord.append(column);
    assert(coord@ =~= coord_text(index as int));
    coord
}

/// The coordinate of a cell is accepted and names that cell again.
pub proof fn lemma_coord_round_trip(index: int)
    requires
        0 <= index < 9,
    ensures
        is_coord(coord_text(index)),
        coord_index(coord_text(index)) == index,
{
}

} // verus!
