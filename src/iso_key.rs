//! Key positions on the alphanumeric block of an ISO 9995 keyboard.
//!
//! `IsoKey` is the grid that layouts are written against: rows E (digits), D,
//! C and B, 49 positions in all. `RawIsoKey` is the grid of CLDR keyboard
//! descriptions: the same 49, plus `D13` and the row `A01`..`A05` that Android
//! key maps use.
use vstd::prelude::*;
use crate::text::{chars_of, push_char};

verus! {

/// The row letter of a position by its row number: 0 is E, 4 is A.
pub open spec fn row_letter(row: nat) -> char {
    if row == 0 {
        'E'
    } else if row == 1 {
        'D'
    } else if row == 2 {
        'C'
    } else if row == 3 {
        'B'
    } else {
        'A'
    }
}

/// The decimal digit character for `d < 10`.
pub open spec fn digit_char(d: nat) -> char {
    (48 + d) as char
}

/// The name of a position: its row letter and its column in two digits.
pub open spec fn position_name(row: nat, column: nat) -> Seq<char> {
    seq![row_letter(row), digit_char(column / 10), digit_char(column % 10)]
}

/// The lowest and highest column of each row of the internal grid.
pub open spec fn iso_columns(row: nat) -> (nat, nat) {
    if row == 0 {
        (0, 12)
    } else if row == 1 {
        (1, 12)
    } else if row == 2 {
        (1, 12)
    } else {
        (0, 11)
    }
}

/// The lowest and highest column of each row of the CLDR grid.
pub open spec fn raw_columns(row: nat) -> (nat, nat) {
    if row == 0 {
        (0, 12)
    } else if row == 1 {
        (1, 13)
    } else if row == 2 {
        (1, 12)
    } else if row == 3 {
        (0, 11)
    } else {
        (1, 5)
    }
}

/// A position of the internal grid, in row-major order.
#[derive(Debug, Clone, Copy, Hash, PartialEq, Eq, PartialOrd, Ord)]
pub enum IsoKey {
    E00,
    E01,
    E02,
    E03,
    E04,
    E05,
    E06,
    E07,
    E08,
    E09,
    E10,
    E11,
    E12,
    D01,
    D02,
    D03,
    D04,
    D05,
    D06,
    D07,
    D08,
    D09,
    D10,
    D11,
    D12,
    C01,
    C02,
    C03,
    C04,
    C05,
    C06,
    C07,
    C08,
    C09,
    C10,
    C11,
    C12,
    B00,
    B01,
    B02,
    B03,
    B04,
    B05,
    B06,
    B07,
    B08,
    B09,
    B10,
    B11,
}

/// The number of positions of the internal grid.
pub const ISO_KEY_COUNT: usize = 49;

/// The number of positions of the CLDR grid.
pub const RAW_ISO_KEY_COUNT: usize = 55;

/// Row and column of the internal position with ordinal `i`.
pub open spec fn iso_row_column(i: nat) -> (nat, nat) {
    if i <= 12 {
        (0, i)
    } else if i <= 24 {
        (1, (i - 12) as nat)
    } else if i <= 36 {
        (2, (i - 24) as nat)
    } else {
        (3, (i - 37) as nat)
    }
}

/// Row and column of the CLDR position with ordinal `i`.
pub open spec fn raw_row_column(i: nat) -> (nat, nat) {
    if i <= 12 {
        (0, i)
    } else if i <= 25 {
        (1, (i - 12) as nat)
    } else if i <= 37 {
        (2, (i - 25) as nat)
    } else if i <= 49 {
        (3, (i - 38) as nat)
    } else {
        (4, (i - 49) as nat)
    }
}

/// The base glyphs of the internal positions on a US keyboard, by ordinal.
/// `B11` exists on Brazilian (ABNT2) keyboards, where it types a slash.
pub open spec fn glyph_table() -> Seq<u8> {
    seq![96, 49, 50, 51, 52, 53, 54, 55, 56, 57, 48, 45, 61, 113, 119, 101, 114, 116, 121, 117, 105, 111, 112, 91, 93, 97, 115, 100, 102, 103, 104, 106, 107, 108, 59, 39, 92, 96, 122, 120, 99, 118, 98, 110, 109, 44, 46, 47, 47] 
}

impl IsoKey {
    /// The position's place in row-major order.
    pub open spec fn ordinal(self) -> nat {
        match self {
            IsoKey::E00 => 0,
            IsoKey::E01 => 1,
            IsoKey::E02 => 2,
            IsoKey::E03 => 3,
            IsoKey::E04 => 4,
            IsoKey::E05 => 5,
            IsoKey::E06 => 6,
            IsoKey::E07 => 7,
            IsoKey::E08 => 8,
            IsoKey::E09 => 9,
            IsoKey::E10 => 10,
            IsoKey::E11 => 11,
            IsoKey::E12 => 12,
            IsoKey::D01 => 13,
            IsoKey::D02 => 14,
            IsoKey::D03 => 15,
            IsoKey::D04 => 16,
            IsoKey::D05 => 17,
            IsoKey::D06 => 18,
            IsoKey::D07 => 19,
            IsoKey::D08 => 20,
            IsoKey::D09 => 21,
            IsoKey::D10 => 22,
            IsoKey::D11 => 23,
            IsoKey::D12 => 24,
            IsoKey::C01 => 25,
            IsoKey::C02 => 26,
            IsoKey::C03 => 27,
            IsoKey::C04 => 28,
            IsoKey::C05 => 29,
            IsoKey::C06 => 30,
            IsoKey::C07 => 31,
            IsoKey::C08 => 32,
            IsoKey::C09 => 33,
            IsoKey::C10 => 34,
            IsoKey::C11 => 35,
            IsoKey::C12 => 36,
            IsoKey::B00 => 37,
            IsoKey::B01 => 38,
            IsoKey::B02 => 39,
            IsoKey::B03 => 40,
            IsoKey::B04 => 41,
            IsoKey::B05 => 42,
            IsoKey::B06 => 43,
            IsoKey::B07 => 44,
            IsoKey::B08 => 45,
            IsoKey::B09 => 46,
            IsoKey::B10 => 47,
            IsoKey::B11 => 48,
        }
    }

    pub open spec fn row(self) -> nat {
        iso_row_column(self.ordinal()).0
    }

    pub open spec fn column(self) -> nat {
        iso_row_column(self.ordinal()).1
    }

    /// The position's name, such as `E01`.
    pub open spec fn spec_name(self) -> Seq<char> {
        position_name(self.row(), self.column())
    }

    /// The position's place in row-major order.
    pub fn index(self) -> (r: usize)
        ensures
            r == self.ordinal(),
            r < ISO_KEY_COUNT,
    {
        match self {
            IsoKey::E00 => 0,
            IsoKey::E01 => 1,
            IsoKey::E02 => 2,
            IsoKey::E03 => 3,
            IsoKey::E04 => 4,
            IsoKey::E05 => 5,
            IsoKey::E06 => 6,
            IsoKey::E07 => 7,
            IsoKey::E08 => 8,
            IsoKey::E09 => 9,
            IsoKey::E10 => 10,
            IsoKey::E11 => 11,
            IsoKey::E12 => 12,
            IsoKey::D01 => 13,
            IsoKey::D02 => 14,
            IsoKey::D03 => 15,
            IsoKey::D04 => 16,
            IsoKey::D05 => 17,
            IsoKey::D06 => 18,
            IsoKey::D07 => 19,
            IsoKey::D08 => 20,
            IsoKey::D09 => 21,
            IsoKey::D10 => 22,
            IsoKey::D11 => 23,
            IsoKey::D12 => 24,
            IsoKey::C01 => 25,
            IsoKey::C02 => 26,
            IsoKey::C03 => 27,
            IsoKey::C04 => 28,
            IsoKey::C05 => 29,
            IsoKey::C06 => 30,
            IsoKey::C07 => 31,
            IsoKey::C08 => 32,
            IsoKey::C09 => 33,
            IsoKey::C10 => 34,
            IsoKey::C11 => 35,
            IsoKey::C12 => 36,
            IsoKey::B00 => 37,
            IsoKey::B01 => 38,
            IsoKey::B02 => 39,
            IsoKey::B03 => 40,
            IsoKey::B04 => 41,
            IsoKey::B05 => 42,
            IsoKey::B06 => 43,
            IsoKey::B07 => 44,
            IsoKey::B08 => 45,
            IsoKey::B09 => 46,
            IsoKey::B10 => 47,
            IsoKey::B11 => 48,
        }
    }

    /// The position with the given place in row-major order.
    pub fn from_index(i: usize) -> (r: IsoKey)
        requires
            i < ISO_KEY_COUNT,
        ensures
            r.ordinal() == i,
    {
        match i {
            0 => IsoKey::E00,
            1 => IsoKey::E01,
            2 => IsoKey::E02,
            3 => IsoKey::E03,
            4 => IsoKey::E04,
            5 => IsoKey::E05,
            6 => IsoKey::E06,
            7 => IsoKey::E07,
            8 => IsoKey::E08,
            9 => IsoKey::E09,
            10 => IsoKey::E10,
            11 => IsoKey::E11,
            12 => IsoKey::E12,
            13 => IsoKey::D01,
            14 => IsoKey::D02,
            15 => IsoKey::D03,
            16 => IsoKey::D04,
            17 => IsoKey::D05,
            18 => IsoKey::D06,
            19 => IsoKey::D07,
            20 => IsoKey::D08,
            21 => IsoKey::D09,
            22 => IsoKey::D10,
            23 => IsoKey::D11,
            24 => IsoKey::D12,
            25 => IsoKey::C01,
            26 => IsoKey::C02,
            27 => IsoKey::C03,
            28 => IsoKey::C04,
            29 => IsoKey::C05,
            30 => IsoKey::C06,
            31 => IsoKey::C07,
            32 => IsoKey::C08,
            33 => IsoKey::C09,
            34 => IsoKey::C10,
            35 => IsoKey::C11,
            36 => IsoKey::C12,
            37 => IsoKey::B00,
            38 => IsoKey::B01,
            39 => IsoKey::B02,
            40 => IsoKey::B03,
            41 => IsoKey::B04,
            42 => IsoKey::B05,
            43 => IsoKey::B06,
            44 => IsoKey::B07,
            45 => IsoKey::B08,
            46 => IsoKey::B09,
            47 => IsoKey::B10,
            _ => IsoKey::B11,
        }
    }

    /// Returns the X11 character code: the position's base glyph on a US
    /// keyboard.
    pub fn to_character_code(self) -> (r: u8)
        ensures
            r == glyph_table()[self.ordinal() as int],
            r < 128,
    {
        let table: [u8; 49] = [96, 49, 50, 51, 52, 53, 54, 55, 56, 57, 48, 45, 61, 113, 119, 101, 114, 116, 121, 117, 105, 111, 112, 91, 93, 97, 115, 100, 102, 103, 104, 106, 107, 108, 59, 39, 92, 96, 122, 120, 99, 118, 98, 110, 109, 44, 46, 47, 47];
        assert(table@ == glyph_table());
        table[self.index()]
    }

    /// Returns the X11 character: the position's base glyph on a US keyboard.
    pub fn to_character(self) -> (r: char)
        ensures
            r as int == glyph_table()[self.ordinal() as int] as int,
    {
        let code = self.to_character_code();
        code as char
    }
}

impl RawIsoKey {
    /// The position's place in the CLDR grid's order.
    pub open spec fn ordinal(self) -> nat {
        match self {
            RawIsoKey::E00 => 0,
            RawIsoKey::E01 => 1,
            RawIsoKey::E02 => 2,
            RawIsoKey::E03 => 3,
            RawIsoKey::E04 => 4,
            RawIsoKey::E05 => 5,
            RawIsoKey::E06 => 6,
            RawIsoKey::E07 => 7,
            RawIsoKey::E08 => 8,
            RawIsoKey::E09 => 9,
            RawIsoKey::E10 => 10,
            RawIsoKey::E11 => 11,
            RawIsoKey::E12 => 12,
            RawIsoKey::D01 => 13,
            RawIsoKey::D02 => 14,
            RawIsoKey::D03 => 15,
            RawIsoKey::D04 => 16,
            RawIsoKey::D05 => 17,
            RawIsoKey::D06 => 18,
            RawIsoKey::D07 => 19,
            RawIsoKey::D08 => 20,
            RawIsoKey::D09 => 21,
            RawIsoKey::D10 => 22,
            RawIsoKey::D11 => 23,
            RawIsoKey::D12 => 24,
            RawIsoKey::D13 => 25,
            RawIsoKey::C01 => 26,
            RawIsoKey::C02 => 27,
            RawIsoKey::C03 => 28,
            RawIsoKey::C04 => 29,
            RawIsoKey::C05 => 30,
            RawIsoKey::C06 => 31,
            RawIsoKey::C07 => 32,
            RawIsoKey::C08 => 33,
            RawIsoKey::C09 => 34,
            RawIsoKey::C10 => 35,
            RawIsoKey::C11 => 36,
            RawIsoKey::C12 => 37,
            RawIsoKey::B00 => 38,
            RawIsoKey::B01 => 39,
            RawIsoKey::B02 => 40,
            RawIsoKey::B03 => 41,
            RawIsoKey::B04 => 42,
            RawIsoKey::B05 => 43,
            RawIsoKey::B06 => 44,
            RawIsoKey::B07 => 45,
            RawIsoKey::B08 => 46,
            RawIsoKey::B09 => 47,
            RawIsoKey::B10 => 48,
            RawIsoKey::B11 => 49,
            RawIsoKey::A01 => 50,
            RawIsoKey::A02 => 51,
            RawIsoKey::A03 => 52,
            RawIsoKey::A04 => 53,
            RawIsoKey::A05 => 54,
        }
    }

    pub open spec fn row(self) -> nat {
        raw_row_column(self.ordinal()).0
    }

    pub open spec fn column(self) -> nat {
        raw_row_column(self.ordinal()).1
    }

    /// The position's name, such as `A01`.
    pub open spec fn spec_name(self) -> Seq<char> {
        position_name(self.row(), self.column())
    }

    /// The position's place in the CLDR grid's order.
    pub fn index(self) -> (r: usize)
        ensures
            r == self.ordinal(),
            r < RAW_ISO_KEY_COUNT,
    {
        match self {
            RawIsoKey::E00 => 0,
            RawIsoKey::E01 => 1,
            RawIsoKey::E02 => 2,
            RawIsoKey::E03 => 3,
            RawIsoKey::E04 => 4,
            RawIsoKey::E05 => 5,
            RawIsoKey::E06 => 6,
            RawIsoKey::E07 => 7,
            RawIsoKey::E08 => 8,
            RawIsoKey::E09 => 9,
            RawIsoKey::E10 => 10,
            RawIsoKey::E11 => 11,
            RawIsoKey::E12 => 12,
            RawIsoKey::D01 => 13,
            RawIsoKey::D02 => 14,
            RawIsoKey::D03 => 15,
            RawIsoKey::D04 => 16,
            RawIsoKey::D05 => 17,
            RawIsoKey::D06 => 18,
            RawIsoKey::D07 => 19,
            RawIsoKey::D08 => 20,
            RawIsoKey::D09 => 21,
            RawIsoKey::D10 => 22,
            RawIsoKey::D11 => 23,
            RawIsoKey::D12 => 24,
            RawIsoKey::D13 => 25,
            RawIsoKey::C01 => 26,
            RawIsoKey::C02 => 27,
            RawIsoKey::C03 => 28,
            RawIsoKey::C04 => 29,
            RawIsoKey::C05 => 30,
            RawIsoKey::C06 => 31,
            RawIsoKey::C07 => 32,
            RawIsoKey::C08 => 33,
            RawIsoKey::C09 => 34,
            RawIsoKey::C10 => 35,
            RawIsoKey::C11 => 36,
            RawIsoKey::C12 => 37,
            RawIsoKey::B00 => 38,
            RawIsoKey::B01 => 39,
            RawIsoKey::B02 => 40,
            RawIsoKey::B03 => 41,
            RawIsoKey::B04 => 42,
            RawIsoKey::B05 => 43,
            RawIsoKey::B06 => 44,
            RawIsoKey::B07 => 45,
            RawIsoKey::B08 => 46,
            RawIsoKey::B09 => 47,
            RawIsoKey::B10 => 48,
            RawIsoKey::B11 => 49,
            RawIsoKey::A01 => 50,
            RawIsoKey::A02 => 51,
            RawIsoKey::A03 => 52,
            RawIsoKey::A04 => 53,
            RawIsoKey::A05 => 54,
        }
    }

    /// The position with the given place in the CLDR grid's order.
    pub fn from_index(i: usize) -> (r: RawIsoKey)
        requires
            i < RAW_ISO_KEY_COUNT,
        ensures
            r.ordinal() == i,
    {
        match i {
            0 => RawIsoKey::E00,
            1 => RawIsoKey::E01,
            2 => RawIsoKey::E02,
            3 => RawIsoKey::E03,
            4 => RawIsoKey::E04,
            5 => RawIsoKey::E05,
            6 => RawIsoKey::E06,
            7 => RawIsoKey::E07,
            8 => RawIsoKey::E08,
            9 => RawIsoKey::E09,
            10 => RawIsoKey::E10,
            11 => RawIsoKey::E11,
            12 => RawIsoKey::E12,
            13 => RawIsoKey::D01,
            14 => RawIsoKey::D02,
            15 => RawIsoKey::D03,
            16 => RawIsoKey::D04,
            17 => RawIsoKey::D05,
            18 => RawIsoKey::D06,
            19 => RawIsoKey::D07,
            20 => RawIsoKey::D08,
            21 => RawIsoKey::D09,
            22 => RawIsoKey::D10,
            23 => RawIsoKey::D11,
            24 => RawIsoKey::D12,
            25 => RawIsoKey::D13,
            26 => RawIsoKey::C01,
            27 => RawIsoKey::C02,
            28 => RawIsoKey::C03,
            29 => RawIsoKey::C04,
            30 => RawIsoKey::C05,
            31 => RawIsoKey::C06,
            32 => RawIsoKey::C07,
            33 => RawIsoKey::C08,
            34 => RawIsoKey::C09,
            35 => RawIsoKey::C10,
            36 => RawIsoKey::C11,
            37 => RawIsoKey::C12,
            38 => RawIsoKey::B00,
            39 => RawIsoKey::B01,
            40 => RawIsoKey::B02,
            41 => RawIsoKey::B03,
            42 => RawIsoKey::B04,
            43 => RawIsoKey::B05,
            44 => RawIsoKey::B06,
            45 => RawIsoKey::B07,
            46 => RawIsoKey::B08,
            47 => RawIsoKey::B09,
            48 => RawIsoKey::B10,
            49 => RawIsoKey::B11,
            50 => RawIsoKey::A01,
            51 => RawIsoKey::A02,
            52 => RawIsoKey::A03,
            53 => RawIsoKey::A04,
            _ => RawIsoKey::A05,
        }
    }
}

/// A position of the CLDR keyboard grid.
#[derive(Debug, Clone, Copy, Hash, PartialEq, Eq, PartialOrd, Ord)]
pub enum RawIsoKey {
    E00,
    E01,
    E02,
    E03,
    E04,
    E05,
    E06,
    E07,
    E08,
    E09,
    E10,
    E11,
    E12,
    D01,
    D02,
    D03,
    D04,
    D05,
    D06,
    D07,
    D08,
    D09,
    D10,
    D11,
    D12,
    D13,
    C01,
    C02,
    C03,
    C04,
    C05,
    C06,
    C07,
    C08,
    C09,
    C10,
    C11,
    C12,
    B00,
    B01,
    B02,
    B03,
    B04,
    B05,
    B06,
    B07,
    B08,
    B09,
    B10,
    B11, // Only exists on Brazilian keyboards
    A01,
    A02,
    A03,
    A04,
    A05,
}


/// The row number of a row letter.
fn row_of_letter(c: char) -> (r: Option<usize>)
    ensures
        match r {
            Some(row) => row <= 4 && row_letter(row as nat) == c,
            None => forall|row: nat| row <= 4 ==> row_letter(row) != c,
        },
{
    if c == 'E' {
        Some(0)
    } else if c == 'D' {
        Some(1)
    } else if c == 'C' {
        Some(2)
    } else if c == 'B' {
        Some(3)
    } else if c == 'A' {
        Some(4)
    } else {
        None
    }
}

fn digit_of(c: char) -> (r: Option<usize>)
    ensures
        match r {
            Some(d) => d < 10 && digit_char(d as nat) == c,
            None => forall|d: nat| d < 10 ==> digit_char(d) != c,
        },
{
    let n = c as u32;
    if 48 <= n && n <= 57 {
        Some((n - 48) as usize)
    } else {
        None
    }
}

/// Row and column written in a position name, if the text has the shape of
/// one (a row letter and two digits).
fn split_position_name(s: &str) -> (r: Option<(usize, usize)>)
    ensures
        match r {
            Some((row, column)) => row <= 4 && column < 100 && s@ == position_name(row as nat, column as nat),
            None => forall|row: nat, column: nat| row <= 4 && column < 100 ==> s@ != position_name(row, column),
        },
{
    let cs = chars_of(s);
    if cs.len() != 3 {
        return None;
    }
    let row = match row_of_letter(cs[0]) {
        Some(row) => row,
        None => {
            assert forall|row: nat, column: nat| row <= 4 && column < 100 implies s@ != position_name(row, column) by {
                assert(position_name(row, column)[0] == row_letter(row));
            }
            return None;
        },
    };
    let tens = match digit_of(cs[1]) {
        Some(d) => d,
        None => {
            assert forall|row: nat, column: nat| row <= 4 && column < 100 implies s@ != position_name(row, column) by {
                assert(position_name(row, column)[1] == digit_char(column / 10));
            }
            return None;
        },
    };
    let ones = match digit_of(cs[2]) {
        Some(d) => d,
        None => {
            assert forall|row: nat, column: nat| row <= 4 && column < 100 implies s@ != position_name(row, column) by {
                assert(position_name(row, column)[2] == digit_char(column % 10));
            }
            return None;
        },
    };
    let column = tens * 10 + ones;
    assert(s@ =~= position_name(row as nat, column as nat));
    Some((row, column))
}

/// Whether `column` lies in `row` of the CLDR grid (`raw`) or of the internal
/// grid.
fn column_in(row: usize, column: usize, raw: bool) -> (r: bool)
    requires
        row <= 4,
    ensures
        raw ==> r == (raw_columns(row as nat).0 <= column <= raw_columns(row as nat).1),
        !raw ==> r == (iso_columns(row as nat).0 <= column <= iso_columns(row as nat).1),
{
    let (low, high): (usize, usize) = if row == 0 {
        (0, 12)
    } else if row == 1 {
        (1, if raw { 13 } else { 12 })
    } else if row == 2 {
        (1, 12)
    } else if row == 3 {
        (0, 11)
    } else if raw {
        (1, 5)
    } else {
        (0, 11)
    };
    low <= column && column <= high
}

/// Distinct rows and columns give distinct names.
pub proof fn lemma_position_name_injective(r1: nat, c1: nat, r2: nat, c2: nat)
    requires
        r1 <= 4,
        r2 <= 4,
        c1 < 100,
        c2 < 100,
        position_name(r1, c1) == position_name(r2, c2),
    ensures
        r1 == r2,
        c1 == c2,
{
    assert(position_name(r1, c1)[0] == position_name(r2, c2)[0]);
    assert(position_name(r1, c1)[1] == position_name(r2, c2)[1]);
    assert(position_name(r1, c1)[2] == position_name(r2, c2)[2]);
    assert(c1 == (c1 / 10) * 10 + c1 % 10);
    assert(c2 == (c2 / 10) * 10 + c2 % 10);
}

impl IsoKey {
    /// The internal position named `s` (such as `E01`), if there is one.
    pub fn parse(s: &str) -> (r: Option<IsoKey>)
        ensures
            match r {
                Some(k) => k.spec_name() == s@,
                None => forall|k: IsoKey| k.spec_name() != s@,
            },
    {
        match split_position_name(s) {
            None => {
                assert forall|k: IsoKey| k.spec_name() != s@ by {
                    assert(k.row() <= 4 && k.column() < 100);
                }
                None
            },
            Some((row, column)) => {
                if row <= 3 && column_in(row, column, false) {
                    let i = if row == 0 {
                        column
                    } else if row == 1 {
                        12 + column
                    } else if row == 2 {
                        24 + column
                    } else {
                        37 + column
                    };
                    Some(IsoKey::from_index(i))
                } else {
                    assert forall|k: IsoKey| k.spec_name() != s@ by {
                        if k.spec_name() == s@ {
                            lemma_position_name_injective(k.row(), k.column(), row as nat, column as nat);
                        }
                    }
                    None
                }
            },
        }
    }

    /// The position's name, such as `E01`.
    pub fn name(self) -> (r: String)
        ensures
            r@ == self.spec_name(),
    {
        self.to_raw().name()
    }

    /// The same position in the CLDR grid.
    pub fn to_raw(self) -> (r: RawIsoKey)
        ensures
            r.row() == self.row(),
            r.column() == self.column(),
    {
        // the CLDR grid has D13 after D12, so positions from C01 on move up by one
        let i = self.index();
        let j = if i <= 24 {
            i
        } else {
            i + 1
        };
        RawIsoKey::from_index(j)
    }
}

impl RawIsoKey {
    /// The CLDR position named `s` (such as `A01`), if there is one.
    pub fn parse(s: &str) -> (r: Option<RawIsoKey>)
        ensures
            match r {
                Some(k) => k.spec_name() == s@,
                None => forall|k: RawIsoKey| k.spec_name() != s@,
            },
            r is None ==> forall|k: IsoKey| k.spec_name() != s@,
    {
        match split_position_name(s) {
            None => {
                assert forall|k: RawIsoKey| k.spec_name() != s@ by {
                    assert(k.row() <= 4 && k.column() < 100);
                }
                assert forall|k: IsoKey| k.spec_name() != s@ by {
                    assert(k.row() <= 4 && k.column() < 100);
                }
                None
            },
            Some((row, column)) => {
                if column_in(row, column, true) {
                    let i = if row == 0 {
                        column
                    } else if row == 1 {
                        12 + column
                    } else if row == 2 {
                        25 + column
                    } else if row == 3 {
                        38 + column
                    } else {
                        49 + column
                    };
                    Some(RawIsoKey::from_index(i))
                } else {
                    assert forall|k: RawIsoKey| k.spec_name() != s@ by {
                        if k.spec_name() == s@ {
                            lemma_position_name_injective(k.row(), k.column(), row as nat, column as nat);
                        }
                    }
                    assert forall|k: IsoKey| k.spec_name() != s@ by {
                        if k.spec_name() == s@ {
                            lemma_position_name_injective(k.row(), k.column(), row as nat, column as nat);
                        }
                    }
                    None
                }
            },
        }
    }

    /// The position's row: 0 for E up to 4 for A.
    pub fn row_number(self) -> (r: usize)
        ensures
            r == self.row(),
    {
        let i = self.index();
        if i <= 12 {
            0
        } else if i <= 25 {
            1
        } else if i <= 37 {
            2
        } else if i <= 49 {
            3
        } else {
            4
        }
    }

    /// The position's name, such as `A01`.
    pub fn name(self) -> (r: String)
        ensures
            r@ == self.spec_name(),
    {
        let i = self.index();
        let (letter, column) = if i <= 12 {
            ('E', i)
        } else if i <= 25 {
            ('D', i - 12)
        } else if i <= 37 {
            ('C', i - 25)
        } else if i <= 49 {
            ('B', i - 38)
        } else {
            ('A', i - 49)
        };
        let mut s = String::new();
        push_char(&mut s, letter);
        push_char(&mut s, ((48 + column / 10) as u8) as char);
        push_char(&mut s, ((48 + column % 10) as u8) as char);
        assert(s@ =~= self.spec_name());
        s
    }

    /// The same position in the internal grid; `None` for `D13` and the row
    /// `A01`..`A05`, which the internal grid lacks.
    pub fn to_iso(self) -> (r: Option<IsoKey>)
        ensures
            match r {
                Some(k) => k.row() == self.row() && k.column() == self.column(),
                None => forall|k: IsoKey| !(k.row() == self.row() && k.column() == self.column()),
            },
            r is None <==> (self.row() == 4 || (self.row() == 1 && self.column() == 13)),
    {
        let i = self.index();
        if i <= 24 {
            Some(IsoKey::from_index(i))
        } else if i == 25 || i >= 50 {
            None
        } else {
            Some(IsoKey::from_index(i - 1))
        }
    }
}

} // verus!
