//! The commands of the HD44780 display driver that talks to the LCD with
//! plain flags.

use vstd::prelude::*;

verus! {

#[derive(Copy, Clone, PartialEq, Eq, Debug, Structural)]
pub enum Register {
    Instruction,
    Data,
}

#[derive(Copy, Clone, PartialEq, Eq, Debug, Structural)]
pub enum ShiftDirection {
    Right,
    Left,
}

impl Register {
    /// The level of the register select pin: high for data.
    pub fn level(self) -> (high: bool)
        ensures
            high == (self == Register::Data),
    {
        match self {
            Register::Instruction => false,
            Register::Data => true,
        }
    }
}

impl From<ShiftDirection> for bool {
    fn from(value: ShiftDirection) -> (right: bool) {
        match value {
            ShiftDirection::Right => true,
            ShiftDirection::Left => false,
        }
    }
}

impl vstd::std_specs::convert::FromSpecImpl<ShiftDirection> for bool {
    open spec fn obeys_from_spec() -> bool {
        true
    }

    open spec fn from_spec(v: ShiftDirection) -> bool {
        v == ShiftDirection::Right
    }
}

pub open spec fn bit(flag: bool) -> u8 {
    if flag {
        1
    } else {
        0
    }
}

fn flag_bit(flag: bool) -> (value: u8)
    ensures
        value == bit(flag),
{
    if flag {
        1
    } else {
        0
    }
}

/// The entry mode command: the cursor moves right (or left) after each
/// character, and the display shifts with it if `shift_increment`.
pub fn cursor_advance_command(direction: ShiftDirection, shift_increment: bool) -> (command: u8)
    ensures
        command == 0b00000100u8 | (bit(direction == ShiftDirection::Right) << 1u8) | bit(
            shift_increment,
        ),
{
    0b00000100 | flag_bit(bool::from(direction)) << 1u8 | flag_bit(shift_increment)
}

/// The display control command: display, cursor and blink on or off.
pub fn display_command(display_on: bool, cursor_on: bool, cursor_blink: bool) -> (command: u8)
    ensures
        command == 0b00001000u8 | (bit(display_on) << 2u8) | (bit(cursor_on) << 1u8) | bit(
            cursor_blink,
        ),
{
    0b00001000 | flag_bit(display_on) << 2u8 | flag_bit(cursor_on) << 1u8 | flag_bit(cursor_blink)
}

/// The cursor or display shift command.
pub fn shift_screen_command(display_only: bool, direction: ShiftDirection) -> (command: u8)
    ensures
        command == 0b00010000u8 | (bit(display_only) << 3u8) | (bit(
            direction == ShiftDirection::Right,
        ) << 2u8),
{
    0b00010000 | flag_bit(display_only) << 3u8 | flag_bit(bool::from(direction)) << 2u8
}

/// The function set command, always for a 4-bit bus: one or both rows,
/// normal or tall font.
pub fn function_command(both_rows: bool, use_extra_font_space: bool) -> (command: u8)
    ensures
        command == 0b00100000u8 | (bit(both_rows) << 3u8) | (bit(use_extra_font_space) << 2u8),
{
    0b00100000 | flag_bit(both_rows) << 3u8 | flag_bit(use_extra_font_space) << 2u8
}

/// The command that points data at font address `cursor` (6 bits).
pub fn font_cursor_command(cursor: u8) -> (command: u8)
    ensures
        command == 0b01000000u8 | (0b00111111u8 & cursor),
{
    0b01000000 | (0b00111111 & cursor)
}

/// The command that points data at text address `cursor` (7 bits).
pub fn text_cursor_command(cursor: u8) -> (command: u8)
    ensures
        command == 0b10000000u8 | (0b01111111u8 & cursor),
{
    0b10000000 | (0b01111111 & cursor)
}

/// The levels of the four data pins for the low four bits of `nibble`.
pub fn nibble_levels(nibble: u8) -> (levels: [bool; 4])
    ensures
        levels[0] == (nibble & 1 != 0),
        levels[1] == ((nibble >> 1u8) & 1 != 0),
        levels[2] == ((nibble >> 2u8) & 1 != 0),
        levels[3] == ((nibble >> 3u8) & 1 != 0),
{
    let mut data = nibble;
    let first = data & 1 != 0;
    data = data >> 1u8;
    let second = data & 1 != 0;
    data = data >> 1u8;
    let third = data & 1 != 0;
    data = data >> 1u8;
    let fourth = data & 1 != 0;
    proof {
        assert((nibble >> 1u8) >> 1u8 == nibble >> 2u8) by (bit_vector);
        assert(((nibble >> 1u8) >> 1u8) >> 1u8 == nibble >> 3u8) by (bit_vector);
    }
    [first, second, third, fourth]
}

/// The (register, byte) writes that load eight custom characters: for each,
/// its font address, then its eight rows.
pub fn character_writes(characters: &[[u8; 8]; 8]) -> (writes: Vec<(Register, u8)>)
    ensures
        writes@.len() == 72,
        forall|i: int|
            0 <= i < 8 ==> #[trigger] writes@[9 * i] == (Register::Instruction, (0b01000000u8 | (
            0b00111111u8 & ((i as u8) << 3u8))) as u8),
        forall|i: int, j: int|
            0 <= i < 8 && 0 <= j < 8 ==> #[trigger] writes@[9 * i + 1 + j] == (
                Register::Data,
                characters[i][j],
            ),
{
    let mut writes: Vec<(Register, u8)> = Vec::new();
    let mut i: usize = 0;
    while i < 8
        invariant
            0 <= i <= 8,
            writes@.len() == 9 * i,
            forall|k: int|
                0 <= k < i ==> #[trigger] writes@[9 * k] == (Register::Instruction, (0b01000000u8 | (
                0b00111111u8 & ((k as u8) << 3u8))) as u8),
            forall|k: int, j: int|
                0 <= k < i && 0 <= j < 8 ==> #[trigger] writes@[9 * k + 1 + j] == (
                    Register::Data,
                    characters[k][j],
                ),
        decreases 8 - i,
    {
        writes.push((Register::Instruction, font_cursor_command((i as u8) << 3u8)));
        let mut j: usize = 0;
        while j < 8
            invariant
                0 <= i < 8,
                0 <= j <= 8,
                writes@.len() == 9 * i + 1 + j,
                forall|k: int|
                    0 <= k <= i ==> #[trigger] writes@[9 * k] == (Register::Instruction, (0b01000000u8
                        | (0b00111111u8 & ((k as u8) << 3u8))) as u8),
                forall|k: int, l: int|
                    0 <= k < i && 0 <= l < 8 ==> #[trigger] writes@[9 * k + 1 + l] == (
                        Register::Data,
                        characters[k][l],
                    ),
                forall|l: int|
                    0 <= l < j ==> #[trigger] writes@[9 * i + 1 + l] == (
                        Register::Data,
                        characters[i as int][l],
                    ),
            decreases 8 - j,
        {
            writes.push((Register::Data, characters[i][j]));
            j = j + 1;
        }
        i = i + 1;
    }
    writes
}

} // verus!
