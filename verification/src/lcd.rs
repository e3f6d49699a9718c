//! The HD44780 character LCD: its settings, and the bytes and pin levels
//! that its commands are made of.

pub mod format;
pub mod options;

use vstd::prelude::*;
use crate::lcd::options::{
    BlinkEnabled, BusSize, CursorEnabled, DisplayEnabled, EntryDirection, EntryShift, FontSize,
    NumLines, Register, CLEAR_DISPLAY, DISPLAY_CONTROL, ENTRY_MODE_SET, FUNCTION_SET,
    SET_CGRAM_ADDRESS, SET_DDRAM_ADDRESS,
};

verus! {

/// The settings of the LCD.
pub struct LCDInfo {
    pub num_lines: NumLines,
    pub row_offsets: [u8; 4],
    pub bus_size: BusSize,
    pub font_size: FontSize,
    pub display_enabled: DisplayEnabled,
    pub cursor_enabled: CursorEnabled,
    pub blink_enabled: BlinkEnabled,
}

impl LCDInfo {
    /// Settings for lines of `line_width` characters: the rows start at
    /// addresses 0x00, 0x40, `line_width` and `0x40 + line_width`; a 4-bit
    /// bus; display on, cursor and blink off.
    pub fn new(line_width: u8, num_lines: NumLines, font_size: FontSize) -> (info: Self)
        requires
            line_width <= 0xbf,
        ensures
            info.num_lines == num_lines,
            info.row_offsets[0] == 0x00,
            info.row_offsets[1] == 0x40,
            info.row_offsets[2] == line_width,
            info.row_offsets[3] == 0x40 + line_width,
            info.bus_size == BusSize::Half,
            info.font_size == font_size,
            info.display_enabled == DisplayEnabled::On,
            info.cursor_enabled == CursorEnabled::Off,
            info.blink_enabled == BlinkEnabled::Off,
    {
        LCDInfo {
            num_lines,
            row_offsets: [0x00, 0x40, 0x00 + line_width, 0x40 + line_width],
            bus_size: BusSize::Half,
            font_size,
            display_enabled: DisplayEnabled::On,
            cursor_enabled: CursorEnabled::Off,
            blink_enabled: BlinkEnabled::Off,
        }
    }

    /// The function set command: bus size, lines and font.
    pub fn function_set_command(&self) -> (command: u8)
        ensures
            command == FUNCTION_SET | self.num_lines.bits_of() | self.font_size.bits_of(),
    {
        let bus = self.bus_size.bits();
        assert(0x20u8 | 0u8 == 0x20u8) by (bit_vector);
        FUNCTION_SET | bus | self.num_lines.bits() | self.font_size.bits()
    }

    /// The display control command: display, cursor and blink.
    pub fn display_control_command(&self) -> (command: u8)
        ensures
            command == DISPLAY_CONTROL | self.display_enabled.bits_of()
                | self.cursor_enabled.bits_of() | self.blink_enabled.bits_of(),
    {
        DISPLAY_CONTROL | self.display_enabled.bits() | self.cursor_enabled.bits()
            | self.blink_enabled.bits()
    }

    /// Stores new display, cursor and blink settings.
    pub fn set_display_control(
        &mut self,
        display_enabled: DisplayEnabled,
        cursor_enabled: CursorEnabled,
        blink_enabled: BlinkEnabled,
    )
        ensures
            final(self).display_enabled == display_enabled,
            final(self).cursor_enabled == cursor_enabled,
            final(self).blink_enabled == blink_enabled,
            final(self).num_lines == old(self).num_lines,
            final(self).row_offsets == old(self).row_offsets,
            final(self).font_size == old(self).font_size,
    {
        self.display_enabled = display_enabled;
        self.cursor_enabled = cursor_enabled;
        self.blink_enabled = blink_enabled;
    }

    /// The row that a cursor on `row` lands on: the last line for rows past
    /// it.
    pub open spec fn clamped_row(self, row: u8) -> int {
        let last = self.num_lines.count() - 1;
        if row <= last {
            row as int
        } else {
            last
        }
    }

    /// The command that puts the cursor on `column` of `row`.
    pub fn set_cursor_command(&self, column: u8, row: u8) -> (command: u8)
        requires
            column + self.row_offsets[self.clamped_row(row)] <= 255,
        ensures
            command == SET_DDRAM_ADDRESS | ((column + self.row_offsets[self.clamped_row(row)]) as u8),
    {
        let last_offset: u8 = 3;
        let row = if row < last_offset {
            row
        } else {
            last_offset
        };
        let last_line = self.num_lines.as_count() - 1;
        let row = if row < last_line {
            row
        } else {
            last_line
        };
        SET_DDRAM_ADDRESS | (column + self.row_offsets[row as usize])
    }
}

/// One step of bringing the LCD up: a wait (in microseconds), a nibble
/// sent alone, or a whole command.
#[derive(Copy, Clone, PartialEq, Eq, Debug, Structural)]
pub enum StartupStep {
    Wait(u32),
    Nibble(u8),
    Command(u8),
}

/// How the LCD is brought up with settings `info`: after power-up, three
/// times the nibble that selects an 8-bit bus, then the one for a 4-bit bus,
/// each after its wait; then the function set, the display control, a
/// clear (with its wait) and the entry mode.
pub open spec fn startup_sequence(info: LCDInfo) -> Seq<StartupStep> {
    seq![
        StartupStep::Wait(50000),
        StartupStep::Nibble(0x03),
        StartupStep::Wait(4500),
        StartupStep::Nibble(0x03),
        StartupStep::Wait(4500),
        StartupStep::Nibble(0x03),
        StartupStep::Wait(150),
        StartupStep::Nibble(0x02),
        StartupStep::Command(FUNCTION_SET | info.num_lines.bits_of() | info.font_size.bits_of()),
        StartupStep::Command(
            DISPLAY_CONTROL | info.display_enabled.bits_of() | info.cursor_enabled.bits_of()
                | info.blink_enabled.bits_of(),
        ),
        StartupStep::Command(CLEAR_DISPLAY),
        StartupStep::Wait(2000),
        StartupStep::Command(ENTRY_MODE_SET | 0x02u8),
    ]
}

impl LCDInfo {
    /// The steps that bring the LCD up (see `startup_sequence`).
    pub fn startup_steps(&self) -> (steps: Vec<StartupStep>)
        ensures
            steps@ == startup_sequence(*self),
    {
        let mut steps: Vec<StartupStep> = Vec::new();
        steps.push(StartupStep::Wait(50000));
        steps.push(StartupStep::Nibble(0x03));
        steps.push(StartupStep::Wait(4500));
        steps.push(StartupStep::Nibble(0x03));
        steps.push(StartupStep::Wait(4500));
        steps.push(StartupStep::Nibble(0x03));
        steps.push(StartupStep::Wait(150));
        steps.push(StartupStep::Nibble(0x02));
        steps.push(StartupStep::Command(self.function_set_command()));
        steps.push(StartupStep::Command(self.display_control_command()));
        steps.push(StartupStep::Command(CLEAR_DISPLAY));
        steps.push(StartupStep::Wait(2000));
        steps.push(StartupStep::Command(entry_mode_command()));
        assert(steps@ =~= startup_sequence(*self));
        steps
    }
}

/// The entry mode command the LCD is started with: left to right, no shift.
pub fn entry_mode_command() -> (command: u8)
    ensures
        command == ENTRY_MODE_SET | 0x02u8,
{
    let direction = EntryDirection::Left.bits();
    let shift = EntryShift::Decrement.bits();
    assert((0x04u8 | 0x02u8) | 0u8 == 0x04u8 | 0x02u8) by (bit_vector);
    ENTRY_MODE_SET | direction | shift
}

/// The command that points character data at custom character `slot`
/// (taken modulo 8).
pub fn create_character_command(slot: u8) -> (command: u8)
    ensures
        command == SET_CGRAM_ADDRESS | (((slot % 8) << 3u8) as u8),
{
    let slot = slot % 8;
    SET_CGRAM_ADDRESS | slot << 3u8
}

/// The two nibbles of a byte as the LCD takes them on a 4-bit bus: the high
/// one first (in the low bits of the first value).
pub fn nibbles(byte: u8) -> (halves: [u8; 2])
    ensures
        halves[0] == byte >> 4u8,
        halves[1] == byte,
{
    [byte >> 4u8, byte]
}

/// The levels of data pins 4 to 7 for the low four bits of `nibble`.
pub fn nibble_levels(nibble: u8) -> (levels: [bool; 4])
    ensures
        levels[0] == (nibble & 1 != 0),
        levels[1] == ((nibble >> 1u8) & 1 != 0),
        levels[2] == ((nibble >> 2u8) & 1 != 0),
        levels[3] == ((nibble >> 3u8) & 1 != 0),
{
    [nibble & 1 != 0, nibble >> 1u8 & 1 != 0, nibble >> 2u8 & 1 != 0, nibble >> 3u8 & 1 != 0]
}

/// The level of the register select pin for `register`.
pub fn register_level(register: Register) -> (high: bool)
    ensures
        high == (register == Register::Data),
{
    register.level()
}

} // verus!
