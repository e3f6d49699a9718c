use vstd::prelude::*;

verus! {

pub const CLEAR_DISPLAY: u8 = 0x01;

pub const RETURN_HOME: u8 = 0x02;

pub const ENTRY_MODE_SET: u8 = 0x04;

pub const DISPLAY_CONTROL: u8 = 0x08;

pub const CURSOR_SHIFT: u8 = 0x10;

pub const FUNCTION_SET: u8 = 0x20;

pub const SET_CGRAM_ADDRESS: u8 = 0x40;

pub const SET_DDRAM_ADDRESS: u8 = 0x80;

#[derive(Copy, Clone, PartialEq, Eq, Debug, Structural)]
pub enum EntryDirection {
    Right,
    Left,
}

#[derive(Copy, Clone, PartialEq, Eq, Debug, Structural)]
pub enum EntryShift {
    Increment,
    Decrement,
}

#[derive(Copy, Clone, PartialEq, Eq, Debug, Structural)]
pub enum DisplayEnabled {
    On,
    Off,
}

#[derive(Copy, Clone, PartialEq, Eq, Debug, Structural)]
pub enum CursorEnabled {
    On,
    Off,
}

#[derive(Copy, Clone, PartialEq, Eq, Debug, Structural)]
pub enum BlinkEnabled {
    On,
    Off,
}

#[derive(Copy, Clone, PartialEq, Eq, Debug, Structural)]
pub enum ShiftTarget {
    Display,
    Cursor,
}

#[derive(Copy, Clone, PartialEq, Eq, Debug, Structural)]
pub enum ShiftDirection {
    Right,
    Left,
}

/// Only the 4-bit bus is supported.
#[derive(Copy, Clone, PartialEq, Eq, Debug, Structural)]
pub enum BusSize {
    Half,
}

#[derive(Copy, Clone, PartialEq, Eq, Debug, Structural)]
pub enum NumLines {
    Two,
    One,
}

#[derive(Copy, Clone, PartialEq, Eq, Debug, Structural)]
pub enum FontSize {
    Dots5x10,
    Dots5x8,
}

#[derive(Copy, Clone, PartialEq, Eq, Debug, Structural)]
pub enum Register {
    Instruction,
    Data,
}

impl EntryDirection {
    /// The flag's bit in the entry mode command.
    pub fn bits(self) -> (bits: u8)
        ensures
            bits == (if self == EntryDirection::Left { 0x02u8 } else { 0u8 }),
    {
        match self {
            EntryDirection::Right => 0x00,
            EntryDirection::Left => 0x02,
        }
    }
}

impl EntryShift {
    pub fn bits(self) -> (bits: u8)
        ensures
            bits == (if self == EntryShift::Increment { 0x01u8 } else { 0u8 }),
    {
        match self {
            EntryShift::Increment => 0x01,
            EntryShift::Decrement => 0x00,
        }
    }
}

impl DisplayEnabled {
    pub open spec fn bits_of(self) -> u8 {
        if self == DisplayEnabled::On { 0x04 } else { 0 }
    }

    pub fn bits(self) -> (bits: u8)
        ensures
            bits == self.bits_of(),
    {
        match self {
            DisplayEnabled::On => 0x04,
            DisplayEnabled::Off => 0x00,
        }
    }
}

impl CursorEnabled {
    pub open spec fn bits_of(self) -> u8 {
        if self == CursorEnabled::On { 0x02 } else { 0 }
    }

    pub fn bits(self) -> (bits: u8)
        ensures
            bits == self.bits_of(),
    {
        match self {
            CursorEnabled::On => 0x02,
            CursorEnabled::Off => 0x00,
        }
    }
}

impl BlinkEnabled {
    pub open spec fn bits_of(self) -> u8 {
        if self == BlinkEnabled::On { 0x01 } else { 0 }
    }

    pub fn bits(self) -> (bits: u8)
        ensures
            bits == self.bits_of(),
    {
        match self {
            BlinkEnabled::On => 0x01,
            BlinkEnabled::Off => 0x00,
        }
    }
}

impl ShiftTarget {
    pub fn bits(self) -> (bits: u8)
        ensures
            bits == (if self == ShiftTarget::Display { 0x08u8 } else { 0u8 }),
    {
        match self {
            ShiftTarget::Display => 0x08,
            ShiftTarget::Cursor => 0x00,
        }
    }
}

impl ShiftDirection {
    pub fn bits(self) -> (bits: u8)
        ensures
            bits == (if self == ShiftDirection::Right { 0x04u8 } else { 0u8 }),
    {
        match self {
            ShiftDirection::Right => 0x04,
            ShiftDirection::Left => 0x00,
        }
    }
}

impl BusSize {
    pub fn bits(self) -> (bits: u8)
        ensures
            bits == 0,
    {
        0x00
    }
}

impl NumLines {
    pub open spec fn bits_of(self) -> u8 {
        if self == NumLines::Two { 0x08 } else { 0 }
    }

    pub fn bits(self) -> (bits: u8)
        ensures
            bits == self.bits_of(),
    {
        match self {
            NumLines::Two => 0x08,
            NumLines::One => 0x00,
        }
    }

    pub open spec fn count(self) -> u8 {
        if self == NumLines::Two { 2 } else { 1 }
    }

    /// How many lines: 2 or 1.
    pub fn as_count(self) -> (count: u8)
        ensures
            count == self.count(),
    {
        match self {
            NumLines::Two => 2,
            NumLines::One => 1,
        }
    }
}

impl FontSize {
    pub open spec fn bits_of(self) -> u8 {
        if self == FontSize::Dots5x10 { 0x04 } else { 0 }
    }

    pub fn bits(self) -> (bits: u8)
        ensures
            bits == self.bits_of(),
    {
        match self {
            FontSize::Dots5x10 => 0x04,
            FontSize::Dots5x8 => 0x00,
        }
    }
}

impl Register {
    /// The level of the register select pin: high for data.
    pub fn level(self) -> (high: bool)
        ensures
            high == (self == Register::Data),
    {
        match self {
            Register::Instruction => false,
            Register::Data => true,
        }
    }
}

} // verus!
