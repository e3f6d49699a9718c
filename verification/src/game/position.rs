use vstd::prelude::*;

verus! {

/// A position on a grid of 16 columns, packed into one byte: the column in
/// the bits above the lowest `ROW_BITS` bits, the row in those lowest bits.
/// Every position is made by `new` or from another position, so its column
/// never exceeds 15 (see `columns_fit`).
#[derive(Copy, Clone, PartialEq, Eq, Debug)]
pub struct GenericPosition<const ROW_BITS: u8>(pub(crate) u8);

/// A position on the LCD: 16 columns, 2 rows.
pub type Position = GenericPosition<1>;

/// Largest column a position can hold.
pub const COLUMN_MASK: u8 = 0x0f;

/// The mask of the lowest `r` bits of a byte.
pub open spec fn low_mask(r: u8) -> u8 {
    0xffu8 >> ((8 - r) as u8)
}

/// The byte that `new(column, row)` packs.
pub open spec fn pack(r: u8, column: u8, row: u8) -> u8 {
    (((column & 0x0f) << r) | (row & low_mask(r))) as u8
}

/// The column that a signed nudge of `column` by `offset` lands on, kept
/// within `0..=15`.
pub open spec fn clamp_column(column: int, offset: int) -> u8 {
    if column + offset < 0 {
        0
    } else if column + offset > 15 {
        15
    } else {
        (column + offset) as u8
    }
}

proof fn lemma_pack(r: u8, column: u8, row: u8)
    by (bit_vector)
    requires
        0 < r < 8,
    ensures
        ((((column & 0x0f) << r) | (row & (0xffu8 >> ((8 - r) as u8)))) as u8) & (0xffu8 >> ((8
            - r) as u8)) == row & (0xffu8 >> ((8 - r) as u8)),
        r <= 4 ==> ((((column & 0x0f) << r) | (row & (0xffu8 >> ((8 - r) as u8)))) as u8) >> r
            == column & 0x0f,
        ((((column & 0x0f) << r) | (row & (0xffu8 >> ((8 - r) as u8)))) as u8) >> r <= 0x0f,
{
}

proof fn lemma_with_row(r: u8, bits: u8, row: u8)
    by (bit_vector)
    requires
        0 < r < 8,
    ensures
        ((bits & !(0xffu8 >> ((8 - r) as u8))) | (row & (0xffu8 >> ((8 - r) as u8)))) >> r
            == bits >> r,
        ((bits & !(0xffu8 >> ((8 - r) as u8))) | (row & (0xffu8 >> ((8 - r) as u8)))) & (0xffu8
            >> ((8 - r) as u8)) == row & (0xffu8 >> ((8 - r) as u8)),
{
}

proof fn lemma_with_column(r: u8, bits: u8, column: u8)
    by (bit_vector)
    requires
        0 < r < 8,
    ensures
        ((((column & 0x0f) << r) | (bits & (0xffu8 >> ((8 - r) as u8)))) as u8) >> r <= 0x0f,
        ((((column & 0x0f) << r) | (bits & (0xffu8 >> ((8 - r) as u8)))) as u8) & (0xffu8 >> ((8
            - r) as u8)) == bits & (0xffu8 >> ((8 - r) as u8)),
        r <= 4 ==> ((((column & 0x0f) << r) | (bits & (0xffu8 >> ((8 - r) as u8)))) as u8) >> r
            == column & 0x0f,
{
}

proof fn lemma_own_column(r: u8, bits: u8)
    by (bit_vector)
    requires
        0 < r <= 4,
        bits >> r <= 15,
    ensures
        pack(r, bits >> r, bits) == bits,
{
}

proof fn lemma_small_and(c: u8)
    by (bit_vector)
    requires
        c <= 15,
    ensures
        c & 0x0f == c,
{
}

impl<const ROW_BITS: u8> GenericPosition<ROW_BITS> {
    /// The column of every position is at most 15.
    #[verifier::type_invariant]
    pub(crate) closed spec fn columns_fit(self) -> bool {
        self.0 >> ROW_BITS <= 15
    }

    /// The packed byte.
    pub closed spec fn bits(self) -> u8 {
        self.0
    }

    /// The position whose packed byte is `bits`.
    pub closed spec fn from_bits(bits: u8) -> Self {
        GenericPosition(bits)
    }

    /// A position is its packed byte.
    pub proof fn lemma_bits(self, other: Self)
        ensures
            Self::from_bits(self.bits()) == self,
            (self.bits() == other.bits()) == (self == other),
    {
    }

    /// The column held in the packed byte.
    pub open spec fn column_of(self) -> u8 {
        self.bits() >> ROW_BITS
    }

    /// The row held in the packed byte.
    pub open spec fn row_of(self) -> u8 {
        self.bits() & low_mask(ROW_BITS)
    }

    /// The mask of the row bits.
    pub fn row_mask() -> (mask: u8)
        requires
            0 < ROW_BITS < 8,
        ensures
            mask == low_mask(ROW_BITS),
    {
        0xffu8 >> (8 - ROW_BITS)
    }

    /// Packs `column` (its low four bits) and `row` (its row bits).
    pub fn new(column: u8, row: u8) -> (position: Self)
        requires
            0 < ROW_BITS < 8,
        ensures
            position.bits() == pack(ROW_BITS, column, row),
            position.row_of() == row & low_mask(ROW_BITS),
            ROW_BITS <= 4 ==> position.column_of() == column & 0x0f,
            position.column_of() <= 15,
    {
        proof {
            lemma_pack(ROW_BITS, column, row);
        }
        Self(((column & COLUMN_MASK) << ROW_BITS) | (row & Self::row_mask()))
    }

    pub fn column(self) -> (column: u8)
        requires
            0 < ROW_BITS < 8,
        ensures
            column == self.column_of(),
            column <= 15,
    {
        proof {
            use_type_invariant(&self);
        }
        self.0 >> ROW_BITS
    }

    pub fn row(self) -> (row: u8)
        requires
            0 < ROW_BITS < 8,
        ensures
            row == self.row_of(),
    {
        self.0 & Self::row_mask()
    }

    /// Whether the two positions are one and the same.
    pub(crate) fn same_place(self, other: Self) -> (same: bool)
        ensures
            same == (self.bits() == other.bits()),
    {
        self.0 == other.0
    }

    /// The same column, on row `row`.
    pub fn with_row(self, row: u8) -> (position: Self)
        requires
            0 < ROW_BITS < 8,
        ensures
            position.bits() == (self.bits() & !low_mask(ROW_BITS)) | (row & low_mask(ROW_BITS)),
            position.column_of() == self.column_of(),
            position.row_of() == row & low_mask(ROW_BITS),
    {
        proof {
            use_type_invariant(&self);
            lemma_with_row(ROW_BITS, self.0, row);
        }
        Self(self.0 & !Self::row_mask() | row & Self::row_mask())
    }

    /// The same row, on column `column`.
    pub fn with_column(self, column: u8) -> (position: Self)
        requires
            0 < ROW_BITS < 8,
        ensures
            position.bits() == pack(ROW_BITS, column, self.bits()),
            position.row_of() == self.row_of(),
            ROW_BITS <= 4 ==> position.column_of() == column & 0x0f,
            // Its own column gives the position back.
            ROW_BITS <= 4 && column == self.column_of() ==> position == self,
    {
        proof {
            use_type_invariant(&self);
            lemma_with_column(ROW_BITS, self.0, column);
            if ROW_BITS <= 4 && column == self.column_of() {
                lemma_own_column(ROW_BITS, self.0);
                assert(Self(self.0) == self);
            }
        }
        Self(((column & COLUMN_MASK) << ROW_BITS) | (self.0 & Self::row_mask()))
    }

    /// Moves the column by `offset`, stopping at columns 0 and 15.
    pub fn nudge_column_saturating(self, offset: i8) -> (position: Self)
        requires
            0 < ROW_BITS < 8,
        ensures
            position.bits() == pack(ROW_BITS, clamp_column(self.column_of() as int, offset as int), self.bits()),
            position.row_of() == self.row_of(),
            ROW_BITS <= 4 ==> position.column_of() == clamp_column(
                self.column_of() as int,
                offset as int,
            ),
    {
        let sum: i16 = self.column() as i16 + offset as i16;
        let column: u8 = if sum < 0 {
            0
        } else if sum > 15 {
            15
        } else {
            sum as u8
        };
        proof {
            lemma_small_and(column);
        }
        self.with_column(column)
    }

    /// Like `nudge_column_saturating`, and also tells whether the move
    /// would have left columns `0..=15`.
    pub fn nudge_column_overflowing(self, offset: i8) -> (result: (Self, bool))
        requires
            0 < ROW_BITS < 8,
        ensures
            result.0.bits() == pack(ROW_BITS, clamp_column(self.column_of() as int, offset as int), self.bits()),
            result.0.row_of() == self.row_of(),
            ROW_BITS <= 4 ==> result.0.column_of() == clamp_column(
                self.column_of() as int,
                offset as int,
            ),
            result.1 == (self.column_of() + offset < 0 || self.column_of() + offset > 15),
    {
        let column = self.column();
        let overflowed = column as i16 + offset as i16 > 15 || (offset < 0 && (column as i16) < -(
        offset as i16));
        (self.nudge_column_saturating(offset), overflowed)
    }
}

impl<const ROW_BITS: u8> GenericPosition<ROW_BITS> {
    /// Moves the row by `offset`, stopping at row 0 and the largest row.
    pub fn nudge_row_saturating(self, offset: i8) -> (position: Self)
        requires
            0 < ROW_BITS < 8,
        ensures
            position.column_of() == self.column_of(),
            position.row_of() == clamp_row(ROW_BITS, self.row_of() as int, offset as int),
    {
        let mask = Self::row_mask();
        let sum: i16 = self.row() as i16 + offset as i16;
        let row: u8 = if sum < 0 {
            0
        } else if sum > mask as i16 {
            mask
        } else {
            sum as u8
        };
        proof {
            lemma_mask_and(ROW_BITS, row);
        }
        self.with_row(row)
    }

    /// Like `nudge_row_saturating`, and also tells whether the move would
    /// have left the rows.
    pub fn nudge_row_overflowing(self, offset: i8) -> (result: (Self, bool))
        requires
            0 < ROW_BITS < 8,
        ensures
            result.0.column_of() == self.column_of(),
            result.0.row_of() == clamp_row(ROW_BITS, self.row_of() as int, offset as int),
            result.1 == (self.row_of() + offset < 0 || self.row_of() + offset > low_mask(ROW_BITS)),
    {
        let row = self.row();
        let overflowed = row as i16 + offset as i16 > Self::row_mask() as i16 || (offset < 0
            && (row as i16) < -(offset as i16));
        (self.nudge_row_saturating(offset), overflowed)
    }
}

/// The row that a signed nudge of `row` by `offset` lands on, kept within
/// the rows that `r` row bits hold.
pub open spec fn clamp_row(r: u8, row: int, offset: int) -> u8 {
    if row + offset < 0 {
        0
    } else if row + offset > low_mask(r) {
        low_mask(r)
    } else {
        (row + offset) as u8
    }
}

/// The row bits never exceed the row mask; the masks of one and two row bits.
pub proof fn lemma_row_bound(r: u8, bits: u8)
    by (bit_vector)
    requires
        0 < r < 8,
    ensures
        bits & (0xffu8 >> ((8 - r) as u8)) <= (0xffu8 >> ((8 - r) as u8)),
        0xffu8 >> ((8 - 1u8) as u8) == 1,
        0xffu8 >> ((8 - 2u8) as u8) == 3,
{
}

/// Packing a position's own column and row gives the position back, for
/// up to four row bits (a column then still has its four bits).
pub proof fn law_position_round_trip(r: u8, bits: u8)
    by (bit_vector)
    requires
        0 < r <= 4,
        bits >> r < 16,
    ensures
        pack(r, bits >> r, bits & low_mask(r)) == bits,
{
}

/// Small columns and rows are kept as they are by `new`.
pub proof fn lemma_small_coordinates(c: u8, r: u8)
    by (bit_vector)
    ensures
        c < 16 ==> c & 0x0f == c,
        r < 2 ==> r & 1 == r,
        r < 4 ==> r & 3 == r,
        0xffu8 >> ((8 - 1u8) as u8) == 1,
        0xffu8 >> ((8 - 2u8) as u8) == 3,
{
}

proof fn lemma_mask_and(r: u8, row: u8)
    by (bit_vector)
    requires
        0 < r < 8,
        row <= 0xffu8 >> ((8 - r) as u8),
    ensures
        row & (0xffu8 >> ((8 - r) as u8)) == row,
{
}

} // verus!
