use vstd::prelude::*;
use crate::game::position::{GenericPosition, Position, pack, low_mask, clamp_column, clamp_row, lemma_row_bound};
use crate::screen::{Screen, LcdCommand, cell_index};
use crate::game::GameMode;

verus! {

broadcast use crate::screen::lemma_extends_refl;

/// Positions inside a sokoban level: 16 columns, 4 rows.
pub type LevelPosition = GenericPosition<2>;

/// A parsed level: the player's start and one 32-bit word per row, two bits
/// per column, column 0 in the highest bits.
pub type LevelData = (LevelPosition, [u32; 4]);

#[derive(Copy, Clone, PartialEq, Eq, Debug, Structural)]
pub enum Tile {
    Empty,
    Wall,
    Box,
    Destination,
    Player,
    BoxOnDestination,
}

/// How a tile looks in one half of an LCD cell.
#[derive(Copy, Clone, PartialEq, Eq, Debug, Structural)]
pub enum TileDisplay {
    Empty,
    Dither,
    Full,
}

impl TileDisplay {
    pub open spec fn value_of(self) -> u8 {
        match self {
            TileDisplay::Empty => 0,
            TileDisplay::Dither => 1,
            TileDisplay::Full => 2,
        }
    }

    /// The number of the display kind: 0, 1 or 2.
    pub fn value(self) -> (value: u8)
        ensures
            value == self.value_of(),
    {
        match self {
            TileDisplay::Empty => 0,
            TileDisplay::Dither => 1,
            TileDisplay::Full => 2,
        }
    }
}

impl Tile {
    pub open spec fn display_of(self, flash: bool) -> TileDisplay {
        match self {
            Tile::Empty => TileDisplay::Empty,
            Tile::Box => TileDisplay::Dither,
            Tile::Wall | Tile::Player | Tile::BoxOnDestination => TileDisplay::Full,
            Tile::Destination => if flash {
                TileDisplay::Full
            } else {
                TileDisplay::Dither
            },
        }
    }

    /// The character code that shows `top` above `bottom`: code
    /// `3 * top + bottom - 1` of the custom character set, or a space when
    /// both halves are empty.
    pub open spec fn pair_byte(top: Tile, bottom: Tile, flash: bool) -> u8 {
        let v = top.display_of(flash).value_of() * 3 + bottom.display_of(flash).value_of();
        if v == 0 {
            32
        } else {
            (v - 1) as u8
        }
    }

    pub fn display_kind(self, flash: bool) -> (display: TileDisplay)
        ensures
            display == self.display_of(flash),
    {
        match self {
            Tile::Empty => TileDisplay::Empty,
            Tile::Box => TileDisplay::Dither,
            Tile::Wall | Tile::Player | Tile::BoxOnDestination => TileDisplay::Full,
            Tile::Destination => {
                if flash {
                    TileDisplay::Full
                } else {
                    TileDisplay::Dither
                }
            },
        }
    }

    pub fn byte_of_pair(top: Self, bottom: Self, flash: bool) -> (byte: u8)
        ensures
            byte == Tile::pair_byte(top, bottom, flash),
    {
        let top = top.display_kind(flash).value();
        let bottom = bottom.display_kind(flash).value();
        match (top * 3 + bottom).checked_sub(1) {
            Some(byte) => byte,
            None => 32u8,
        }
    }

    /// The tile that two bits of a level row stand for.
    pub open spec fn of_bits(bits: u32) -> Tile {
        if bits == 0 {
            Tile::Empty
        } else if bits == 1 {
            Tile::Wall
        } else if bits == 2 {
            Tile::Box
        } else {
            Tile::Destination
        }
    }

    pub fn from_bits(bits: u32) -> (tile: Tile)
        requires
            bits < 4,
        ensures
            tile == Tile::of_bits(bits),
    {
        if bits == 0 {
            Tile::Empty
        } else if bits == 1 {
            Tile::Wall
        } else if bits == 2 {
            Tile::Box
        } else {
            Tile::Destination
        }
    }
}

// ---------------------------------------------------------------------------
// The level file format.
//
// A file is a sequence of levels. A level is a label line that ends in `:`
// (before `\n` or `\r\n`), then four rows. A row is `|`, sixteen tile bytes,
// `|`, an optional `\r`, then `\n` (the last row of the file may end at the
// end of the file). Tile bytes: ` ` empty, `#` wall, `x` box,
// `z` destination, `p` the player's start (on an empty tile). Each level has
// exactly one `p`.
// ---------------------------------------------------------------------------

pub open spec fn is_tile_byte(b: u8) -> bool {
    b == 32 || b == 35 || b == 120 || b == 122 || b == 112
}

/// The two bits that a tile byte stands for.
pub open spec fn tile_code(b: u8) -> int {
    if b == 35 {
        1
    } else if b == 120 {
        2
    } else if b == 122 {
        3
    } else {
        0
    }
}

/// The row word of the tile bytes `s`: two bits per byte, first byte highest.
pub open spec fn row_value(s: Seq<u8>) -> int
    decreases s.len(),
{
    if s.len() == 0 {
        0
    } else {
        row_value(s.drop_last()) * 4 + tile_code(s.last())
    }
}

pub open spec fn pow4(n: nat) -> int
    decreases n,
{
    if n == 0 {
        1
    } else {
        4 * pow4((n - 1) as nat)
    }
}

/// Number of `p` bytes in `s`.
pub open spec fn count_p(s: Seq<u8>) -> nat
    decreases s.len(),
{
    if s.len() == 0 {
        0
    } else {
        count_p(s.drop_last()) + if s.last() == 112 {
            1nat
        } else {
            0nat
        }
    }
}

/// Index of the first `\n` at or after `i`, or the file's length.
pub open spec fn first_newline(file: Seq<u8>, i: int) -> int
    decreases file.len() - i,
{
    if i < 0 || i >= file.len() {
        file.len() as int
    } else if file[i] == 10 {
        i
    } else {
        first_newline(file, i + 1)
    }
}

/// The label line that starts at `i` ends, before its `\n`, in `:` or `:\r`.
pub open spec fn label_ok(file: Seq<u8>, i: int) -> bool {
    let j = first_newline(file, i);
    &&& 0 <= i
    &&& 1 <= j < file.len()
    &&& if file[j - 1] == 13 {
        j >= 2 && file[j - 2] == 58
    } else {
        file[j - 1] == 58
    }
}

/// Where the line after a row that starts at `i` begins.
pub open spec fn row_next(file: Seq<u8>, i: int) -> int {
    let e = i + 18;
    if e < file.len() && file[e] == 13 {
        e + 2
    } else {
        e + 1
    }
}

/// The sixteen tile bytes of the row that starts at `i`.
pub open spec fn row_content(file: Seq<u8>, i: int) -> Seq<u8> {
    file.subrange(i + 1, i + 17)
}

pub open spec fn row_ok(file: Seq<u8>, i: int) -> bool {
    &&& 0 <= i
    &&& i + 17 < file.len()
    &&& file[i] == 124
    &&& forall|k: int| i + 1 <= k <= i + 16 ==> is_tile_byte(#[trigger] file[k])
    &&& file[i + 17] == 124
    &&& (row_next(file, i) - 1 >= file.len() || file[row_next(file, i) - 1] == 10)
}

/// Where row `r` (0 to 3) of the level that starts at `i` begins.
pub open spec fn row_start(file: Seq<u8>, i: int, r: int) -> int
    decreases r,
{
    if r <= 0 {
        first_newline(file, i) + 1
    } else {
        row_next(file, row_start(file, i, r - 1))
    }
}

/// Number of `p` bytes in the first `n` rows of the level that starts at `i`.
pub open spec fn seen_p(file: Seq<u8>, i: int, n: int) -> nat
    decreases n,
{
    if n <= 0 {
        0
    } else {
        seen_p(file, i, n - 1) + count_p(row_content(file, row_start(file, i, n - 1)))
    }
}

pub open spec fn level_ok(file: Seq<u8>, i: int) -> bool {
    &&& label_ok(file, i)
    &&& forall|r: int| 0 <= r < 4 ==> row_ok(file, #[trigger] row_start(file, i, r))
    &&& seen_p(file, i, 4) == 1
}

proof fn lemma_small(x: u8)
    by (bit_vector)
    ensures
        x < 4 ==> x & (0xffu8 >> ((8 - 2u8) as u8)) == x,
        x < 16 ==> x & 0x0f == x,
{
}

/// Where the level after the one that starts at `i` begins.
pub open spec fn level_next(file: Seq<u8>, i: int) -> int {
    row_next(file, row_start(file, i, 3))
}

/// The start of each level, from the level that starts at `i` on; `None`
/// where the text from `i` on is not a sequence of levels.
pub open spec fn level_starts(file: Seq<u8>, i: int) -> Option<Seq<int>>
    decreases file.len() - i,
{
    if i >= file.len() {
        Some(Seq::empty())
    } else if i < 0 || !level_ok(file, i) || level_next(file, i) <= i {
        None
    } else if level_next(file, i) >= file.len() {
        Some(seq![i])
    } else {
        match level_starts(file, level_next(file, i)) {
            Some(rest) => Some(seq![i].add(rest)),
            None => None,
        }
    }
}

/// How many levels the game holds: one per letter of the level select.
pub const LEVEL_COUNT: usize = 15;

/// A well-formed level file, with no more levels than the game holds.
pub open spec fn levels_file_ok(file: Seq<u8>) -> bool {
    &&& level_starts(file, 0) is Some
    &&& level_starts(file, 0).unwrap().len() <= LEVEL_COUNT
}

pub open spec fn all_starts(file: Seq<u8>) -> Seq<int> {
    level_starts(file, 0).unwrap()
}

proof fn lemma_first_newline(file: Seq<u8>, i: int)
    requires
        0 <= i,
    ensures
        i <= first_newline(file, i) <= file.len() || i > file.len(),
        first_newline(file, i) < file.len() ==> file[first_newline(file, i)] == 10,
        forall|k: int| i <= k < first_newline(file, i) ==> file[k] != 10,
    decreases file.len() - i,
{
    if i < file.len() && file[i] != 10 {
        lemma_first_newline(file, i + 1);
    }
}

proof fn lemma_row_value_bound(s: Seq<u8>)
    ensures
        0 <= row_value(s) < pow4(s.len()),
    decreases s.len(),
{
    if s.len() > 0 {
        lemma_row_value_bound(s.drop_last());
        assert(pow4(s.len()) == 4 * pow4((s.len() - 1) as nat));
    }
}

proof fn lemma_pow4_pos(n: nat)
    ensures
        pow4(n) >= 1,
    decreases n,
{
    if n > 0 {
        lemma_pow4_pos((n - 1) as nat);
    }
}

proof fn lemma_pow4_mono(a: nat, b: nat)
    requires
        a <= b,
    ensures
        1 <= pow4(a) <= pow4(b),
    decreases b - a,
{
    lemma_pow4_pos(a);
    if a < b {
        lemma_pow4_mono(a, (b - 1) as nat);
        assert(pow4(b) == 4 * pow4((b - 1) as nat));
    }
}

proof fn lemma_pow4_15()
    ensures
        pow4(15) == 0x40000000,
        pow4(16) == 0x100000000,
{
    reveal_with_fuel(pow4, 17);
}

proof fn lemma_shift_in(line: u32, code: u32)
    by (bit_vector)
    requires
        line < 0x40000000,
        code < 4,
    ensures
        ((line << 2u32) | code) == line * 4 + code,
{
}

/// Reads the level file `file`: for each level, the player's start and the
/// four row words.
/// `data` is the level that starts at `start` of `file`, as `parse_levels`
/// reads it: its four row words and the place of its player.
pub open spec fn parsed_level(file: Seq<u8>, start: int, data: LevelData) -> bool {
    &&& forall|r: int|
        0 <= r < 4 ==> data.1[r] == row_value(row_content(file, #[trigger] row_start(file, start, r)))
    &&& data.0.row_of() < 4
    &&& data.0.column_of() < 16
    &&& file[row_start(file, start, data.0.row_of() as int) + 1 + data.0.column_of()] == 112
}

/// `levels` is what `parse_levels` reads from `file`: one entry per level,
/// each its level (see `parsed_level`).
pub open spec fn parsed_file(file: Seq<u8>, levels: Seq<LevelData>) -> bool {
    &&& levels.len() == all_starts(file).len()
    &&& forall|k: int|
        0 <= k < levels.len() ==> parsed_level(file, all_starts(file)[k], #[trigger] levels[k])
}

pub fn parse_levels(file: &[u8]) -> (levels: Vec<LevelData>)
    requires
        levels_file_ok(file@),
        file@.len() < usize::MAX,
    ensures
        levels@.len() == all_starts(file@).len(),
        forall|k: int, r: int|
            0 <= k < levels@.len() && 0 <= r < 4 ==> levels@[k].1[r] == row_value(
                row_content(file@, #[trigger] row_start(file@, all_starts(file@)[k], r)),
            ),
        forall|k: int|
            #![trigger levels@[k]]
            0 <= k < levels@.len() ==> {
                let p = levels@[k].0;
                &&& p.row_of() < 4
                &&& p.column_of() < 16
                &&& file@[row_start(file@, all_starts(file@)[k], p.row_of() as int) + 1
                    + p.column_of()] == 112
            },
        forall|k: int|
            0 <= k < levels@.len() ==> parsed_level(file@, all_starts(file@)[k], #[trigger] levels@[k]),
        parsed_file(file@, levels@),
{
    let mut levels: Vec<LevelData> = Vec::new();
    let mut i: usize = 0;
    let ghost done: Seq<int> = Seq::empty();
    while i < file.len()
        invariant
            levels_file_ok(file@),
            file@.len() < usize::MAX,
            level_starts(file@, i as int) is Some,
            all_starts(file@) == done + level_starts(file@, i as int).unwrap(),
            levels@.len() == done.len(),
            i <= file@.len() + 1,
            forall|k: int, r: int|
                0 <= k < levels@.len() && 0 <= r < 4 ==> levels@[k].1[r] == row_value(
                    row_content(file@, #[trigger] row_start(file@, done[k], r)),
                ),
            forall|k: int|
                #![trigger levels@[k]]
                0 <= k < levels@.len() ==> {
                    let p = levels@[k].0;
                    &&& p.row_of() < 4
                    &&& p.column_of() < 16
                    &&& file@[row_start(file@, done[k], p.row_of() as int) + 1 + p.column_of()]
                        == 112
                },
        decreases file@.len() + 1 - i,
    {
        let ghost level_start = i as int;
        assert(level_ok(file@, level_start));
        assert(level_next(file@, level_start) > level_start);
        proof {
            lemma_first_newline(file@, level_start);
        }
        // Skip the label.
        while file[i] != 10u8
            invariant
                level_start <= i <= first_newline(file@, level_start),
                first_newline(file@, level_start) < file@.len(),
                forall|k: int|
                    level_start <= k < first_newline(file@, level_start) ==> file@[k] != 10,
                file@[first_newline(file@, level_start)] == 10,
            decreases file@.len() - i,
        {
            i = i + 1;
        }
        i = i + 1;
        assert(i == row_start(file@, level_start, 0));
        let mut start_position: Option<LevelPosition> = None;
        let mut rows: [u32; 4] = [0u32; 4];
        let mut line_number: usize = 0;
        while line_number < 4
            invariant
                0 <= line_number <= 4,
                level_ok(file@, level_start),
                file@.len() < usize::MAX,
                line_number < 4 ==> i == row_start(file@, level_start, line_number as int),
                line_number == 4 ==> i == level_next(file@, level_start),
                forall|r: int|
                    0 <= r < line_number ==> rows[r] == row_value(
                        row_content(file@, #[trigger] row_start(file@, level_start, r)),
                    ),
                start_position is Some ==> {
                    let p = start_position.unwrap();
                    &&& p.row_of() < 4
                    &&& p.column_of() < 16
                    &&& p.row_of() < line_number
                    &&& file@[row_start(file@, level_start, p.row_of() as int) + 1
                        + p.column_of()] == 112
                },
                (start_position is Some) == (seen_p(file@, level_start, line_number as int) > 0),
            decreases 4 - line_number,
        {
            let ghost row_begin = i as int;
            assert(row_ok(file@, row_start(file@, level_start, line_number as int)));
            assert(i + 17 < file@.len());
            i = i + 1;
            let mut line: u32 = 0;
            let mut length: u32 = 0;
            let ghost content = row_content(file@, row_begin);
            while file[i] != 124u8
                invariant
                    row_ok(file@, row_begin),
                    content == row_content(file@, row_begin),
                    0 <= length <= 16,
                    i == row_begin + 1 + length,
                    line == row_value(content.take(length as int)),
                    (start_position is Some) == (seen_p(file@, level_start, line_number as int)
                        + count_p(content.take(length as int)) > 0),
                    start_position is Some ==> {
                        let p = start_position.unwrap();
                        &&& p.row_of() < 4
                        &&& p.column_of() < 16
                        &&& p.row_of() <= line_number
                        &&& file@[row_start(file@, level_start, p.row_of() as int) + 1
                            + p.column_of()] == 112
                    },
                    0 <= line_number < 4,
                    row_begin == row_start(file@, level_start, line_number as int),
                    file@.len() < usize::MAX,
                decreases 16 - length,
            {
                let byte = file[i];
                assert(length < 16);
                proof {
                    lemma_row_value_bound(content.take(length as int));
                    lemma_pow4_15();
                    lemma_pow4_mono(length as nat, 15);
                    lemma_small(length as u8);
                    lemma_small(line_number as u8);
                }
                let code: u32 = if byte == 35u8 {
                    1
                } else if byte == 120u8 {
                    2
                } else if byte == 122u8 {
                    3
                } else {
                    0
                };
                proof {
                    assert(content.take(length + 1).drop_last() =~= content.take(length as int));
                    assert(content.take(length + 1).last() == byte);
                    assert(count_p(content.take(length + 1)) == count_p(content.take(length as int))
                        + if byte == 112u8 {
                        1nat
                    } else {
                        0nat
                    });
                }
                if byte == 112u8 {
                    start_position = Some(LevelPosition::new(length as u8, line_number as u8));
                }
                proof {
                    lemma_shift_in(line, code);
                    assert(content.take(length + 1).drop_last() =~= content.take(length as int));
                }
                line = (line << 2u32) | code;
                i = i + 1;
                length = length + 1;
            }
            assert(length == 16);
            assert(content.take(16) =~= content);
            rows[line_number] = line;
            i = i + 1;
            if i < file.len() && file[i] == 13u8 {
                i = i + 1;
            }
            i = i + 1;
            line_number = line_number + 1;
        }
        levels.push((start_position.unwrap(), rows));
        proof {
            done = done.push(level_start);
        }
    }
    levels
}

/// Index of the first `\n` at or after `i`, or the file's length.
fn find_newline(file: &[u8], i: usize) -> (j: usize)
    requires
        i <= file@.len(),
    ensures
        j as int == first_newline(file@, i as int),
        j <= file@.len(),
{
    let mut j = i;
    while j < file.len() && file[j] != 10u8
        invariant
            i <= j <= file@.len(),
            first_newline(file@, j as int) == first_newline(file@, i as int),
        decreases file@.len() - j,
    {
        j = j + 1;
    }
    j
}

fn label_valid(file: &[u8], i: usize) -> (ok: bool)
    requires
        i <= file@.len(),
    ensures
        ok == label_ok(file@, i as int),
{
    let j = find_newline(file, i);
    if j < 1 || j >= file.len() {
        return false;
    }
    if file[j - 1] == 13u8 {
        j >= 2 && file[j - 2] == 58u8
    } else {
        file[j - 1] == 58u8
    }
}

fn next_row_start(file: &[u8], i: usize) -> (next: usize)
    requires
        i + 17 < file@.len(),
        file@.len() < usize::MAX,
    ensures
        next == row_next(file@, i as int),
        next <= file@.len() + 1,
{
    let e = i + 18;
    if e < file.len() && file[e] == 13u8 {
        e + 2
    } else {
        e + 1
    }
}

fn row_valid(file: &[u8], i: usize) -> (ok: bool)
    requires
        file@.len() < usize::MAX,
    ensures
        ok == row_ok(file@, i as int),
{
    if i >= file.len() || file.len() - i <= 17 {
        return false;
    }
    if file[i] != 124u8 || file[i + 17] != 124u8 {
        return false;
    }
    let mut k = i + 1;
    while k <= i + 16
        invariant
            i + 17 < file@.len(),
            file@.len() < usize::MAX,
            i + 1 <= k <= i + 17,
            forall|m: int| i + 1 <= m < k ==> is_tile_byte(#[trigger] file@[m]),
        decreases i + 17 - k,
    {
        let b = file[k];
        if !(b == 32u8 || b == 35u8 || b == 120u8 || b == 122u8 || b == 112u8) {
            assert(!is_tile_byte(file@[k as int]));
            return false;
        }
        k = k + 1;
    }
    let next = next_row_start(file, i);
    next - 1 >= file.len() || file[next - 1] == 10u8
}

/// The number of `p` bytes among the tiles of the row that starts at `i`.
fn count_player_bytes(file: &[u8], i: usize) -> (n: usize)
    requires
        i + 17 < file@.len(),
        file@.len() < usize::MAX,
    ensures
        n == count_p(row_content(file@, i as int)),
        n <= 16,
{
    let ghost content = row_content(file@, i as int);
    let mut n: usize = 0;
    let mut k: usize = 0;
    while k < 16
        invariant
            0 <= k <= 16,
            i + 17 < file@.len(),
            file@.len() < usize::MAX,
            content == row_content(file@, i as int),
            n == count_p(content.take(k as int)),
            n <= k,
        decreases 16 - k,
    {
        proof {
            assert(content.take(k + 1).drop_last() =~= content.take(k as int));
            assert(content.take(k + 1).last() == file@[i + 1 + k]);
        }
        if file[i + 1 + k] == 112u8 {
            n = n + 1;
        }
        k = k + 1;
    }
    assert(content.take(16) =~= content);
    n
}

/// Whether a well-formed level starts at `i`, and where the next one starts.
fn level_valid(file: &[u8], i: usize) -> (result: (bool, usize))
    requires
        i <= file@.len(),
        file@.len() < usize::MAX,
    ensures
        result.0 == level_ok(file@, i as int),
        result.0 ==> result.1 == level_next(file@, i as int),
        result.0 ==> result.1 <= file@.len() + 1,
{
    if !label_valid(file, i) {
        return (false, 0);
    }
    let j = find_newline(file, i);
    let mut start = j + 1;
    let mut r: usize = 0;
    let mut players: usize = 0;
    while r < 4
        invariant
            0 <= r <= 4,
            label_ok(file@, i as int),
            file@.len() < usize::MAX,
            i <= file@.len(),
            start == row_start(file@, i as int, r as int),
            start <= file@.len() + 1,
            forall|q: int| 0 <= q < r ==> row_ok(file@, #[trigger] row_start(file@, i as int, q)),
            players == seen_p(file@, i as int, r as int),
            players <= 16 * r,
        decreases 4 - r,
    {
        if !row_valid(file, start) {
            return (false, 0);
        }
        let count = count_player_bytes(file, start);
        players = players + count;
        start = next_row_start(file, start);
        r = r + 1;
    }
    (players == 1, start)
}

/// Whether `file` is a well-formed level file, which `parse_levels` reads.
pub fn levels_file_valid(file: &[u8]) -> (ok: bool)
    requires
        file@.len() < usize::MAX,
    ensures
        ok == levels_file_ok(file@),
{
    let mut i: usize = 0;
    let mut count: usize = 0;
    while i < file.len()
        invariant
            file@.len() < usize::MAX,
            i <= file@.len() + 1,
            count <= LEVEL_COUNT,
            (level_starts(file@, 0) is Some) == (level_starts(file@, i as int) is Some),
            level_starts(file@, i as int) is Some ==> level_starts(file@, 0).unwrap().len() == count
                + level_starts(file@, i as int).unwrap().len(),
        decreases file@.len() + 1 - i,
    {
        let (ok, next) = level_valid(file, i);
        if !ok || next <= i {
            return false;
        }
        i = next;
        count = count + 1;
        if count > LEVEL_COUNT {
            return false;
        }
    }
    true
}


// ---------------------------------------------------------------------------
// Levels in play.
// ---------------------------------------------------------------------------

pub const FLASH_PERIOD: u8 = 70;

pub const FLASH_LENGTH: u8 = 40;

pub const EMERGENCY_EXIT_TIME: u8 = 240;

/// The two ways the player can move.
#[derive(Copy, Clone, PartialEq, Eq, Debug, Structural)]
pub enum Axis {
    Column,
    Row,
}

/// Whether a pair of tiles shows a destination: the cells that flash.
pub open spec fn shows_destination(top: Tile, bottom: Tile) -> bool {
    top == Tile::Destination || bottom == Tile::Destination
}

/// Where a nudge of `position` by `offset` along `axis` lands, and whether
/// it would have left the level.
pub open spec fn nudged(position: LevelPosition, axis: Axis, offset: int) -> (int, int, bool) {
    let c = position.column_of() as int;
    let r = position.row_of() as int;
    match axis {
        Axis::Column => (
            clamp_column(c, offset) as int,
            r,
            c + offset < 0 || c + offset > 15,
        ),
        Axis::Row => (c, clamp_row(2, r, offset) as int, r + offset < 0 || r + offset > 3),
    }
}

pub open spec fn grid_cell(grid: [[Tile; 4]; 16], k: int) -> Tile {
    grid[k / 4][k % 4]
}

/// Number of cells among the first `n` (column-major) that hold `t`.
pub open spec fn count_in(grid: [[Tile; 4]; 16], t: Tile, n: int) -> nat
    decreases n,
{
    if n <= 0 {
        0
    } else {
        count_in(grid, t, n - 1) + if grid_cell(grid, n - 1) == t {
            1nat
        } else {
            0nat
        }
    }
}

/// Number of cells of the level that hold `t`.
pub open spec fn count_tiles(grid: [[Tile; 4]; 16], t: Tile) -> nat {
    count_in(grid, t, 64)
}

proof fn lemma_count_update(g1: [[Tile; 4]; 16], g2: [[Tile; 4]; 16], k: int, t: Tile, n: int)
    requires
        0 <= k < 64,
        0 <= n <= 64,
        forall|j: int| 0 <= j < 64 && j != k ==> grid_cell(g1, j) == grid_cell(g2, j),
    ensures
        count_in(g2, t, n) as int == count_in(g1, t, n) as int - (if k < n && grid_cell(g1, k)
            == t {
            1int
        } else {
            0
        }) + (if k < n && grid_cell(g2, k) == t {
            1int
        } else {
            0
        }),
    decreases n,
{
    if n > 0 {
        lemma_count_update(g1, g2, k, t, n - 1);
    }
}

/// The tile that the two bits for column `c` of row word `word` stand for.
pub open spec fn decoded(word: u32, c: int) -> Tile {
    Tile::of_bits((word >> ((2 * (15 - c)) as u32)) & 3u32)
}

pub struct Level {
    /// `level[column][row]`.
    pub level: [[Tile; 4]; 16],
    pub player_position: LevelPosition,
    pub num_boxes: u8,
    pub flash_timer: u8,
    pub emergency_exit_timer: u8,
}

proof fn lemma_shr_zero(word: u32)
    by (bit_vector)
    ensures
        word >> 0u32 == word,
{
}

proof fn lemma_shift_step(word: u32, done: u32)
    by (bit_vector)
    requires
        done < 16,
    ensures
        (word >> (2 * done)) >> 2u32 == word >> (2 * (done + 1)),
        (word >> (2 * done)) & 3u32 < 4,
{
}

/// `decoded_level` is `data` decoded: the start, the grid with the player at
/// the start and every other cell the tile of its two bits, and the number
/// of boxes off a destination.
pub open spec fn decoded_from(data: LevelData, decoded_level: (LevelPosition, [[Tile; 4]; 16], u8)) -> bool {
    &&& decoded_level.0 == data.0
    &&& decoded_level.1[data.0.column_of() as int][data.0.row_of() as int] == Tile::Player
    &&& forall|c: int, r: int|
        0 <= c < 16 && 0 <= r < 4 && (c != data.0.column_of() || r != data.0.row_of())
            ==> decoded_level.1[c][r] == decoded(data.1[r], c)
    &&& decoded_level.2 == count_decoded(data.1@, Tile::Box, 64)
}

/// Decodes a parsed level: the start, the grid with the player at the start,
/// and the number of boxes.
pub fn decode_level(data: &LevelData) -> (decoded_level: (LevelPosition, [[Tile; 4]; 16], u8))
    requires
        data.0.column_of() < 16,
    ensures
        decoded_level.0 == data.0,
        decoded_level.1[data.0.column_of() as int][data.0.row_of() as int] == Tile::Player,
        forall|c: int, r: int|
            0 <= c < 16 && 0 <= r < 4 && (c != data.0.column_of() || r != data.0.row_of())
                ==> decoded_level.1[c][r] == decoded(data.1[r], c),
        decoded_level.2 == count_decoded(data.1@, Tile::Box, 64),
        decoded_from(*data, decoded_level),
{
    let start = data.0;
    let rows = data.1;
    let mut tiles = [[Tile::Empty; 4]; 16];
    let mut num_boxes: u8 = 0;
    let mut row_index: usize = 0;
    while row_index < 4
        invariant
            0 <= row_index <= 4,
            rows == data.1,
            forall|c: int, r: int|
                0 <= c < 16 && 0 <= r < row_index ==> tiles[c][r] == decoded(rows[r], c),
            num_boxes == count_decoded(rows@, Tile::Box, 16 * row_index),
            num_boxes <= 16 * row_index,
        decreases 4 - row_index,
    {
        proof {
            lemma_shift_step(rows[row_index as int], 0);
        }
        let mut row = rows[row_index];
        let mut done: u32 = 0;
        proof {
            lemma_shr_zero(row);
            assert((2 * done) as u32 == 0u32);
        }
        while done < 16
            invariant
                0 <= done <= 16,
                0 <= row_index < 4,
                rows == data.1,
                row == rows[row_index as int] >> ((2 * done) as u32),
                forall|c: int, r: int|
                    0 <= c < 16 && 0 <= r < row_index ==> tiles[c][r] == decoded(rows[r], c),
                forall|c: int|
                    15 - done < c < 16 ==> tiles[c][row_index as int] == decoded(rows[row_index as int], c),
                num_boxes == count_decoded(rows@, Tile::Box, 16 * row_index) + count_row_tail(
                    rows[row_index as int],
                    Tile::Box,
                    done as int,
                ),
                num_boxes <= 16 * row_index + done,
            decreases 16 - done,
        {
            proof {
                lemma_shift_step(rows[row_index as int], done);
            }
            let column = (15 - done) as usize;
            let tile = Tile::from_bits(row & 3);
            row = row >> 2u32;
            tiles[column][row_index] = tile;
            if tile == Tile::Box {
                num_boxes = num_boxes + 1;
            }
            done = done + 1;
        }
        proof {
            lemma_count_decoded_row(rows@, row_index as int);
        }
        row_index = row_index + 1;
    }
    proof {
        lemma_row_bound(2, start.bits());
    }
    tiles[start.column() as usize][start.row() as usize] = Tile::Player;
    (start, tiles, num_boxes)
}

/// Number of tiles `t` among the last `n` columns (15 down) of row word `word`.
pub open spec fn count_row_tail(word: u32, t: Tile, n: int) -> nat
    decreases n,
{
    if n <= 0 {
        0
    } else {
        count_row_tail(word, t, n - 1) + if decoded(word, 16 - n) == t {
            1nat
        } else {
            0nat
        }
    }
}

/// Number of tiles `t` among the first `n` cells (row by row, each row from
/// column 15 down) that the row words `rows` stand for.
pub open spec fn count_decoded(rows: Seq<u32>, t: Tile, n: int) -> nat
    decreases n,
{
    if n <= 0 {
        0
    } else if n % 16 == 0 {
        count_decoded(rows, t, n - 16) + count_row_tail(rows[(n / 16) - 1], t, 16)
    } else {
        count_decoded(rows, t, n - n % 16) + count_row_tail(rows[n / 16], t, n % 16)
    }
}

proof fn lemma_count_decoded_row(rows: Seq<u32>, r: int)
    requires
        0 <= r < 4,
    ensures
        count_decoded(rows, Tile::Box, 16 * (r + 1)) == count_decoded(rows, Tile::Box, 16 * r)
            + count_row_tail(rows[r], Tile::Box, 16),
{
    assert((16 * (r + 1)) % 16 == 0);
    assert((16 * (r + 1)) / 16 - 1 == r);
    assert(16 * (r + 1) - 16 == 16 * r);
}


/// The cells that show `grid`, with the destinations in flash state
/// `flash`.
pub open spec fn grid_cells(grid: [[Tile; 4]; 16], flash: bool) -> Seq<u8> {
    Seq::new(32, |k: int| shown(grid, flash, k % 16, k / 16))
}

/// Whether a frame that starts with the flash timer at `timer` redraws the
/// destinations: the timer, counted down, is at 0 or at `FLASH_LENGTH`.
pub open spec fn flash_redraws(timer: u8) -> bool {
    timer <= 1 || timer - 1 == FLASH_LENGTH
}

/// `cells` with every cell that shows a destination of `grid` redrawn.
pub open spec fn destination_cells(grid: [[Tile; 4]; 16], flash: bool, cells: Seq<u8>) -> Seq<u8> {
    Seq::new(
        32,
        |k: int|
            if shows_destination(grid[k % 16][2 * (k / 16)], grid[k % 16][2 * (k / 16) + 1]) {
                shown(grid, flash, k % 16, k / 16)
            } else {
                cells[k]
            },
    )
}

/// The byte that LCD cell `c`, `r` shows for the grid `grid`.
pub open spec fn shown(grid: [[Tile; 4]; 16], flash: bool, c: int, r: int) -> u8 {
    Tile::pair_byte(grid[c][2 * r], grid[c][2 * r + 1], flash)
}

proof fn lemma_set_counts(
    g1: [[Tile; 4]; 16],
    g2: [[Tile; 4]; 16],
    c: int,
    r: int,
)
    requires
        0 <= c < 16,
        0 <= r < 4,
        forall|i: int, j: int|
            0 <= i < 16 && 0 <= j < 4 && (i != c || j != r) ==> g2[i][j] == g1[i][j],
    ensures
        count_tiles(g2, Tile::Box) as int == count_tiles(g1, Tile::Box) as int - (if g1[c][r]
            == Tile::Box {
            1int
        } else {
            0
        }) + (if g2[c][r] == Tile::Box {
            1int
        } else {
            0
        }),
        count_tiles(g2, Tile::BoxOnDestination) as int == count_tiles(g1, Tile::BoxOnDestination)
            as int - (if g1[c][r] == Tile::BoxOnDestination {
            1int
        } else {
            0
        }) + (if g2[c][r] == Tile::BoxOnDestination {
            1int
        } else {
            0
        }),
{
    let k = c * 4 + r;
    assert(k / 4 == c && k % 4 == r);
    assert forall|j: int| 0 <= j < 64 && j != k implies grid_cell(g1, j) == grid_cell(g2, j) by {
        assert(0 <= j / 4 < 16 && 0 <= j % 4 < 4);
        assert(j / 4 != c || j % 4 != r);
    }
    lemma_count_update(g1, g2, k, Tile::Box, 64);
    lemma_count_update(g1, g2, k, Tile::BoxOnDestination, 64);
}

proof fn lemma_count_positive(g: [[Tile; 4]; 16], c: int, r: int)
    requires
        0 <= c < 16,
        0 <= r < 4,
        g[c][r] == Tile::Box,
    ensures
        count_tiles(g, Tile::Box) >= 1,
{
    let k = c * 4 + r;
    assert(k / 4 == c && k % 4 == r);
    lemma_count_at_least(g, k, 64);
}

proof fn lemma_count_at_least(g: [[Tile; 4]; 16], k: int, n: int)
    requires
        0 <= k < n <= 64,
        grid_cell(g, k) == Tile::Box,
    ensures
        count_in(g, Tile::Box, n) >= 1,
    decreases n,
{
    if n - 1 > k {
        lemma_count_at_least(g, k, n - 1);
    }
}

/// Where a nudge of `position` by `offset` along `axis` lands, and whether
/// it would have left the level.
fn nudge(position: LevelPosition, axis: Axis, offset: i8) -> (result: (LevelPosition, bool))
    ensures
        result.0.column_of() as int == nudged(position, axis, offset as int).0,
        result.0.row_of() as int == nudged(position, axis, offset as int).1,
        result.1 == nudged(position, axis, offset as int).2,
        result.0.column_of() < 16 || axis == Axis::Row,
{
    match axis {
        Axis::Column => {
            let result = position.nudge_column_overflowing(offset);
            assert(result.1 == nudged(position, axis, offset as int).2);
            result
        },
        Axis::Row => {
            let result = position.nudge_row_overflowing(offset);
            proof {
                lemma_row_bound(2, position.bits());
            }
            assert(result.1 == nudged(position, axis, offset as int).2);
            result
        },
    }
}

/// The start of level `index`: the parsed one, or the top left past them.
pub open spec fn padded_start(levels: Seq<LevelData>, index: int) -> LevelPosition {
    if index < levels.len() {
        levels[index].0
    } else {
        GenericPosition::<2>::from_bits(0)
    }
}

/// The row words of level `index`: the parsed ones, or zeros past them.
pub open spec fn padded_rows(levels: Seq<LevelData>, index: int) -> Seq<u32> {
    if index < levels.len() {
        levels[index].1@
    } else {
        seq![0u32, 0u32, 0u32, 0u32]
    }
}

impl Level {
    pub open spec fn tile(self, p: LevelPosition) -> Tile {
        self.level[p.column_of() as int][p.row_of() as int]
    }

    pub open spec fn wf(self) -> bool {
        &&& self.player_position.column_of() < 16
        &&& self.emergency_exit_timer < EMERGENCY_EXIT_TIME
    }

    /// The player stands on its tile and `num_boxes` counts the boxes that
    /// are not on a destination.
    pub open spec fn boxes_counted(self) -> bool {
        &&& self.tile(self.player_position) == Tile::Player
        &&& self.num_boxes == count_tiles(self.level, Tile::Box)
    }

    /// Whether the destinations are drawn full: during the first part of
    /// each flash period.
    pub open spec fn flash(self) -> bool {
        self.flash_timer <= FLASH_LENGTH
    }

    /// The cells that show the level as it stands.
    pub open spec fn shown_cells(self) -> Seq<u8> {
        grid_cells(self.level, self.flash())
    }

    /// `self` is level `index` of `levels` as it starts (an empty level past
    /// the last one): decoded from its rows, the player at its start, the
    /// boxes off their destinations counted, the timers at 0.
    pub open spec fn loaded(self, levels: Seq<LevelData>, index: int) -> bool {
        let start = padded_start(levels, index);
        let rows = padded_rows(levels, index);
        &&& self.flash_timer == 0
        &&& self.emergency_exit_timer == 0
        &&& self.player_position == start
        &&& self.level[start.column_of() as int][start.row_of() as int] == Tile::Player
        &&& forall|c: int, r: int|
            0 <= c < 16 && 0 <= r < 4 && (c != start.column_of() || r != start.row_of())
                ==> self.level[c][r] == decoded(rows[r], c)
        &&& self.num_boxes == count_decoded(rows, Tile::Box, 64)
    }

    /// Loads level `index` of `levels`; an index past the parsed levels
    /// gives the empty level with the player at the top left.
    pub fn load(levels: &[LevelData], index: u8) -> (level: Level)
        requires
            forall|k: int| 0 <= k < levels@.len() ==> (#[trigger] levels@[k]).0.column_of() < 16,
        ensures
            level.wf(),
            level.loaded(levels@, index as int),
    {
        let data = if (index as usize) < levels.len() {
            levels[index as usize]
        } else {
            (LevelPosition::new(0, 0), [0u32; 4])
        };
        proof {
            lemma_row_bound(2, 0);
            assert(pack(2, 0, 0) == 0) by (bit_vector);
            if (index as usize) >= levels.len() {
                data.0.lemma_bits(data.0);
            }
        }
        assert(data.1@ =~= padded_rows(levels@, index as int));
        let (player_position, level, num_boxes) = decode_level(&data);
        Level { level, player_position, num_boxes, flash_timer: 0, emergency_exit_timer: 0 }
    }

    /// The tile at `position`.
    pub fn index(&self, position: LevelPosition) -> (tile: Tile)
        requires
            position.column_of() < 16,
        ensures
            tile == self.tile(position),
    {
        proof {
            lemma_row_bound(2, position.bits());
        }
        self.level[position.column() as usize][position.row() as usize]
    }

    /// Puts `tile` at `position`.
    pub fn set_tile(&mut self, position: LevelPosition, tile: Tile)
        requires
            position.column_of() < 16,
        ensures
            final(self).level[position.column_of() as int][position.row_of() as int] == tile,
            forall|c: int, r: int|
                0 <= c < 16 && 0 <= r < 4 && (c != position.column_of() || r != position.row_of())
                    ==> final(self).level[c][r] == old(self).level[c][r],
            final(self).player_position == old(self).player_position,
            final(self).num_boxes == old(self).num_boxes,
            final(self).flash_timer == old(self).flash_timer,
            final(self).emergency_exit_timer == old(self).emergency_exit_timer,
    {
        proof {
            lemma_row_bound(2, position.bits());
        }
        self.level[position.column() as usize][position.row() as usize] = tile;
    }

    /// The tiles shown in the top and the bottom half of LCD cell `position`.
    pub fn pair_of_tile(&self, position: Position) -> (pair: [Tile; 2])
        requires
            position.column_of() < 16,
        ensures
            pair[0] == self.level[position.column_of() as int][2 * position.row_of()],
            pair[1] == self.level[position.column_of() as int][2 * position.row_of() + 1],
    {
        proof {
            lemma_row_bound(1, position.bits());
        }
        let top_tile = LevelPosition::new(position.column(), position.row() * 2);
        proof {
            let c = position.column_of();
            assert(c < 16 ==> c & 0x0f == c) by (bit_vector);
            lemma_row_bound(2, top_tile.bits());
            let row = position.row_of();
            assert(row < 2 ==> (row * 2) as u8 & 3 == row * 2) by (bit_vector);
        }
        let top = self.index(top_tile);
        let bottom_tile = top_tile.with_row(top_tile.row() + 1);
        proof {
            let row = top_tile.row_of();
            assert(row == 0 || row == 2 ==> (row + 1) as u8 & 3 == row + 1) by (bit_vector);
        }
        let bottom = self.index(bottom_tile);
        [top, bottom]
    }

    pub fn byte_of_pair(&self, top: Tile, bottom: Tile) -> (byte: u8)
        ensures
            byte == Tile::pair_byte(top, bottom, self.flash()),
    {
        Tile::byte_of_pair(top, bottom, self.flash_timer <= FLASH_LENGTH)
    }

    /// The byte that LCD cell `position` shows.
    pub fn byte_of_tile(&self, position: Position) -> (byte: u8)
        requires
            position.column_of() < 16,
        ensures
            byte == shown(self.level, self.flash(), position.column_of() as int, position.row_of() as int),
    {
        let pair = self.pair_of_tile(position);
        self.byte_of_pair(pair[0], pair[1])
    }

    /// Redraws the LCD cell that holds `tile_position`.
    pub fn draw_tile(&self, screen: &mut Screen, tile_position: LevelPosition)
        requires
            old(screen).wf(),
            tile_position.column_of() < 16,
        ensures
            final(screen).extends(*old(screen)),
            final(screen).cell(tile_position.column_of() as int, (tile_position.row_of() / 2) as int)
                == shown(self.level, self.flash(), tile_position.column_of() as int, (tile_position.row_of() / 2) as int),
            forall|k: int|
                0 <= k < 32 && k != cell_index(tile_position.column_of() as int, (tile_position.row_of() / 2) as int)
                    ==> final(screen)@.cells[k] == old(screen)@.cells[k],
            final(screen)@.character_set == old(screen)@.character_set,
    {
        proof {
            lemma_row_bound(2, tile_position.bits());
        }
        let position = Position::new(tile_position.column(), tile_position.row() / 2);
        proof {
            let c = tile_position.column_of();
            let r = tile_position.row_of() / 2;
            lemma_row_bound(1, position.bits());
            assert(c < 16 ==> c & 0x0f == c) by (bit_vector);
            assert(r < 2 ==> r & 1 == r) by (bit_vector);
        }
        let ghost before = *screen;
        screen.set_cursor(position);
        let ghost middle = *screen;
        let byte = self.byte_of_tile(position);
        screen.write(byte);
        proof {
            crate::screen::lemma_extends_trans(before, middle, *screen);
        }
    }

    /// `self` is `before` after the player's step by `input` along `axis`
    /// (`moved` when it took place): onto an empty cell, or pushing a box
    /// onto an empty cell or a destination; walls, edges and blocked boxes
    /// stop it.
    pub open spec fn stepped_on_axis(self, before: Level, axis: Axis, input: i8, moved: bool) -> bool {
        let start = before.player_position;
        let pc = start.column_of() as int;
        let pr = start.row_of() as int;
        let (nc, nr, nb) = nudged(start, axis, input as int);
        let (lc, lr, lb) = nudged(start, axis, 2 * input);
        let next_tile = before.level[nc][nr];
        let look_tile = before.level[lc][lr];
        let pushes = next_tile == Tile::Box;
        let ok = (input == 1 || input == -1) && !nb && (next_tile == Tile::Empty || (pushes
            && !lb && (look_tile == Tile::Empty || look_tile == Tile::Destination)));
        &&& moved == ok
        &&& !ok ==> self.level == before.level && self.player_position
            == start && self.num_boxes == before.num_boxes
        &&& ok ==> self.player_position.column_of() == nc
            && self.player_position.row_of() == nr
            && self.level[nc][nr] == Tile::Player
            && self.level[pc][pr] == Tile::Empty
        &&& ok && pushes ==> self.level[lc][lr] == if look_tile == Tile::Empty {
            Tile::Box
        } else {
            Tile::BoxOnDestination
        }
        &&& ok ==> self.num_boxes == if pushes && look_tile == Tile::Destination {
            if before.num_boxes > 0 {
                (before.num_boxes - 1) as u8
            } else {
                0u8
            }
        } else {
            before.num_boxes
        }
        &&& ok ==> forall|c: int, r: int|
            0 <= c < 16 && 0 <= r < 4 && (c != nc || r != nr) && (c != pc || r != pr) && (
            !pushes || c != lc || r != lr) ==> self.level[c][r] == before.level[c][r]
    }

    /// The cells after the step of `stepped_on_axis` is drawn on `cells`:
    /// the cells of the player's old and new tiles and of the pushed box
    /// show what `self` has there; nothing changes without a move.
    pub open spec fn axis_cells(
        self,
        before: Level,
        axis: Axis,
        input: i8,
        moved: bool,
        cells: Seq<u8>,
    ) -> Seq<u8> {
        let start = before.player_position;
        let pc = start.column_of() as int;
        let pr = start.row_of() as int;
        let (nc, nr, nb) = nudged(start, axis, input as int);
        let (lc, lr, lb) = nudged(start, axis, 2 * input);
        let pushes = before.level[nc][nr] == Tile::Box;
        if moved {
            Seq::new(
                32,
                |k: int|
                    {
                        let c = k % 16;
                        let r = k / 16;
                        if (c == nc && r == nr / 2) || (c == pc && r == pr / 2) || (pushes && c == lc
                            && r == lr / 2) {
                            shown(self.level, self.flash(), c, r)
                        } else {
                            cells[k]
                        }
                    },
            )
        } else {
            cells
        }
    }

    /// The cell-by-cell account of a step's drawing is `axis_cells`.
    proof fn lemma_axis_cells(
        self,
        before: Level,
        axis: Axis,
        input: i8,
        moved: bool,
        earlier: Screen,
        later: Screen,
    )
        requires
            earlier.wf(),
            later.wf(),
            ({
                let start = before.player_position;
                let pc = start.column_of() as int;
                let pr = start.row_of() as int;
                let (nc, nr, nb) = nudged(start, axis, input as int);
                let (lc, lr, lb) = nudged(start, axis, 2 * input);
                let pushes = before.level[nc][nr] == Tile::Box;
                &&& moved ==> forall|c: int, r: int|
                    0 <= c < 16 && 0 <= r < 2 ==> #[trigger] later.cell(c, r) == if (c == nc && r
                        == nr / 2) || (c == pc && r == pr / 2) || (pushes && c == lc && r == lr / 2) {
                        shown(self.level, self.flash(), c, r)
                    } else {
                        earlier.cell(c, r)
                    }
                &&& !moved ==> later@.cells == earlier@.cells
            }),
        ensures
            later@.cells == self.axis_cells(before, axis, input, moved, earlier@.cells),
    {
        if moved {
            assert forall|k: int| 0 <= k < 32 implies #[trigger] later@.cells[k] == self.axis_cells(
                before,
                axis,
                input,
                moved,
                earlier@.cells,
            )[k] by {
                assert(k == (k / 16) * 16 + k % 16);
                assert(later.cell(k % 16, k / 16) == later@.cells[k]);
            }
            assert(later@.cells =~= self.axis_cells(before, axis, input, moved, earlier@.cells));
        }
    }

    /// `self` is `before` after the player's step across (`input[0]`) and
    /// then its step up or down (`input[1]`).
    pub open spec fn moved_by(self, before: Level, input: [i8; 2]) -> bool {
        exists|across: Level, moved_across: bool, moved_down: bool|
            #[trigger] across.stepped_on_axis(before, Axis::Column, input[0], moved_across)
                && #[trigger] self.stepped_on_axis(across, Axis::Row, input[1], moved_down)
    }

    /// `moved_by` reads only the grid, the player and the box count.
    pub proof fn lemma_moved_by_fields(self, other: Level, before: Level, earlier: Level, input: [i8; 2])
        requires
            self.moved_by(before, input),
            other.level == self.level,
            other.player_position == self.player_position,
            other.num_boxes == self.num_boxes,
            earlier.level == before.level,
            earlier.player_position == before.player_position,
            earlier.num_boxes == before.num_boxes,
        ensures
            other.moved_by(earlier, input),
    {
        let (across, moved_across, moved_down) = choose|across: Level, moved_across: bool, moved_down: bool|
            #[trigger] across.stepped_on_axis(before, Axis::Column, input[0], moved_across)
                && #[trigger] self.stepped_on_axis(across, Axis::Row, input[1], moved_down);
        assert(across.stepped_on_axis(earlier, Axis::Column, input[0], moved_across));
        assert(other.stepped_on_axis(across, Axis::Row, input[1], moved_down));
    }

    /// Moves the player one tile along `axis` (`input` 1 or -1), pushing a
    /// box ahead of it onto an empty tile or a destination. Walls,
    /// destinations, boxes already on a destination, two boxes in a row and
    /// the level's edge stop the move. Returns whether the player moved.
    pub fn move_player_on_axis(&mut self, screen: &mut Screen, axis: Axis, input: i8) -> (moved:
        bool)
        requires
            old(self).wf(),
            old(screen).wf(),
        ensures
            final(self).wf(),
            final(screen).extends(*old(screen)),
            final(self).flash_timer == old(self).flash_timer,
            final(self).emergency_exit_timer == old(self).emergency_exit_timer,
            final(screen)@.character_set == old(screen)@.character_set,
            !moved ==> *final(screen) == *old(screen) && *final(self) == *old(self),
            final(self).stepped_on_axis(*old(self), axis, input, moved),
            ({
                let start = old(self).player_position;
                let pc = start.column_of() as int;
                let pr = start.row_of() as int;
                let (nc, nr, nb) = nudged(start, axis, input as int);
                let (lc, lr, lb) = nudged(start, axis, 2 * input);
                let pushes = old(self).level[nc][nr] == Tile::Box;
                &&& moved ==> forall|c: int, r: int|
                    0 <= c < 16 && 0 <= r < 2 ==> #[trigger] final(screen).cell(c, r) == if (c == nc
                        && r == nr / 2) || (c == pc && r == pr / 2) || (pushes && c == lc && r == lr
                        / 2) {
                        shown(final(self).level, final(self).flash(), c, r)
                    } else {
                        old(screen).cell(c, r)
                    }
                &&& !moved ==> final(screen)@.cells == old(screen)@.cells
            }),
            final(screen).wf(),
            // Boxes are neither made nor lost.
            old(self).tile(old(self).player_position) == Tile::Player ==> count_tiles(
                final(self).level,
                Tile::Box,
            ) + count_tiles(final(self).level, Tile::BoxOnDestination) == count_tiles(
                old(self).level,
                Tile::Box,
            ) + count_tiles(old(self).level, Tile::BoxOnDestination),
            // `num_boxes` keeps counting the boxes off their destinations.
            old(self).boxes_counted() ==> final(self).boxes_counted(),
    {
        proof {
            lemma_row_bound(2, self.player_position.bits());
            crate::screen::lemma_extends_refl(*screen);
        }
        if input != 1 && input != -1 {
            return false;
        }
        let ghost g0 = self.level;
        let (next_position, blocked) = nudge(self.player_position, axis, input);
        proof {
            lemma_row_bound(2, next_position.bits());
        }
        let next_tile = self.index(next_position);
        if !(next_tile == Tile::Empty || next_tile == Tile::Box) || blocked {
            return false;
        }
        let ghost screen0 = *screen;
        if next_tile == Tile::Box {
            let (lookahead, lookahead_blocked) = nudge(self.player_position, axis, input * 2);
            if lookahead_blocked {
                return false;
            }
            proof {
                lemma_row_bound(2, lookahead.bits());
            }
            let look_tile = self.index(lookahead);
            if look_tile == Tile::Empty {
                self.set_tile(lookahead, Tile::Box);
            } else if look_tile == Tile::Destination {
                proof {
                    if old(self).boxes_counted() {
                        lemma_count_positive(g0, next_position.column_of() as int, next_position.row_of() as int);
                    }
                }
                self.num_boxes = self.num_boxes.saturating_sub(1);
                self.set_tile(lookahead, Tile::BoxOnDestination);
            } else {
                return false;
            }
            proof {
                lemma_set_counts(g0, self.level, lookahead.column_of() as int, lookahead.row_of() as int);
            }
            self.draw_tile(screen, lookahead);
        }
        let ghost g1 = self.level;
        let old_position = self.player_position;
        self.player_position = next_position;
        self.set_tile(next_position, Tile::Player);
        let ghost g2 = self.level;
        proof {
            lemma_set_counts(g1, g2, next_position.column_of() as int, next_position.row_of() as int);
        }
        self.set_tile(old_position, Tile::Empty);
        proof {
            lemma_set_counts(g2, self.level, old_position.column_of() as int, old_position.row_of() as int);
        }
        let ghost screen1 = *screen;
        self.draw_tile(screen, next_position);
        let ghost screen2 = *screen;
        self.draw_tile(screen, old_position);
        proof {
            crate::screen::lemma_extends_trans(screen1, screen2, *screen);
            crate::screen::lemma_extends_trans(*old(screen), screen1, *screen);
        }
        true
    }


    /// What `condition` answered, cell by cell (`picked[16 * r + c]` for
    /// column `c`, row `r`), when asked about each cell's pair of tiles.
    pub open spec fn picks<F: Fn(Tile, Tile) -> bool>(self, condition: F, picked: Seq<bool>) -> bool {
        &&& picked.len() == 32
        &&& forall|k: int|
            0 <= k < 32 ==> call_ensures(
                condition,
                (self.level[k % 16][2 * (k / 16)], self.level[k % 16][2 * (k / 16) + 1]),
                #[trigger] picked[k],
            )
    }

    /// `later` is `earlier` with the cells that `picked` marks showing the
    /// level.
    pub open spec fn redrawn_where(self, picked: Seq<bool>, earlier: Screen, later: Screen) -> bool {
        forall|c: int, r: int|
            0 <= c < 16 && 0 <= r < 2 ==> #[trigger] later.cell(c, r) == if picked[16 * r + c] {
                shown(self.level, self.flash(), c, r)
            } else {
                earlier.cell(c, r)
            }
    }

    /// The commands that redraw the cells that `picked` marks among the
    /// first `n` (row by row): for each run of marked cells in a row, the
    /// cursor moves to its first cell, then each cell's byte is written.
    pub open spec fn tile_commands(self, picked: Seq<bool>, n: int) -> Seq<LcdCommand>
        decreases n,
    {
        if n <= 0 {
            Seq::empty()
        } else {
            let k = n - 1;
            let c = k % 16;
            let r = k / 16;
            let before = self.tile_commands(picked, k);
            if picked[k] {
                let moved = if c == 0 || !picked[k - 1] {
                    before.push(LcdCommand::SetCursor(c as u8, r as u8))
                } else {
                    before
                };
                moved.push(LcdCommand::Write(shown(self.level, self.flash(), c, r)))
            } else {
                before
            }
        }
    }

    /// The commands for the first `n` cells read only the marks of those
    /// cells.
    pub proof fn lemma_tile_commands_prefix(self, a: Seq<bool>, b: Seq<bool>, n: int)
        requires
            0 <= n <= a.len(),
            n <= b.len(),
            forall|k: int| 0 <= k < n ==> a[k] == b[k],
        ensures
            self.tile_commands(a, n) == self.tile_commands(b, n),
        decreases n,
    {
        if n > 0 {
            self.lemma_tile_commands_prefix(a, b, n - 1);
        }
    }

    /// Asks `condition` about the pair of tiles of every LCD cell, row by
    /// row, and redraws the cells where it answers `true`: the cursor moves
    /// to the first cell of each run of such cells in a row, and each cell's
    /// byte is written (see `tile_commands`).
    pub fn update_all_tiles<F: Fn(Tile, Tile) -> bool>(&self, screen: &mut Screen, condition: F)
        requires
            old(screen).wf(),
            forall|top: Tile, bottom: Tile| call_requires(condition, (top, bottom)),
        ensures
            final(screen).extends(*old(screen)),
            final(screen)@.character_set == old(screen)@.character_set,
            exists|picked: Seq<bool>|
                #[trigger] self.picks(condition, picked) && self.redrawn_where(
                    picked,
                    *old(screen),
                    *final(screen),
                ) && final(screen)@.commands == old(screen)@.commands + self.tile_commands(
                    picked,
                    32,
                ),
    {
        let ghost start = *screen;
        let ghost mut picked: Seq<bool> = Seq::empty();
        proof {
            crate::screen::lemma_extends_refl(*screen);
        }
        let mut row: u8 = 0;
        while row < 2
            invariant
                0 <= row <= 2,
                screen.extends(start),
                start.wf(),
                screen@.character_set == start@.character_set,
                forall|top: Tile, bottom: Tile| call_requires(condition, (top, bottom)),
                picked.len() == 16 * row,
                screen@.commands == start@.commands + self.tile_commands(picked, picked.len() as int),
                forall|k: int|
                    0 <= k < picked.len() ==> call_ensures(
                        condition,
                        (self.level[k % 16][2 * (k / 16)], self.level[k % 16][2 * (k / 16) + 1]),
                        #[trigger] picked[k],
                    ),
                forall|k: int|
                    0 <= k < 32 ==> #[trigger] screen@.cells[k] == if k < picked.len() {
                        if picked[k] {
                            shown(self.level, self.flash(), k % 16, k / 16)
                        } else {
                            start@.cells[k]
                        }
                    } else {
                        start@.cells[k]
                    },
            decreases 2 - row,
        {
            let mut cursor_valid = false;
            let mut column: u8 = 0;
            while column < 16
                invariant
                    0 <= row < 2,
                    0 <= column <= 16,
                    screen.extends(start),
                    start.wf(),
                    screen@.character_set == start@.character_set,
                    cursor_valid ==> screen@.cursor_column == column && screen@.cursor_row == row,
                    forall|top: Tile, bottom: Tile| call_requires(condition, (top, bottom)),
                    picked.len() == 16 * row + column,
                    screen@.commands == start@.commands + self.tile_commands(picked, picked.len() as int),
                    cursor_valid == (column > 0 && picked[picked.len() - 1]),
                    forall|k: int|
                        0 <= k < picked.len() ==> call_ensures(
                            condition,
                            (self.level[k % 16][2 * (k / 16)], self.level[k % 16][2 * (k / 16) + 1]),
                            #[trigger] picked[k],
                        ),
                    forall|k: int|
                        0 <= k < 32 ==> #[trigger] screen@.cells[k] == if k < picked.len() {
                            if picked[k] {
                                shown(self.level, self.flash(), k % 16, k / 16)
                            } else {
                                start@.cells[k]
                            }
                        } else {
                            start@.cells[k]
                        },
                decreases 16 - column,
            {
                let position = Position::new(column, row);
                proof {
                    assert(column < 16 ==> column & 0x0f == column) by (bit_vector);
                    assert(row < 2 ==> row & 1 == row) by (bit_vector);
                    crate::game::position::lemma_row_bound(1, 0);
                }
                let pair = self.pair_of_tile(position);
                let ghost before = *screen;
                let ghost k = 16 * row + column;
                assert(k % 16 == column && k / 16 == row);
                let pass = condition(pair[0], pair[1]);
                if pass {
                    if !cursor_valid {
                        cursor_valid = true;
                        screen.set_cursor(position);
                    }
                    let ghost middle = *screen;
                    let byte = self.byte_of_pair(pair[0], pair[1]);
                    screen.write(byte);
                    proof {
                        crate::screen::lemma_extends_trans(before, middle, *screen);
                    }
                } else {
                    cursor_valid = false;
                }
                proof {
                    crate::screen::lemma_extends_trans(start, before, *screen);
                    let ghost old_picked = picked;
                    picked = picked.push(pass);
                    assert(k % 16 == column && k / 16 == row);
                    assert(self.tile_commands(picked, k) == self.tile_commands(old_picked, k)) by {
                        self.lemma_tile_commands_prefix(old_picked, picked, k);
                    }
                    assert(screen@.commands =~= start@.commands + self.tile_commands(picked, k + 1));
                    assert forall|j: int| 0 <= j < 32 implies #[trigger] screen@.cells[j] == if j
                        < picked.len() {
                        if picked[j] {
                            shown(self.level, self.flash(), j % 16, j / 16)
                        } else {
                            start@.cells[j]
                        }
                    } else {
                        start@.cells[j]
                    } by {
                        if j < k {
                            assert(picked[j] == picked.drop_last()[j]);
                        }
                    }
                    assert forall|j: int| 0 <= j < picked.len() implies call_ensures(
                        condition,
                        (self.level[j % 16][2 * (j / 16)], self.level[j % 16][2 * (j / 16) + 1]),
                        #[trigger] picked[j],
                    ) by {
                        if j < k {
                            assert(picked[j] == picked.drop_last()[j]);
                        }
                    }
                }
                column = column + 1;
            }
            row = row + 1;
        }
        proof {
            assert(self.picks(condition, picked));
            assert forall|c: int, r: int| 0 <= c < 16 && 0 <= r < 2 implies #[trigger] screen.cell(c, r)
                == if picked[16 * r + c] {
                shown(self.level, self.flash(), c, r)
            } else {
                start.cell(c, r)
            } by {
                let k = r * 16 + c;
                assert(k % 16 == c && k / 16 == r);
                assert(screen@.cells[k] == screen.cell(c, r));
            }
            assert(self.redrawn_where(picked, start, *screen));
        }
    }

    /// Redraws the cells that show a destination (see `update_all_tiles`).
    fn redraw_destinations(&self, screen: &mut Screen)
        requires
            old(screen).wf(),
        ensures
            final(screen).extends(*old(screen)),
            final(screen)@.character_set == old(screen)@.character_set,
            forall|c: int, r: int|
                0 <= c < 16 && 0 <= r < 2 ==> #[trigger] final(screen).cell(c, r) == if shows_destination(
                    self.level[c][2 * r],
                    self.level[c][2 * r + 1],
                ) {
                    shown(self.level, self.flash(), c, r)
                } else {
                    old(screen).cell(c, r)
                },
    {
        let ghost before = *screen;
        let destinations = |top: Tile, bottom: Tile| -> (pass: bool)
            ensures
                pass == shows_destination(top, bottom),
            { top == Tile::Destination || bottom == Tile::Destination };
        self.update_all_tiles(screen, destinations);
        proof {
            let picked = choose|picked: Seq<bool>|
                #[trigger] self.picks(destinations, picked) && self.redrawn_where(picked, before, *screen);
            assert forall|c: int, r: int| 0 <= c < 16 && 0 <= r < 2 implies #[trigger] screen.cell(c, r)
                == if shows_destination(self.level[c][2 * r], self.level[c][2 * r + 1]) {
                shown(self.level, self.flash(), c, r)
            } else {
                before.cell(c, r)
            } by {
                let k = 16 * r + c;
                assert(k % 16 == c && k / 16 == r);
                assert(picked[k] == shows_destination(self.level[c][2 * r], self.level[c][2 * r + 1]));
            }
        }
    }

    /// Loads the level's character set and draws the whole level.
    pub fn draw_full_screen(&self, screen: &mut Screen)
        requires
            old(screen).wf(),
        ensures
            final(screen).extends(*old(screen)),
            final(screen)@.character_set == 1,
            final(screen)@.cells == self.shown_cells(),
            forall|c: int, r: int|
                0 <= c < 16 && 0 <= r < 2 ==> #[trigger] final(screen).cell(c, r) == shown(
                    self.level,
                    self.flash(),
                    c,
                    r,
                ),
    {
        let ghost before = *screen;
        screen.load_character_set(1);
        let ghost middle = *screen;
        let every = |top: Tile, bottom: Tile| -> (pass: bool)
            ensures
                pass,
            { true };
        self.update_all_tiles(screen, every);
        proof {
            crate::screen::lemma_extends_trans(before, middle, *screen);
            let picked = choose|picked: Seq<bool>|
                #[trigger] self.picks(every, picked) && self.redrawn_where(picked, middle, *screen);
            assert forall|c: int, r: int| 0 <= c < 16 && 0 <= r < 2 implies #[trigger] screen.cell(c, r)
                == shown(self.level, self.flash(), c, r) by {
                let k = 16 * r + c;
                assert(k % 16 == c && k / 16 == r);
                assert(picked[k]);
            }
            assert forall|k: int| 0 <= k < 32 implies #[trigger] screen@.cells[k] == self.shown_cells()[k] by {
                assert(k == (k / 16) * 16 + k % 16);
                assert(screen.cell(k % 16, k / 16) == screen@.cells[k]);
            }
            assert(screen@.cells =~= self.shown_cells());
        }
    }

    /// Moves the player by `input[0]` columns, then by `input[1]` rows.
    /// Returns whether the player moved.
    pub fn move_player(&mut self, screen: &mut Screen, input: [i8; 2]) -> (moved: bool)
        requires
            old(self).wf(),
            old(screen).wf(),
        ensures
            final(self).wf(),
            final(screen).extends(*old(screen)),
            final(self).flash_timer == old(self).flash_timer,
            final(self).emergency_exit_timer == old(self).emergency_exit_timer,
            final(screen)@.character_set == old(screen)@.character_set,
            moved == (final(self).player_position != old(self).player_position),
            !moved ==> final(self).level == old(self).level && final(self).num_boxes
                == old(self).num_boxes,
            !moved ==> *final(screen) == *old(screen),
            final(self).moved_by(*old(self), input),
            exists|across: Level, moved_across: bool, moved_down: bool|
                #[trigger] across.stepped_on_axis(*old(self), Axis::Column, input[0], moved_across)
                    && #[trigger] final(self).stepped_on_axis(across, Axis::Row, input[1], moved_down)
                    && across.flash_timer == old(self).flash_timer
                    && final(screen)@.cells == final(self).axis_cells(
                    across,
                    Axis::Row,
                    input[1],
                    moved_down,
                    across.axis_cells(*old(self), Axis::Column, input[0], moved_across, old(screen)@.cells),
                ),
            old(self).boxes_counted() ==> final(self).boxes_counted(),
            old(self).tile(old(self).player_position) == Tile::Player ==> count_tiles(
                final(self).level,
                Tile::Box,
            ) + count_tiles(final(self).level, Tile::BoxOnDestination) == count_tiles(
                old(self).level,
                Tile::Box,
            ) + count_tiles(old(self).level, Tile::BoxOnDestination),
    {
        let ghost s0 = *screen;
        let ghost l0 = *self;
        let across = self.move_player_on_axis(screen, Axis::Column, input[0]);
        let ghost s1 = *screen;
        let ghost l1 = *self;
        proof {
            lemma_row_bound(2, l0.player_position.bits());
            lemma_row_bound(2, l1.player_position.bits());
            if across {
                assert(l1.level[l1.player_position.column_of() as int][l1.player_position.row_of() as int]
                    == Tile::Player);
            }
        }
        let down = self.move_player_on_axis(screen, Axis::Row, input[1]);
        proof {
            l1.lemma_axis_cells(l0, Axis::Column, input[0], across, s0, s1);
            self.lemma_axis_cells(l1, Axis::Row, input[1], down, s1, *screen);
            crate::screen::lemma_extends_trans(s0, s1, *screen);
            lemma_row_bound(2, self.player_position.bits());
            if across {
                assert(l1.player_position.column_of() != l0.player_position.column_of());
            }
            if down {
                assert(self.player_position.row_of() != l1.player_position.row_of());
                assert(self.player_position.column_of() == l1.player_position.column_of());
            }
        }
        across || down
    }

    /// `self` is `before` after a frame of play with `result`: the flash
    /// timer counts down (and restarts), the player moves (see `moved_by`),
    /// the emergency exit timer counts frames of holding down in place, and
    /// the level ends once no box is off a destination (`Some(true)`), or
    /// when the player leaves by the left edge or the emergency exit
    /// (`Some(false)`).
    pub open spec fn played(self, before: Level, raw_input: [i8; 2], soft_input: [i8; 2], result: Option<
        bool,
    >) -> bool {
        let moved = self.player_position != before.player_position;
        &&& self.flash_timer == if before.flash_timer <= 1 {
            FLASH_PERIOD
        } else {
            (before.flash_timer - 1) as u8
        }
        &&& self.moved_by(before, soft_input)
        &&& self.emergency_exit_timer == if moved || raw_input[0] != 0 || raw_input[1] != 1 {
            0
        } else {
            (before.emergency_exit_timer + 1) as u8
        }
        &&& result == if self.num_boxes == 0 || (!moved && soft_input[0] == -1
            && self.player_position.column_of() == 0) || self.emergency_exit_timer
            >= EMERGENCY_EXIT_TIME {
            Some(self.num_boxes == 0)
        } else {
            None::<bool>
        }
    }

    /// The cells of a frame of play: where the flash timer wraps or reaches
    /// `FLASH_LENGTH`, the cells that show a destination are redrawn with the
    /// new flash state; then the player's step across and its step up or
    /// down are drawn as in `move_player`.
    pub open spec fn drawn_frame(self, before: Level, soft_input: [i8; 2], earlier: Seq<u8>, cells: Seq<
        u8,
    >) -> bool {
        let flashed = if flash_redraws(before.flash_timer) {
            destination_cells(before.level, self.flash(), earlier)
        } else {
            earlier
        };
        exists|across: Level, moved_across: bool, moved_down: bool|
            #[trigger] across.stepped_on_axis(before, Axis::Column, soft_input[0], moved_across)
                && #[trigger] self.stepped_on_axis(across, Axis::Row, soft_input[1], moved_down)
                && across.flash_timer == self.flash_timer && cells == self.axis_cells(
                across,
                Axis::Row,
                soft_input[1],
                moved_down,
                across.axis_cells(before, Axis::Column, soft_input[0], moved_across, flashed),
            )
    }

    /// One frame of play: flashes the destinations, moves the player, and
    /// tells when the level ends: `Some(true)` once every box is on a
    /// destination, `Some(false)` when the player leaves (moving left from
    /// column 0, or holding down for `EMERGENCY_EXIT_TIME` frames).
    #[verifier::rlimit(40)]
    #[verifier::spinoff_prover]
    pub fn update(&mut self, screen: &mut Screen, raw_input: [i8; 2], soft_input: [i8; 2]) -> (result:
        Option<bool>)
        requires
            old(self).wf(),
            old(screen).wf(),
        ensures
            final(screen).extends(*old(screen)),
            final(self).played(*old(self), raw_input, soft_input, result),
            result is None ==> final(self).wf(),
            result is Some ==> final(screen)@.character_set == 0,
            result is None ==> final(screen)@.character_set == old(screen)@.character_set,
            final(self).drawn_frame(*old(self), soft_input, old(screen)@.cells, final(screen)@.cells),
            old(self).boxes_counted() ==> final(self).boxes_counted(),
    {
        let ghost s0 = *screen;
        proof {
            crate::screen::lemma_extends_refl(*screen);
        }
        self.flash_timer = self.flash_timer.saturating_sub(1);
        if self.flash_timer == 0 || self.flash_timer == FLASH_LENGTH {
            self.redraw_destinations(screen);
        }
        let ghost s1 = *screen;
        if self.flash_timer == 0 {
            self.flash_timer = FLASH_PERIOD;
            self.redraw_destinations(screen);
        }
        let ghost s2 = *screen;
        proof {
            crate::screen::lemma_extends_trans(s0, s1, s2);
        }
        let ghost before_move = *self;
        proof {
            let flashed = if flash_redraws(old(self).flash_timer) {
                destination_cells(old(self).level, self.flash(), s0@.cells)
            } else {
                s0@.cells
            };
            assert forall|k: int| 0 <= k < 32 implies #[trigger] s2@.cells[k] == flashed[k] by {
                assert(k == (k / 16) * 16 + k % 16);
                assert(s2.cell(k % 16, k / 16) == s2@.cells[k]);
                assert(s1.cell(k % 16, k / 16) == s1@.cells[k]);
                assert(s0.cell(k % 16, k / 16) == s0@.cells[k]);
            }
            assert(s2@.cells =~= flashed);
        }
        let moved = self.move_player(screen, soft_input);
        let ghost after_move = *self;
        let ghost s3 = *screen;
        let ghost (across, ma, md) = choose|across: Level, moved_across: bool, moved_down: bool|
                #[trigger] across.stepped_on_axis(before_move, Axis::Column, soft_input[0], moved_across)
                    && #[trigger] after_move.stepped_on_axis(across, Axis::Row, soft_input[1], moved_down)
                    && across.flash_timer == before_move.flash_timer
                    && screen@.cells == after_move.axis_cells(
                    across,
                    Axis::Row,
                    soft_input[1],
                    moved_down,
                    across.axis_cells(before_move, Axis::Column, soft_input[0], moved_across, s2@.cells),
                );
        proof {
            crate::screen::lemma_extends_trans(s0, s2, *screen);
            assert(across.stepped_on_axis(*old(self), Axis::Column, soft_input[0], ma));
            assert(across.axis_cells(before_move, Axis::Column, soft_input[0], ma, s2@.cells)
                == across.axis_cells(*old(self), Axis::Column, soft_input[0], ma, s2@.cells));
        }
        if moved || raw_input[0] != 0 || raw_input[1] != 1 {
            self.emergency_exit_timer = 0;
        } else {
            self.emergency_exit_timer = self.emergency_exit_timer + 1;
        }
        proof {
            after_move.lemma_moved_by_fields(*self, before_move, *old(self), soft_input);
            assert(self.stepped_on_axis(across, Axis::Row, soft_input[1], md));
            assert(self.axis_cells(across, Axis::Row, soft_input[1], md, across.axis_cells(*old(self),
                Axis::Column, soft_input[0], ma, s2@.cells)) == s3@.cells);
            assert(self.drawn_frame(*old(self), soft_input, s0@.cells, s3@.cells));
        }
        if self.num_boxes == 0 || !moved && soft_input[0] == -1 && self.player_position.column() == 0
            || self.emergency_exit_timer >= EMERGENCY_EXIT_TIME {
            let ghost s3 = *screen;
            screen.load_character_set(0);
            proof {
                crate::screen::lemma_extends_trans(s0, s3, *screen);
            }
            Some(self.num_boxes == 0)
        } else {
            None
        }
    }

}

/// Redrawing the destinations in a new flash state turns the cells that
/// show a grid in the old state into those that show it in the new one;
/// without a redraw, the state stays.
proof fn lemma_flash_redraw(before: Level, flash: bool)
    requires
        flash_redraws(before.flash_timer) || flash == before.flash(),
    ensures
        (if flash_redraws(before.flash_timer) {
            destination_cells(before.level, flash, before.shown_cells())
        } else {
            before.shown_cells()
        }) == grid_cells(before.level, flash),
{
    if flash_redraws(before.flash_timer) {
        let redrawn = destination_cells(before.level, flash, before.shown_cells());
        assert forall|k: int| 0 <= k < 32 implies #[trigger] redrawn[k] == grid_cells(
            before.level,
            flash,
        )[k] by {
            let top = before.level[k % 16][2 * (k / 16)];
            let bottom = before.level[k % 16][2 * (k / 16) + 1];
            if !shows_destination(top, bottom) {
                assert(top.display_of(flash) == top.display_of(before.flash()));
                assert(bottom.display_of(flash) == bottom.display_of(before.flash()));
            }
        }
        assert(redrawn =~= grid_cells(before.level, flash));
    }
}

/// A step along an axis, drawn over the cells that show the grid before
/// it, leaves the cells that show the grid after it.
proof fn lemma_step_keeps_shown(after: Level, before: Level, axis: Axis, input: i8, moved: bool)
    requires
        before.player_position.column_of() < 16,
        after.stepped_on_axis(before, axis, input, moved),
    ensures
        after.axis_cells(before, axis, input, moved, grid_cells(before.level, after.flash()))
            == grid_cells(after.level, after.flash()),
{
    lemma_row_bound(2, before.player_position.bits());
    let flash = after.flash();
    let drawn = after.axis_cells(before, axis, input, moved, grid_cells(before.level, flash));
    let start = before.player_position;
    let pc = start.column_of() as int;
    let pr = start.row_of() as int;
    let (nc, nr, nb) = nudged(start, axis, input as int);
    let (lc, lr, lb) = nudged(start, axis, 2 * input);
    let pushes = before.level[nc][nr] == Tile::Box;
    if moved {
        assert forall|k: int| 0 <= k < 32 implies #[trigger] drawn[k] == grid_cells(after.level, flash)[k] by {
            let c = k % 16;
            let r = k / 16;
            if !((c == nc && r == nr / 2) || (c == pc && r == pr / 2) || (pushes && c == lc && r
                == lr / 2)) {
                assert(after.level[c][2 * r] == before.level[c][2 * r]);
                assert(after.level[c][2 * r + 1] == before.level[c][2 * r + 1]);
            }
        }
        assert(drawn =~= grid_cells(after.level, flash));
    }
}

/// Whether cell `k` (column-major) of `grid` holds `t`, as a number.
spec fn holds(grid: [[Tile; 4]; 16], k: int, t: Tile) -> int {
    if grid_cell(grid, k) == t {
        1
    } else {
        0
    }
}

/// Grids that differ at most in cells `a`, `b` and `d` differ in their
/// count of `t` by what those cells hold.
proof fn lemma_count_three(g1: [[Tile; 4]; 16], g2: [[Tile; 4]; 16], t: Tile, n: int, a: int, b: int, d: int)
    requires
        0 <= n <= 64,
        0 <= a && 0 <= b && 0 <= d,
        a != b && a != d && b != d,
        forall|j: int| 0 <= j < 64 && j != a && j != b && j != d ==> grid_cell(g1, j) == grid_cell(g2, j),
    ensures
        count_in(g2, t, n) as int == count_in(g1, t, n) as int + (if a < n {
            holds(g2, a, t) - holds(g1, a, t)
        } else {
            0
        }) + (if b < n {
            holds(g2, b, t) - holds(g1, b, t)
        } else {
            0
        }) + (if d < n {
            holds(g2, d, t) - holds(g1, d, t)
        } else {
            0
        }),
    decreases n,
{
    if n > 0 {
        lemma_count_three(g1, g2, t, n - 1, a, b, d);
        let k = n - 1;
        let da = holds(g2, a, t) - holds(g1, a, t);
        let db = holds(g2, b, t) - holds(g1, b, t);
        let dd = holds(g2, d, t) - holds(g1, d, t);
        assert(count_in(g1, t, n) as int == count_in(g1, t, k) as int + holds(g1, k, t));
        assert(count_in(g2, t, n) as int == count_in(g2, t, k) as int + holds(g2, k, t));
        if k == a {
            assert(holds(g2, k, t) - holds(g1, k, t) == da);
        } else if k == b {
            assert(holds(g2, k, t) - holds(g1, k, t) == db);
        } else if k == d {
            assert(holds(g2, k, t) - holds(g1, k, t) == dd);
        } else {
            assert(grid_cell(g1, k) == grid_cell(g2, k));
        }
    }
}

/// A step keeps the board: the player stays on its tile and is the only
/// one, every wall stays where it is, and neither the destinations (with
/// or without a box) nor the boxes (on a destination or not) change in
/// number.
pub proof fn law_step_keeps_board(before: Level, after: Level, axis: Axis, input: i8, moved: bool)
    requires
        before.wf(),
        before.tile(before.player_position) == Tile::Player,
        after.stepped_on_axis(before, axis, input, moved),
    ensures
        after.tile(after.player_position) == Tile::Player,
        count_tiles(after.level, Tile::Player) == count_tiles(before.level, Tile::Player),
        count_tiles(after.level, Tile::Destination) + count_tiles(after.level, Tile::BoxOnDestination)
            == count_tiles(before.level, Tile::Destination) + count_tiles(
            before.level,
            Tile::BoxOnDestination,
        ),
        count_tiles(after.level, Tile::Box) + count_tiles(after.level, Tile::BoxOnDestination)
            == count_tiles(before.level, Tile::Box) + count_tiles(before.level, Tile::BoxOnDestination),
        forall|c: int, r: int|
            0 <= c < 16 && 0 <= r < 4 ==> (#[trigger] after.level[c][r] == Tile::Wall) == (
            before.level[c][r] == Tile::Wall),
{
    lemma_row_bound(2, before.player_position.bits());
    if moved {
        let start = before.player_position;
        let pc = start.column_of() as int;
        let pr = start.row_of() as int;
        let (nc, nr, nb) = nudged(start, axis, input as int);
        let (lc, lr, lb) = nudged(start, axis, 2 * input);
        let pushes = before.level[nc][nr] == Tile::Box;
        let a = nc * 4 + nr;
        let b = pc * 4 + pr;
        let d = if pushes {
            lc * 4 + lr
        } else if a != 0 && b != 0 {
            0
        } else if a != 1 && b != 1 {
            1
        } else {
            2
        };
        assert(a / 4 == nc && a % 4 == nr);
        assert(b / 4 == pc && b % 4 == pr);
        assert(0 <= d < 64);
        if pushes {
            assert(d / 4 == lc && d % 4 == lr);
        }
        assert(a != b && a != d && b != d);
        assert forall|j: int| 0 <= j < 64 && j != a && j != b && j != d implies grid_cell(
            before.level,
            j,
        ) == grid_cell(after.level, j) by {
            assert(0 <= j / 4 < 16 && 0 <= j % 4 < 4);
        }
        assert(grid_cell(after.level, d) == grid_cell(before.level, d) || pushes);
        lemma_count_three(before.level, after.level, Tile::Player, 64, a, b, d);
        lemma_count_three(before.level, after.level, Tile::Destination, 64, a, b, d);
        lemma_count_three(before.level, after.level, Tile::BoxOnDestination, 64, a, b, d);
        lemma_count_three(before.level, after.level, Tile::Box, 64, a, b, d);
        lemma_row_bound(2, after.player_position.bits());
    }
}

/// While a level is played, the screen shows it as it stands: a frame that
/// starts with the cells showing the level ends with them showing the level
/// after the frame.
pub proof fn law_level_stays_shown(
    before: Level,
    after: Level,
    raw_input: [i8; 2],
    soft_input: [i8; 2],
    result: Option<bool>,
    earlier: Seq<u8>,
    later: Seq<u8>,
)
    requires
        before.wf(),
        after.played(before, raw_input, soft_input, result),
        after.drawn_frame(before, soft_input, earlier, later),
        earlier == before.shown_cells(),
    ensures
        later == after.shown_cells(),
{
    let flash = after.flash();
    lemma_flash_redraw(before, flash);
    let flashed = if flash_redraws(before.flash_timer) {
        destination_cells(before.level, flash, earlier)
    } else {
        earlier
    };
    let (across, moved_across, moved_down) = choose|across: Level, moved_across: bool, moved_down: bool|
        #[trigger] across.stepped_on_axis(before, Axis::Column, soft_input[0], moved_across)
            && #[trigger] after.stepped_on_axis(across, Axis::Row, soft_input[1], moved_down)
            && across.flash_timer == after.flash_timer && later == after.axis_cells(
            across,
            Axis::Row,
            soft_input[1],
            moved_down,
            across.axis_cells(before, Axis::Column, soft_input[0], moved_across, flashed),
        );
    lemma_step_keeps_shown(across, before, Axis::Column, soft_input[0], moved_across);
    lemma_row_bound(2, before.player_position.bits());
    assert(across.player_position.column_of() < 16);
    lemma_step_keeps_shown(after, across, Axis::Row, soft_input[1], moved_down);
}

// ---------------------------------------------------------------------------
// Choosing a level.
// ---------------------------------------------------------------------------

pub const PLAYER_CHARACTER: u8 = 0;

pub const SELECTION_COOLDOWN: u8 = 180;

/// The bottom line of the level select screen: "  level select  ".
pub fn background() -> (line: [u8; 16])
    ensures
        line@ == background_line(),
{
    let line = [32u8, 32, 108, 101, 118, 101, 108, 32, 115, 101, 108, 101, 99, 116, 32, 32];
    assert(line@ =~= background_line());
    line
}

pub open spec fn background_line() -> Seq<u8> {
    seq![32u8, 32, 108, 101, 118, 101, 108, 32, 115, 101, 108, 101, 99, 116, 32, 32]
}

/// The top line of the level select screen: an exit arrow, then one letter
/// per level, "A" to "O".
pub open spec fn level_letters() -> Seq<u8> {
    seq![127u8, 65, 66, 67, 68, 69, 70, 71, 72, 73, 74, 75, 76, 77, 78, 79]
}

/// "Level complete!"
pub open spec fn victory_line() -> Seq<u8> {
    seq![76u8, 101, 118, 101, 108, 32, 99, 111, 109, 112, 108, 101, 116, 101, 33]
}

pub struct LevelSelect {
    pub player_position: Position,
    pub selection_cooldown: u8,
}

#[derive(Copy, Clone, PartialEq, Eq, Debug, Structural)]
pub enum LevelSelection {
    Exit,
    PlayLevel(u8),
}

impl LevelSelect {
    pub open spec fn wf(self) -> bool {
        &&& self.player_position.column_of() < 16
        &&& self.player_position.row_of() == 1
    }

    pub fn default() -> (select: Self)
        ensures
            select.wf(),
            select.player_position.column_of() == 0,
            select.selection_cooldown == 0,
    {
        proof {
            crate::game::position::lemma_row_bound(1, 0);
        }
        let player_position = Position::new(0, 1);
        proof {
            assert(pack(1, 0, 1) == 1) by (bit_vector);
            assert(1u8 >> 1u8 == 0 && 1u8 & 1u8 == 1) by (bit_vector);
            crate::game::position::lemma_row_bound(1, 1);
        }
        LevelSelect { player_position, selection_cooldown: 0 }
    }

    /// Draws the letters of the levels, the background and the player.
    pub fn draw_full_screen(&self, screen: &mut Screen)
        requires
            old(screen).wf(),
            self.wf(),
        ensures
            final(screen).extends(*old(screen)),
            final(screen)@.character_set == old(screen)@.character_set,
            self.shown_on(*final(screen)),
    {
        let ghost s0 = *screen;
        screen.clear();
        let ghost a = *screen;
        screen.set_cursor(Position::new(0, 0));
        let letters = [127u8, 65, 66, 67, 68, 69, 70, 71, 72, 73, 74, 75, 76, 77, 78, 79];
        proof {
            assert(letters@ =~= level_letters());
            crate::game::position::lemma_row_bound(1, 0);
            assert(pack(1, 0, 0) == 0) by (bit_vector);
            assert(pack(1, 0, 1) == 1) by (bit_vector);
            assert((0u8 >> 1u8) == 0 && (1u8 >> 1u8) == 0 && (0u8 & 1u8) == 0 && (1u8 & 1u8) == 1) by (bit_vector);
        }
        let ghost s1 = *screen;
        screen.print_bytes(&letters);
        let ghost s2 = *screen;
        screen.set_cursor(Position::new(0, 1));
        let ghost b = *screen;
        let line = background();
        screen.print_bytes(&line);
        let ghost s3 = *screen;
        screen.set_cursor(self.player_position);
        let ghost c = *screen;
        screen.write(PLAYER_CHARACTER);
        proof {
            crate::screen::lemma_extends_trans(s0, a, s1);
            crate::screen::lemma_extends_trans(s2, b, s3);
            crate::screen::lemma_extends_trans(s3, c, *screen);
            crate::screen::lemma_extends_trans(s0, s1, s2);
            crate::screen::lemma_extends_trans(s0, s2, s3);
            crate::screen::lemma_extends_trans(s0, s3, *screen);
            assert forall|c: int| 0 <= c < 16 implies #[trigger] screen.cell(c, 0) == level_letters()[c] by {
                assert(s2@.cells[c] == level_letters()[c]);
            }
            assert forall|c: int| 0 <= c < 16 && c != self.player_position.column_of() implies #[trigger] screen.cell(c, 1)
                == background_line()[c] by {
                assert(s3@.cells[16 + c] == background_line()[c]);
            }
        }
    }

    /// Shows "Level complete!" and starts the cooldown before the level
    /// select comes back.
    pub fn draw_victory(&mut self, screen: &mut Screen)
        requires
            old(screen).wf(),
        ensures
            final(screen).extends(*old(screen)),
            final(screen)@.character_set == old(screen)@.character_set,
            final(screen)@.cells == crate::screen::written(
                Seq::new(32, |k: int| 32u8),
                0,
                0,
                victory_line(),
            ),
            final(self).selection_cooldown == SELECTION_COOLDOWN,
            final(self).player_position == old(self).player_position,
    {
        let ghost s0 = *screen;
        screen.clear();
        let ghost a = *screen;
        proof {
            crate::game::position::lemma_row_bound(1, 0);
            assert(pack(1, 0, 0) == 0) by (bit_vector);
            assert((0u8 >> 1u8) == 0 && (0u8 & 1u8) == 0) by (bit_vector);
        }
        screen.set_cursor(Position::new(0, 0));
        let text = [76u8, 101, 118, 101, 108, 32, 99, 111, 109, 112, 108, 101, 116, 101, 33];
        assert(text@ =~= victory_line());
        let ghost s1 = *screen;
        screen.print_bytes(&text);
        proof {
            crate::screen::lemma_extends_trans(s0, a, s1);
            crate::screen::lemma_extends_trans(s0, s1, *screen);
        }
        self.selection_cooldown = SELECTION_COOLDOWN;
    }

    /// `self` is `before` after a frame of the level select with
    /// `selection`: the cooldown counts down; after it, the player moves
    /// along the letters, left past the arrow exits, and down picks the
    /// level under the player (the arrow exits).
    pub open spec fn chose(self, before: LevelSelect, soft_input: [i8; 2], selection: Option<
        LevelSelection,
    >) -> bool {
        &&& before.selection_cooldown > 0 ==> selection is None && self.selection_cooldown
            == before.selection_cooldown - 1 && self.player_position
            == before.player_position
        &&& before.selection_cooldown == 0 ==> self.selection_cooldown == 0 && ({
            let column = before.player_position.column_of() as int;
            let input = soft_input[0] as int;
            let moves = (input == 1 || input == -1) && 0 <= column + input <= 15;
            let new_column = if moves {
                column + input
            } else {
                column
            };
            &&& self.player_position.column_of() == new_column
            &&& selection == if input == -1 && column == 0 {
                Some(LevelSelection::Exit)
            } else if soft_input[1] == -1 {
                Some(
                    if new_column > 0 {
                        LevelSelection::PlayLevel((new_column - 1) as u8)
                    } else {
                        LevelSelection::Exit
                    },
                )
            } else {
                None::<LevelSelection>
            }
        })
    }

    /// The whole level select is on `screen`: the letters on top, the
    /// background below, and the player at its column.
    pub open spec fn shown_on(self, screen: Screen) -> bool {
        let column = self.player_position.column_of() as int;
        &&& forall|c: int| 0 <= c < 16 ==> #[trigger] screen.cell(c, 0) == level_letters()[c]
        &&& forall|c: int|
            0 <= c < 16 && c != column ==> #[trigger] screen.cell(c, 1) == background_line()[c]
        &&& screen.cell(column, 1) == PLAYER_CHARACTER
    }

    /// What a frame of the level select that starts from `self` draws,
    /// from `earlier` to `later`: a step of the player redraws the cell it
    /// leaves (and the one behind it) with the background, blanks the cell
    /// two ahead, and draws the player; the end of the cooldown draws the
    /// whole level select; any other frame draws nothing.
    pub open spec fn redrawn(self, soft_input: [i8; 2], earlier: Screen, later: Screen) -> bool {
        let column = self.player_position.column_of() as int;
        let input = soft_input[0] as int;
        &&& self.selection_cooldown == 0 && (input == 1 || input == -1) && 0 <= column + input
            <= 15 ==> later@.cells == earlier@.cells.update(
            16 + clamp_column(column, -input),
            background_line()[clamp_column(column, -input) as int],
        ).update(16 + column, 32u8).update(16 + clamp_column(column, 2 * input), 32u8).update(
            16 + column + input,
            PLAYER_CHARACTER,
        )
        &&& self.selection_cooldown == 1 ==> self.shown_on(later)
        &&& self.selection_cooldown > 1 || (self.selection_cooldown == 0 && !((input == 1 || input
            == -1) && 0 <= column + input <= 15)) ==> later@.cells == earlier@.cells
    }

    /// One frame of the level select: waits out the cooldown, moves the
    /// player along the letters, and picks a level (down on a letter) or
    /// the exit (down on the arrow, or left past it).
    pub fn update(&mut self, screen: &mut Screen, raw_input: [i8; 2], soft_input: [i8; 2]) -> (selection:
        Option<LevelSelection>)
        requires
            old(screen).wf(),
            old(self).wf(),
        ensures
            final(self).wf(),
            final(screen).extends(*old(screen)),
            final(screen)@.character_set == old(screen)@.character_set,
            final(self).chose(*old(self), soft_input, selection),
            old(self).redrawn(soft_input, *old(screen), *final(screen)),
    {
        let ghost s0 = *screen;
        proof {
            crate::screen::lemma_extends_refl(*screen);
            crate::game::position::lemma_row_bound(1, self.player_position.bits());
        }
        if self.selection_cooldown > 0 {
            self.selection_cooldown = self.selection_cooldown - 1;
            if self.selection_cooldown == 0 {
                self.draw_full_screen(screen);
            }
            return None;
        }
        let input = soft_input[0];
        if input == 1 || input == -1 {
            let (new_position, blocked) = self.player_position.nudge_column_overflowing(input);
            if blocked {
                if input == -1 {
                    return Some(LevelSelection::Exit);
                }
            } else {
                let replacement_position = self.player_position.nudge_column_saturating(input * -1);
                proof {
                    crate::game::position::lemma_row_bound(1, replacement_position.bits());
                }
                let ghost s1 = *screen;
                screen.set_cursor(replacement_position);
                let ghost x1 = *screen;
                let line = background();
                let column = replacement_position.column();
                let ghost c1 = screen@.cells;
                screen.write(line[column as usize]);
                let ghost x2 = *screen;
                proof {
                    crate::screen::lemma_written_one(c1, column as int, 1, line@[column as int]);
                }
                screen.set_cursor(self.player_position);
                let ghost x3 = *screen;
                let ghost c2 = screen@.cells;
                screen.write(32u8);
                let ghost x4 = *screen;
                proof {
                    crate::screen::lemma_written_one(
                        c2,
                        self.player_position.column_of() as int,
                        1,
                        32u8,
                    );
                }
                let ghost s2 = *screen;
                let far = self.player_position.nudge_column_saturating(input * 2);
                proof {
                    crate::game::position::lemma_row_bound(1, far.bits());
                }
                screen.set_cursor(far);
                let ghost x5 = *screen;
                let ghost c3 = screen@.cells;
                screen.write(32u8);
                let ghost x6 = *screen;
                proof {
                    crate::screen::lemma_written_one(c3, far.column_of() as int, 1, 32u8);
                    crate::game::position::lemma_row_bound(1, new_position.bits());
                }
                screen.set_cursor(new_position);
                let ghost x7 = *screen;
                let ghost c4 = screen@.cells;
                screen.write(PLAYER_CHARACTER);
                let ghost x8 = *screen;
                proof {
                    crate::screen::lemma_written_one(
                        c4,
                        new_position.column_of() as int,
                        1,
                        PLAYER_CHARACTER,
                    );
                }
                self.player_position = new_position;
                proof {
                    crate::screen::lemma_extends_trans(s1, x1, x2);
                    crate::screen::lemma_extends_trans(s1, x2, x3);
                    crate::screen::lemma_extends_trans(s1, x3, x4);
                    crate::screen::lemma_extends_trans(s1, x4, x5);
                    crate::screen::lemma_extends_trans(s1, x5, x6);
                    crate::screen::lemma_extends_trans(s1, x6, x7);
                    crate::screen::lemma_extends_trans(s1, x7, x8);
                    crate::screen::lemma_extends_trans(s0, s1, *screen);
                }
            }
        }
        if self.selection_cooldown == 0 && soft_input[1] == -1 {
            let column = self.player_position.column();
            return Some(
                if column > 0 {
                    LevelSelection::PlayLevel(column - 1)
                } else {
                    LevelSelection::Exit
                },
            );
        }
        None
    }
}

// ---------------------------------------------------------------------------
// The sokoban game: the level select, and the level being played.
// ---------------------------------------------------------------------------

pub struct Sokoban {
    pub level_select: LevelSelect,
    pub level: Option<Level>,
}

/// Every parsed level starts on one of the 16 columns.
pub open spec fn levels_ok(levels: Seq<LevelData>) -> bool {
    forall|k: int| 0 <= k < levels.len() ==> (#[trigger] levels[k]).0.column_of() < 16
}

impl Sokoban {
    pub open spec fn wf(self) -> bool {
        &&& self.level_select.wf()
        &&& self.level matches Some(level) ==> level.wf()
    }

    /// Sokoban as it starts: the level select, the player on the exit
    /// arrow, no cooldown.
    pub open spec fn initial(self) -> bool {
        &&& self.wf()
        &&& self.level is None
        &&& self.level_select.player_position.column_of() == 0
        &&& self.level_select.selection_cooldown == 0
    }

    pub fn default() -> (sokoban: Self)
        ensures
            sokoban.initial(),
    {
        Sokoban { level_select: LevelSelect::default(), level: None }
    }

    /// The whole of `self` is on `later`, drawn over `earlier`: the level in
    /// its own characters, or the level select in the characters it had.
    pub open spec fn shown_on(self, earlier: Screen, later: Screen) -> bool {
        match self.level {
            Some(level) => later@.character_set == 1 && forall|c: int, r: int|
                0 <= c < 16 && 0 <= r < 2 ==> #[trigger] later.cell(c, r) == shown(
                    level.level,
                    level.flash(),
                    c,
                    r,
                ),
            None => later@.character_set == earlier@.character_set && self.level_select.shown_on(later),
        }
    }

    /// Draws the level being played, or the level select.
    pub fn draw_full_screen(&self, screen: &mut Screen)
        requires
            old(screen).wf(),
            self.wf(),
        ensures
            final(screen).extends(*old(screen)),
            self.shown_on(*old(screen), *final(screen)),
    {
        match &self.level {
            Some(level) => level.draw_full_screen(screen),
            None => self.level_select.draw_full_screen(screen),
        }
    }

    /// `self` is `before` after a frame of sokoban with the levels `levels`,
    /// the pad's axes `raw_input` and the soft input `soft_input`, `mode`
    /// returned: the level in play plays its frame (see `Level::played`)
    /// and, once it ends, the level select comes back (after the victory
    /// message when it was solved); without a level, the level select plays
    /// its frame (see `LevelSelect::chose`) and loads the level it picks, or
    /// leaves for the overworld.
    pub open spec fn played(
        self,
        before: Sokoban,
        levels: Seq<LevelData>,
        raw_input: [i8; 2],
        soft_input: [i8; 2],
        mode: Option<GameMode>,
    ) -> bool {
        &&& mode is Some ==> mode == Some(GameMode::Overworld)
        &&& mode is Some ==> before.level is None && self.level is None
        &&& before.level is Some ==> mode is None
        &&& match before.level {
            Some(level) => match self.level {
                Some(after) => after.played(level, raw_input, soft_input, None)
                    && self.level_select == before.level_select,
                None => exists|after: Level, won: bool|
                    #[trigger] after.played(level, raw_input, soft_input, Some(won)) && (if won {
                        self.level_select.selection_cooldown == SELECTION_COOLDOWN
                            && self.level_select.player_position
                            == before.level_select.player_position
                    } else {
                        self.level_select == before.level_select
                    }),
            },
            None => exists|selection: Option<LevelSelection>|
                #[trigger] self.level_select.chose(
                    before.level_select,
                    soft_input,
                    selection,
                ) && match selection {
                    Some(LevelSelection::Exit) => mode == Some(GameMode::Overworld)
                        && self.level is None,
                    Some(LevelSelection::PlayLevel(index)) => {
                        &&& mode is None
                        &&& self.level matches Some(level)
                        &&& level.loaded(levels, index as int)
                    },
                    None => mode is None && self.level is None,
                },
        }
    }

    /// What a frame of sokoban that takes `before` to `self` draws, from
    /// `earlier` to `later`: a frame of the level while it goes on; when it
    /// ends, the victory message or the level select, in the level select's
    /// characters; a frame of the level select, and the whole new level in
    /// its own characters when one is picked.
    pub open spec fn frame_drawn(
        self,
        before: Sokoban,
        raw_input: [i8; 2],
        soft_input: [i8; 2],
        earlier: Screen,
        later: Screen,
    ) -> bool {
        match before.level {
            Some(level) => match self.level {
                Some(after) => after.drawn_frame(level, soft_input, earlier@.cells, later@.cells)
                    && later@.character_set == earlier@.character_set,
                None => later@.character_set == 0 && exists|after: Level, won: bool|
                    #[trigger] after.played(level, raw_input, soft_input, Some(won)) && if won {
                        later@.cells == crate::screen::written(
                            Seq::new(32, |k: int| 32u8),
                            0,
                            0,
                            victory_line(),
                        )
                    } else {
                        self.level_select.shown_on(later)
                    },
            },
            None => match self.level {
                Some(level) => later@.character_set == 1 && forall|c: int, r: int|
                    0 <= c < 16 && 0 <= r < 2 ==> #[trigger] later.cell(c, r) == shown(
                        level.level,
                        level.flash(),
                        c,
                        r,
                    ),
                None => before.level_select.redrawn(soft_input, earlier, later)
                    && later@.character_set == earlier@.character_set,
            },
        }
    }

    /// One frame of sokoban: plays the level, or runs the level select and
    /// loads the level it picks from `levels`. Returns the overworld when
    /// the player exits.
    #[verifier::rlimit(30)]
    #[verifier::spinoff_prover]
    pub fn update(
        &mut self,
        screen: &mut Screen,
        levels: &[LevelData],
        raw_input: [i8; 2],
        soft_input: [i8; 2],
    ) -> (mode: Option<GameMode>)
        requires
            old(screen).wf(),
            old(self).wf(),
            levels_ok(levels@),
        ensures
            final(self).wf(),
            final(screen).extends(*old(screen)),
            final(self).played(*old(self), levels@, raw_input, soft_input, mode),
            final(self).frame_drawn(*old(self), raw_input, soft_input, *old(screen), *final(screen)),
    {
        let ghost s0 = *screen;
        match self.level.take() {
            Some(mut level) => {
                match level.update(screen, raw_input, soft_input) {
                    Some(was_success) => {
                        self.level = None;
                        let ghost s1 = *screen;
                        if was_success {
                            self.level_select.draw_victory(screen);
                        } else {
                            self.level_select.draw_full_screen(screen);
                        }
                        proof {
                            crate::screen::lemma_extends_trans(s0, s1, *screen);
                        }
                    },
                    None => {
                        self.level = Some(level);
                    },
                }
                None
            },
            None => {
                match self.level_select.update(screen, raw_input, soft_input) {
                    Some(LevelSelection::Exit) => Some(GameMode::Overworld),
                    Some(LevelSelection::PlayLevel(index)) => {
                        let level = Level::load(levels, index);
                        let ghost s1 = *screen;
                        level.draw_full_screen(screen);
                        proof {
                            crate::screen::lemma_extends_trans(s0, s1, *screen);
                        }
                        self.level = Some(level);
                        None
                    },
                    None => None,
                }
            },
        }
    }
}

/// The tile that a byte of a level file stands for.
pub open spec fn tile_of_byte(b: u8) -> Tile {
    if b == 35 {
        Tile::Wall
    } else if b == 120 {
        Tile::Box
    } else if b == 122 {
        Tile::Destination
    } else {
        Tile::Empty
    }
}

proof fn lemma_shift_in_keeps(w: u32, c: u32, j: u32)
    by (bit_vector)
    requires
        w < 0x40000000,
        c < 4,
        j < 15,
    ensures
        (((w << 2u32) | c) >> ((2 * j + 2) as u32)) & 3u32 == (w >> ((2 * j) as u32)) & 3u32,
        (((w << 2u32) | c) >> 0u32) & 3u32 == c,
{
}

proof fn lemma_row_value_digits(s: Seq<u8>)
    requires
        s.len() <= 16,
    ensures
        0 <= row_value(s) < pow4(s.len()),
        forall|k: int|
            0 <= k < s.len() ==> ((row_value(s) as u32) >> ((2 * (s.len() - 1 - k)) as u32)) & 3u32
                == tile_code(#[trigger] s[k]),
    decreases s.len(),
{
    lemma_row_value_bound(s);
    if s.len() > 0 {
        let t = s.drop_last();
        lemma_row_value_digits(t);
        lemma_row_value_bound(t);
        lemma_pow4_15();
        lemma_pow4_mono(t.len(), 15);
        let w = row_value(t) as u32;
        let c = tile_code(s.last()) as u32;
        lemma_shift_in(w, c);
        assert(row_value(s) == row_value(t) * 4 + tile_code(s.last()));
        assert((row_value(s) as u32) == ((w << 2u32) | c));
        assert forall|k: int| 0 <= k < s.len() implies ((row_value(s) as u32) >> ((2 * (s.len() - 1
            - k)) as u32)) & 3u32 == tile_code(#[trigger] s[k]) by {
            if k == s.len() - 1 {
                lemma_shift_in_keeps(w, c, 0);
            } else {
                let j = (t.len() - 1 - k) as u32;
                lemma_shift_in_keeps(w, c, j);
                assert(t[k] == s[k]);
                assert((2 * (s.len() - 1 - k)) as u32 == (2 * j + 2) as u32);
                assert((2 * (t.len() - 1 - k)) as u32 == (2 * j) as u32);
            }
        }
    }
}

/// A level row that the file spells out decodes to the tiles that its
/// bytes stand for: decoding what `parse_levels` read gives back the file.
pub proof fn law_row_decodes_to_file(file: Seq<u8>, i: int, c: int)
    requires
        row_ok(file, i),
        0 <= c < 16,
    ensures
        decoded(row_value(row_content(file, i)) as u32, c) == tile_of_byte(file[i + 1 + c]),
{
    let s = row_content(file, i);
    lemma_row_value_digits(s);
    assert(s[c] == file[i + 1 + c]);
    assert(((row_value(s) as u32) >> ((2 * (16 - 1 - c)) as u32)) & 3u32 == tile_code(s[c]));
    assert((2 * (15 - c)) as u32 == (2 * (16 - 1 - c)) as u32);
}

/// The tile that a byte of a level row stands for, the player included.
pub open spec fn file_tile(b: u8) -> Tile {
    if b == 112 {
        Tile::Player
    } else {
        tile_of_byte(b)
    }
}

/// How many bytes of `s` from `j` on are `b`.
pub open spec fn bytes_from(s: Seq<u8>, b: u8, j: int) -> nat
    decreases s.len() - j,
{
    if j < 0 || j >= s.len() {
        0
    } else {
        (if s[j] == b {
            1nat
        } else {
            0nat
        }) + bytes_from(s, b, j + 1)
    }
}

/// How many boxes (`x`) the four rows of the level at `start` hold.
pub open spec fn level_boxes(file: Seq<u8>, start: int) -> nat {
    bytes_from(row_content(file, row_start(file, start, 0)), 120, 0) + bytes_from(
        row_content(file, row_start(file, start, 1)),
        120,
        0,
    ) + bytes_from(row_content(file, row_start(file, start, 2)), 120, 0) + bytes_from(
        row_content(file, row_start(file, start, 3)),
        120,
        0,
    )
}

/// Every level that `level_starts` finds is well formed.
proof fn lemma_starts_ok(file: Seq<u8>, i: int)
    requires
        level_starts(file, i) is Some,
    ensures
        forall|j: int|
            0 <= j < level_starts(file, i).unwrap().len() ==> level_ok(
                file,
                #[trigger] level_starts(file, i).unwrap()[j],
            ),
    decreases file.len() - i,
{
    if i < file.len() && level_next(file, i) < file.len() {
        lemma_starts_ok(file, level_next(file, i));
        let rest = level_starts(file, level_next(file, i)).unwrap();
        assert forall|j: int| 0 <= j < level_starts(file, i).unwrap().len() implies level_ok(
            file,
            #[trigger] level_starts(file, i).unwrap()[j],
        ) by {
            if j > 0 {
                assert(level_starts(file, i).unwrap()[j] == rest[j - 1]);
            }
        }
    }
}

/// A `p` at `x` of `s` counts.
proof fn lemma_count_p_at(s: Seq<u8>, x: int)
    requires
        0 <= x < s.len(),
        s[x] == 112,
    ensures
        count_p(s) >= 1,
    decreases s.len(),
{
    if x < s.len() - 1 {
        lemma_count_p_at(s.drop_last(), x);
    }
}

/// Two `p`s at `x` and `y` of `s` count twice.
proof fn lemma_count_p_two(s: Seq<u8>, x: int, y: int)
    requires
        0 <= x < y < s.len(),
        s[x] == 112,
        s[y] == 112,
    ensures
        count_p(s) >= 2,
    decreases s.len(),
{
    if y < s.len() - 1 {
        lemma_count_p_two(s.drop_last(), x, y);
    } else {
        lemma_count_p_at(s.drop_last(), x);
    }
}

/// The rows counted so far hold at least the `p`s of any two of them.
proof fn lemma_seen_p(file: Seq<u8>, i: int, n: int, r1: int, r2: int)
    requires
        0 <= r1 < n,
        0 <= r2 < n,
    ensures
        seen_p(file, i, n) >= count_p(row_content(file, row_start(file, i, r1))) + (if r2 != r1 {
            count_p(row_content(file, row_start(file, i, r2)))
        } else {
            0
        }),
    decreases n,
{
    if n - 1 != r1 && n - 1 != r2 {
        lemma_seen_p(file, i, n - 1, r1, r2);
    } else if n - 1 == r1 && r2 != r1 {
        lemma_seen_p(file, i, n - 1, r2, r2);
    } else if n - 1 == r2 && r2 != r1 {
        lemma_seen_p(file, i, n - 1, r1, r1);
    }
}

/// Counting the boxes of a row word from column `16 - n` on counts the
/// `x` bytes there.
proof fn lemma_row_boxes(file: Seq<u8>, i: int, n: int)
    requires
        row_ok(file, i),
        0 <= n <= 16,
    ensures
        count_row_tail(row_value(row_content(file, i)) as u32, Tile::Box, n) == bytes_from(
            row_content(file, i),
            120,
            16 - n,
        ),
    decreases n,
{
    if n > 0 {
        lemma_row_boxes(file, i, n - 1);
        law_row_decodes_to_file(file, i, 16 - n);
        assert(row_content(file, i)[16 - n] == file[i + 1 + 16 - n]);
    }
}

/// Decoding a level that `parse_levels` read from a file gives back the
/// file: every cell holds the tile of its byte (`p` the player, space
/// empty, `#` wall, `x` box, `z` destination), and the box count is the
/// number of `x` bytes.
pub proof fn law_level_decodes_to_file(
    file: Seq<u8>,
    k: int,
    data: LevelData,
    decoded_level: (LevelPosition, [[Tile; 4]; 16], u8),
)
    requires
        levels_file_ok(file),
        0 <= k < all_starts(file).len(),
        parsed_level(file, all_starts(file)[k], data),
        decoded_from(data, decoded_level),
    ensures
        forall|c: int, r: int|
            0 <= c < 16 && 0 <= r < 4 ==> #[trigger] decoded_level.1[c][r] == file_tile(
                file[row_start(file, all_starts(file)[k], r) + 1 + c],
            ),
        decoded_level.2 == level_boxes(file, all_starts(file)[k]),
{
    let start = all_starts(file)[k];
    lemma_starts_ok(file, 0);
    assert(level_ok(file, start));
    let c0 = data.0.column_of() as int;
    let r0 = data.0.row_of() as int;
    assert forall|c: int, r: int| 0 <= c < 16 && 0 <= r < 4 implies #[trigger] decoded_level.1[c][r]
        == file_tile(file[row_start(file, start, r) + 1 + c]) by {
        let i = row_start(file, start, r);
        assert(row_ok(file, i));
        if c != c0 || r != r0 {
            law_row_decodes_to_file(file, i, c);
            let b = file[i + 1 + c];
            if b == 112 {
                let i0 = row_start(file, start, r0);
                assert(row_content(file, i0)[c0] == 112);
                assert(row_content(file, i)[c] == 112);
                if r == r0 {
                    if c < c0 {
                        lemma_count_p_two(row_content(file, i), c, c0);
                    } else {
                        lemma_count_p_two(row_content(file, i), c0, c);
                    }
                } else {
                    lemma_count_p_at(row_content(file, i), c);
                    lemma_count_p_at(row_content(file, i0), c0);
                }
                lemma_seen_p(file, start, 4, r, r0);
                assert(false);
            }
        }
    }
    let rows = data.1@;
    assert forall|r: int| 0 <= r < 4 implies count_row_tail(#[trigger] rows[r], Tile::Box, 16)
        == bytes_from(row_content(file, row_start(file, start, r)), 120, 0) by {
        lemma_row_boxes(file, row_start(file, start, r), 16);
    }
    lemma_count_decoded_row(rows, 0);
    lemma_count_decoded_row(rows, 1);
    lemma_count_decoded_row(rows, 2);
    lemma_count_decoded_row(rows, 3);
}

/// What a line end becomes in a file with `\r\n` line ends: the byte, or
/// `\r\n` for a `\n`.
pub open spec fn crlf_piece(b: u8) -> Seq<u8> {
    if b == 10 {
        seq![13u8, 10u8]
    } else {
        seq![b]
    }
}

/// `s` with every `\n` written `\r\n`.
pub open spec fn crlf(s: Seq<u8>) -> Seq<u8>
    decreases s.len(),
{
    if s.len() == 0 {
        Seq::empty()
    } else {
        crlf(s.drop_last()) + crlf_piece(s.last())
    }
}

/// Where byte `j` of `s` lands in `crlf(s)`; past the end, as far past.
pub open spec fn crlf_index(s: Seq<u8>, j: int) -> int {
    if j <= s.len() {
        crlf(s.take(j)).len() as int
    } else {
        crlf(s).len() + (j - s.len())
    }
}

proof fn lemma_crlf_split(s: Seq<u8>, j: int)
    requires
        0 <= j <= s.len(),
    ensures
        crlf(s) == crlf(s.take(j)) + crlf(s.skip(j)),
    decreases s.len(),
{
    if j == s.len() {
        assert(s.take(j) =~= s);
        assert(s.skip(j) =~= Seq::<u8>::empty());
        assert(crlf(s) + Seq::<u8>::empty() =~= crlf(s));
    } else {
        let t = s.drop_last();
        lemma_crlf_split(t, j);
        assert(t.take(j) =~= s.take(j));
        assert(s.skip(j).drop_last() =~= t.skip(j));
        assert(s.skip(j).last() == s.last());
        assert(crlf(s.skip(j)) == crlf(t.skip(j)) + crlf_piece(s.last()));
        assert(crlf(s) =~= crlf(s.take(j)) + crlf(s.skip(j)));
    }
}

proof fn lemma_crlf_step(s: Seq<u8>, j: int)
    requires
        0 <= j < s.len(),
    ensures
        crlf(s.take(j + 1)) == crlf(s.take(j)) + crlf_piece(s[j]),
        crlf_index(s, j + 1) == crlf_index(s, j) + crlf_piece(s[j]).len(),
        forall|t: int|
            0 <= t < crlf_piece(s[j]).len() ==> crlf(s)[crlf_index(s, j) + t] == #[trigger] crlf_piece(
                s[j],
            )[t],
{
    assert(s.take(j + 1).drop_last() =~= s.take(j));
    lemma_crlf_split(s, j + 1);
    assert forall|t: int| 0 <= t < crlf_piece(s[j]).len() implies crlf(s)[crlf_index(s, j) + t]
        == #[trigger] crlf_piece(s[j])[t] by {
        assert(crlf(s)[crlf_index(s, j) + t] == crlf(s.take(j + 1))[crlf_index(s, j) + t]);
    }
}

proof fn lemma_crlf_len(s: Seq<u8>)
    ensures
        crlf_index(s, s.len() as int) == crlf(s).len(),
{
    assert(s.take(s.len() as int) =~= s);
}

/// Byte `j` lands at least as far as `i` plus the distance between them.
proof fn lemma_crlf_grows(s: Seq<u8>, i: int, j: int)
    requires
        0 <= i <= j,
    ensures
        crlf_index(s, j) - crlf_index(s, i) >= j - i,
    decreases j - i,
{
    if i < j {
        lemma_crlf_grows(s, i, j - 1);
        if j - 1 < s.len() {
            lemma_crlf_step(s, j - 1);
        } else if j - 1 == s.len() {
            lemma_crlf_len(s);
        }
    }
}

/// A stretch of `n` bytes from `i` without `\n` lands unchanged.
proof fn lemma_crlf_span(s: Seq<u8>, i: int, n: int)
    requires
        0 <= i,
        0 <= n,
        i + n <= s.len(),
        forall|k: int| i <= k < i + n ==> s[k] != 10,
    ensures
        crlf_index(s, i + n) == crlf_index(s, i) + n,
        forall|t: int| 0 <= t < n ==> crlf(s)[crlf_index(s, i) + t] == #[trigger] s[i + t],
    decreases n,
{
    if n > 0 {
        lemma_crlf_span(s, i, n - 1);
        lemma_crlf_step(s, i + n - 1);
        assert(crlf_piece(s[i + n - 1])[0] == s[i + n - 1]);
        assert forall|t: int| 0 <= t < n implies crlf(s)[crlf_index(s, i) + t] == #[trigger] s[i + t] by {
            if t == n - 1 {
                assert(crlf(s)[crlf_index(s, i + n - 1) + 0] == crlf_piece(s[i + n - 1])[0]);
            }
        }
    }
}

/// The first `\n` from `x` on is at `y` when none comes before it.
proof fn lemma_first_newline_at(g: Seq<u8>, x: int, y: int)
    requires
        0 <= x <= y <= g.len(),
        y < g.len() ==> g[y] == 10,
        forall|k: int| x <= k < y ==> g[k] != 10,
    ensures
        first_newline(g, x) == y,
    decreases y - x,
{
    if x < y {
        lemma_first_newline_at(g, x + 1, y);
    }
}

/// A file whose lines end in `\n` alone: every `\r` in it is followed by
/// a byte other than `\n`.
pub open spec fn lf_line_ends(file: Seq<u8>) -> bool {
    forall|k: int| 0 <= k < file.len() && #[trigger] file[k] == 13 ==> k + 1 < file.len() && file[k + 1] != 10
}

proof fn lemma_crlf_label(f: Seq<u8>, i: int)
    requires
        lf_line_ends(f),
        label_ok(f, i),
    ensures
        label_ok(crlf(f), crlf_index(f, i)),
        first_newline(crlf(f), crlf_index(f, i)) + 1 == crlf_index(f, first_newline(f, i) + 1),
{
    let g = crlf(f);
    let j = first_newline(f, i);
    lemma_first_newline(f, i);
    lemma_crlf_span(f, i, j - i);
    lemma_crlf_step(f, j);
    assert(crlf_piece(f[j])[0] == 13 && crlf_piece(f[j])[1] == 10);
    lemma_crlf_grows(f, j + 1, f.len() as int);
    lemma_crlf_len(f);
    let x = crlf_index(f, i);
    let y = crlf_index(f, j) + 1;
    assert forall|k: int| x <= k < y implies g[k] != 10 by {
        if k < crlf_index(f, j) {
            assert(g[x + (k - x)] == f[i + (k - x)]);
        } else {
            assert(g[crlf_index(f, j) + 0] == 13);
        }
    }
    assert(g[crlf_index(f, j) + 1] == 10);
    lemma_first_newline_at(g, x, y);
    lemma_crlf_step(f, j - 1);
    assert(f[j - 1] == 58);
    assert(crlf_piece(f[j - 1])[0] == 58);
    assert(g[crlf_index(f, j - 1) + 0] == 58);
    lemma_crlf_grows(f, 0, j - 1);
}

proof fn lemma_crlf_row(f: Seq<u8>, p: int)
    requires
        lf_line_ends(f),
        row_ok(f, p),
    ensures
        row_ok(crlf(f), crlf_index(f, p)),
        row_content(crlf(f), crlf_index(f, p)) == row_content(f, p),
        row_next(crlf(f), crlf_index(f, p)) == crlf_index(f, row_next(f, p)),
        forall|c: int| 0 <= c < 16 ==> crlf(f)[crlf_index(f, p) + 1 + c] == #[trigger] f[p + 1 + c],
{
    let g = crlf(f);
    let x = crlf_index(f, p);
    assert forall|k: int| p <= k < p + 18 implies f[k] != 10 by {
        if p + 1 <= k <= p + 16 {
            assert(is_tile_byte(f[k]));
        }
    }
    lemma_crlf_span(f, p, 18);
    lemma_crlf_grows(f, p + 18, f.len() as int);
    lemma_crlf_len(f);
    assert forall|c: int| 0 <= c < 16 implies g[x + 1 + c] == #[trigger] f[p + 1 + c] by {
        assert(g[x + (1 + c)] == f[p + (1 + c)]);
    }
    assert(g[x + 0] == f[p + 0]);
    assert(g[x + 17] == f[p + 17]);
    assert forall|k: int| x + 1 <= k <= x + 16 implies is_tile_byte(#[trigger] g[k]) by {
        assert(g[x + (k - x)] == f[p + (k - x)]);
        assert(is_tile_byte(f[p + (k - x)]));
    }
    assert(row_content(g, x) =~= row_content(f, p)) by {
        assert forall|t: int| 0 <= t < 16 implies row_content(g, x)[t] == row_content(f, p)[t] by {
            assert(g[x + 1 + t] == f[p + 1 + t]);
        }
    }
    if p + 18 < f.len() {
        assert(f[p + 18] == 10);
        lemma_crlf_step(f, p + 18);
        assert(crlf_piece(f[p + 18])[0] == 13 && crlf_piece(f[p + 18])[1] == 10);
        assert(g[crlf_index(f, p + 18) + 0] == 13);
        assert(g[crlf_index(f, p + 18) + 1] == 10);
        lemma_crlf_grows(f, p + 19, f.len() as int);
    }
}

/// The rows that a level holds read the same after `crlf`.
proof fn lemma_crlf_rows(f: Seq<u8>, i: int, r: int)
    requires
        lf_line_ends(f),
        level_ok(f, i),
        0 <= r < 4,
    ensures
        row_start(crlf(f), crlf_index(f, i), r) == crlf_index(f, row_start(f, i, r)),
    decreases r,
{
    if r == 0 {
        lemma_crlf_label(f, i);
    } else {
        lemma_crlf_rows(f, i, r - 1);
        lemma_crlf_row(f, row_start(f, i, r - 1));
    }
}

proof fn lemma_crlf_seen_p(f: Seq<u8>, i: int, n: int)
    requires
        lf_line_ends(f),
        level_ok(f, i),
        0 <= n <= 4,
    ensures
        seen_p(crlf(f), crlf_index(f, i), n) == seen_p(f, i, n),
    decreases n,
{
    if n > 0 {
        lemma_crlf_seen_p(f, i, n - 1);
        lemma_crlf_rows(f, i, n - 1);
        lemma_crlf_row(f, row_start(f, i, n - 1));
    }
}

proof fn lemma_crlf_level(f: Seq<u8>, i: int)
    requires
        lf_line_ends(f),
        level_ok(f, i),
    ensures
        level_ok(crlf(f), crlf_index(f, i)),
        level_next(crlf(f), crlf_index(f, i)) == crlf_index(f, level_next(f, i)),
        forall|r: int|
            0 <= r < 4 ==> row_start(crlf(f), crlf_index(f, i), r) == crlf_index(
                f,
                #[trigger] row_start(f, i, r),
            ),
{
    lemma_crlf_label(f, i);
    assert forall|r: int| 0 <= r < 4 implies row_start(crlf(f), crlf_index(f, i), r) == crlf_index(
        f,
        #[trigger] row_start(f, i, r),
    ) by {
        lemma_crlf_rows(f, i, r);
    }
    assert forall|r: int| 0 <= r < 4 implies row_ok(crlf(f), #[trigger] row_start(crlf(f), crlf_index(f, i), r)) by {
        lemma_crlf_rows(f, i, r);
        lemma_crlf_row(f, row_start(f, i, r));
    }
    lemma_crlf_seen_p(f, i, 4);
    lemma_crlf_rows(f, i, 3);
    lemma_crlf_row(f, row_start(f, i, 3));
}

proof fn lemma_crlf_starts(f: Seq<u8>, i: int)
    requires
        lf_line_ends(f),
        0 <= i,
        level_starts(f, i) is Some,
    ensures
        level_starts(crlf(f), crlf_index(f, i)) == Some(
            level_starts(f, i).unwrap().map_values(|x: int| crlf_index(f, x)),
        ),
    decreases f.len() - i,
{
    let g = crlf(f);
    lemma_crlf_len(f);
    if i >= f.len() {
        lemma_crlf_grows(f, f.len() as int, i);
        assert(level_starts(f, i).unwrap().map_values(|x: int| crlf_index(f, x)) =~= Seq::<int>::empty());
    } else {
        let next = level_next(f, i);
        lemma_crlf_level(f, i);
        lemma_crlf_grows(f, i, next);
        lemma_crlf_grows(f, i, f.len() as int);
        if next >= f.len() {
            lemma_crlf_grows(f, f.len() as int, next);
            assert(level_starts(f, i).unwrap().map_values(|x: int| crlf_index(f, x)) =~= seq![
                crlf_index(f, i),
            ]);
        } else {
            lemma_crlf_starts(f, next);
            lemma_crlf_grows(f, next, f.len() as int);
            let rest = level_starts(f, next).unwrap();
            assert(level_starts(f, i).unwrap() == seq![i].add(rest));
            assert(level_starts(f, i).unwrap().map_values(|x: int| crlf_index(f, x)) =~= seq![
                crlf_index(f, i),
            ].add(rest.map_values(|x: int| crlf_index(f, x))));
        }
    }
}

/// A level file with `\n` line ends and its twin with `\r\n` line ends
/// parse alike: the twin is well formed too, holds as many levels, and
/// each level reads the same (see `parsed_level`).
pub proof fn law_crlf_file_parses_alike(file: Seq<u8>)
    requires
        levels_file_ok(file),
        lf_line_ends(file),
    ensures
        levels_file_ok(crlf(file)),
        all_starts(crlf(file)).len() == all_starts(file).len(),
        forall|k: int, data: LevelData|
            0 <= k < all_starts(file).len() ==> parsed_level(crlf(file), all_starts(crlf(file))[k], data)
                == #[trigger] parsed_level(file, all_starts(file)[k], data),
{
    let g = crlf(file);
    assert(file.take(0) =~= Seq::<u8>::empty());
    assert(crlf_index(file, 0) == 0);
    lemma_crlf_starts(file, 0);
    lemma_starts_ok(file, 0);
    assert forall|k: int, data: LevelData| 0 <= k < all_starts(file).len() implies parsed_level(
        g,
        all_starts(g)[k],
        data,
    ) == #[trigger] parsed_level(file, all_starts(file)[k], data) by {
        let start = all_starts(file)[k];
        assert(level_ok(file, start));
        assert(all_starts(g)[k] == crlf_index(file, start));
        lemma_crlf_level(file, start);
        assert forall|r: int| 0 <= r < 4 implies row_content(g, #[trigger] row_start(g, crlf_index(file, start), r))
            == row_content(file, row_start(file, start, r)) by {
            lemma_crlf_row(file, row_start(file, start, r));
        }
        if data.0.row_of() < 4 && data.0.column_of() < 16 {
            let r = data.0.row_of() as int;
            let c = data.0.column_of() as int;
            lemma_crlf_row(file, row_start(file, start, r));
            assert(g[row_start(g, crlf_index(file, start), r) + 1 + c] == file[row_start(file, start, r) + 1 + c]);
        }
    }
}

/// A well-formed level reads one way only: its player is its one `p`.
pub proof fn law_parsed_level_unique(file: Seq<u8>, start: int, first: LevelData, second: LevelData)
    requires
        level_ok(file, start),
        parsed_level(file, start, first),
        parsed_level(file, start, second),
    ensures
        first == second,
{
    broadcast use vstd::array::group_array_axioms;

    let c1 = first.0.column_of() as int;
    let r1 = first.0.row_of() as int;
    let c2 = second.0.column_of() as int;
    let r2 = second.0.row_of() as int;
    if c1 != c2 || r1 != r2 {
        let i1 = row_start(file, start, r1);
        let i2 = row_start(file, start, r2);
        assert(row_content(file, i1)[c1] == 112);
        assert(row_content(file, i2)[c2] == 112);
        if r1 == r2 {
            if c1 < c2 {
                lemma_count_p_two(row_content(file, i1), c1, c2);
            } else {
                lemma_count_p_two(row_content(file, i1), c2, c1);
            }
        } else {
            lemma_count_p_at(row_content(file, i1), c1);
            lemma_count_p_at(row_content(file, i2), c2);
        }
        lemma_seen_p(file, start, 4, r1, r2);
        assert(false);
    }
    crate::game::position::law_position_round_trip(2, first.0.bits());
    crate::game::position::law_position_round_trip(2, second.0.bits());
    first.0.lemma_bits(second.0);
    assert(first.1@ =~= second.1@) by {
        assert forall|r: int| 0 <= r < 4 implies first.1@[r] == second.1@[r] by {
            assert(first.1[r] == row_value(row_content(file, row_start(file, start, r))));
            assert(second.1[r] == row_value(row_content(file, row_start(file, start, r))));
        }
    }
    assert(first.1 == second.1);
}

/// Parsing a level file with `\n` line ends and parsing its twin with
/// `\r\n` line ends give the same levels.
pub proof fn law_crlf_parses_to_same_levels(file: Seq<u8>, levels: Seq<LevelData>, twin_levels: Seq<
    LevelData,
>)
    requires
        levels_file_ok(file),
        lf_line_ends(file),
        parsed_file(file, levels),
        parsed_file(crlf(file), twin_levels),
    ensures
        twin_levels == levels,
{
    law_crlf_file_parses_alike(file);
    lemma_starts_ok(file, 0);
    assert forall|k: int| 0 <= k < levels.len() implies twin_levels[k] == levels[k] by {
        assert(parsed_level(crlf(file), all_starts(crlf(file))[k], twin_levels[k]));
        assert(parsed_level(file, all_starts(file)[k], twin_levels[k]));
        assert(parsed_level(file, all_starts(file)[k], levels[k]));
        law_parsed_level_unique(file, all_starts(file)[k], twin_levels[k], levels[k]);
    }
    assert(twin_levels =~= levels);
}

/// A box on its destination looks solid, like a wall, and so never like
/// a box still off its destination, whatever shares its cell and whether
/// the destinations are lit.
pub proof fn law_placed_box_looks_placed(other: Tile, flash: bool)
    ensures
        Tile::pair_byte(Tile::BoxOnDestination, other, flash) == Tile::pair_byte(Tile::Wall, other, flash),
        Tile::pair_byte(other, Tile::BoxOnDestination, flash) == Tile::pair_byte(other, Tile::Wall, flash),
        Tile::pair_byte(Tile::BoxOnDestination, other, flash) != Tile::pair_byte(Tile::Box, other, flash),
        Tile::pair_byte(other, Tile::BoxOnDestination, flash) != Tile::pair_byte(other, Tile::Box, flash),
{
}

} // verus!
