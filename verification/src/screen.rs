use vstd::prelude::*;
use crate::game::position::{Position, low_mask};
use crate::lcd::format::{decimal_bytes, decimal_digits};

verus! {

/// One command sent to the LCD, in the order the games issue them.
#[derive(Copy, Clone, PartialEq, Eq, Debug, Structural)]
pub enum LcdCommand {
    Clear,
    SetCursor(u8, u8),
    Write(u8),
    LoadCharacterSet(u8),
}

/// What the games have shown on the 16x2 LCD: the visible cells, the
/// cursor, the loaded character set, and every command issued so far, for
/// the device driver to replay.
pub struct Screen {
    /// 32 cells, row 0 then row 1, 16 columns each.
    cells: Vec<u8>,
    cursor_column: u8,
    cursor_row: u8,
    character_set: u8,
    commands: Vec<LcdCommand>,
}

/// A screen as a mathematical value.
pub struct ScreenView {
    pub cells: Seq<u8>,
    pub cursor_column: u8,
    pub cursor_row: u8,
    pub character_set: u8,
    pub commands: Seq<LcdCommand>,
}

impl View for Screen {
    type V = ScreenView;

    closed spec fn view(&self) -> ScreenView {
        ScreenView {
            cells: self.cells@,
            cursor_column: self.cursor_column,
            cursor_row: self.cursor_row,
            character_set: self.character_set,
            commands: self.commands@,
        }
    }
}

/// Index of a visible cell.
pub open spec fn cell_index(column: int, row: int) -> int {
    row * 16 + column
}

/// The cells after writing `bytes` from column `column` of row `row`: the
/// bytes that land on a visible column replace what was there.
pub open spec fn written(cells: Seq<u8>, column: int, row: int, bytes: Seq<u8>) -> Seq<u8> {
    Seq::new(
        cells.len(),
        |k: int|
            if row * 16 + column <= k < row * 16 + 16 && k < row * 16 + column + bytes.len() {
                bytes[k - row * 16 - column]
            } else {
                cells[k]
            },
    )
}

/// The column after writing `n` bytes from column `column`.
pub open spec fn advanced(column: int, n: int) -> u8 {
    if column + n > 255 {
        255
    } else {
        (column + n) as u8
    }
}

pub open spec fn writes(bytes: Seq<u8>) -> Seq<LcdCommand> {
    bytes.map_values(|b: u8| LcdCommand::Write(b))
}

/// What the LCD holds after `command`: `Clear` blanks every cell and homes
/// the cursor; `SetCursor` moves the cursor; `Write` shows its byte under the
/// cursor, if the cursor is on a visible column, and advances the cursor;
/// `LoadCharacterSet` switches the character set.
pub open spec fn step(shown: (Seq<u8>, u8, u8, u8), command: LcdCommand) -> (Seq<u8>, u8, u8, u8) {
    let (cells, column, row, set) = shown;
    match command {
        LcdCommand::Clear => (Seq::new(32, |k: int| 32u8), 0, 0, set),
        LcdCommand::SetCursor(c, r) => (cells, c, r, set),
        LcdCommand::Write(b) => (
            written(cells, column as int, row as int, seq![b]),
            advanced(column as int, 1),
            row,
            set,
        ),
        LcdCommand::LoadCharacterSet(s) => (cells, column, row, s),
    }
}

/// What the LCD holds after `commands`, one after the other.
pub open spec fn replay(shown: (Seq<u8>, u8, u8, u8), commands: Seq<LcdCommand>) -> (
    Seq<u8>,
    u8,
    u8,
    u8,
)
    decreases commands.len(),
{
    if commands.len() == 0 {
        shown
    } else {
        step(replay(shown, commands.drop_last()), commands.last())
    }
}

impl Screen {
    /// Every screen has its 32 cells and its cursor on one of the two rows.
    #[verifier::type_invariant]
    closed spec fn cells_fit(self) -> bool {
        &&& self.cells@.len() == 32
        &&& self.cursor_row < 2
    }

    /// The type invariant, over the view: 32 cells, the cursor on row 0 or 1.
    pub open spec fn wf(&self) -> bool {
        &&& self@.cells.len() == 32
        &&& self@.cursor_row < 2
    }

    /// Adds `command` to the list of commands issued.
    fn record(&mut self, command: LcdCommand)
        ensures
            final(self)@ == (ScreenView { commands: old(self)@.commands.push(command), ..old(self)@ }),
    {
        proof {
            use_type_invariant(&*self);
        }
        let mut commands = Vec::new();
        std::mem::swap(&mut commands, &mut self.commands);
        commands.push(command);
        std::mem::swap(&mut commands, &mut self.commands);
    }

    /// The visible cells, row 0 then row 1.
    pub fn cells(&self) -> (cells: &[u8])
        ensures
            cells@ == self@.cells,
    {
        self.cells.as_slice()
    }

    pub fn cursor_column(&self) -> (column: u8)
        ensures
            column == self@.cursor_column,
    {
        self.cursor_column
    }

    pub fn cursor_row(&self) -> (row: u8)
        ensures
            row == self@.cursor_row,
    {
        self.cursor_row
    }

    pub fn character_set(&self) -> (set: u8)
        ensures
            set == self@.character_set,
    {
        self.character_set
    }

    /// The commands issued so far, oldest first.
    pub fn commands(&self) -> (commands: &[LcdCommand])
        ensures
            commands@ == self@.commands,
    {
        self.commands.as_slice()
    }

    /// Hands out the commands issued so far, for the device to carry out,
    /// and starts a new list; what the screen shows stays.
    pub fn take_commands(&mut self) -> (commands: Vec<LcdCommand>)
        ensures
            commands@ == old(self)@.commands,
            final(self).shown() == old(self).shown(),
            final(self)@.commands.len() == 0,
    {
        proof {
            use_type_invariant(&*self);
        }
        let mut commands = Vec::new();
        std::mem::swap(&mut commands, &mut self.commands);
        commands
    }

    /// The byte shown at `column`, `row`.
    pub open spec fn cell(&self, column: int, row: int) -> u8 {
        self@.cells[cell_index(column, row)]
    }

    /// What the LCD holds: the cells, the cursor's column and row, and the
    /// character set.
    pub open spec fn shown(&self) -> (Seq<u8>, u8, u8, u8) {
        (self@.cells, self@.cursor_column, self@.cursor_row, self@.character_set)
    }

    /// The commands issued since `earlier`.
    pub open spec fn commands_since(&self, earlier: Screen) -> Seq<LcdCommand> {
        self@.commands.skip(earlier@.commands.len() as int)
    }

    /// What `self` shows is what the commands issued since `earlier` make of
    /// what `earlier` showed.
    #[verifier::opaque]
    pub open spec fn replays(&self, earlier: Screen) -> bool {
        self.shown() == replay(earlier.shown(), self.commands_since(earlier))
    }

    /// `self` is what drawing on `earlier` can give: still well formed, with
    /// the commands of `earlier` kept and new ones after them, and what it
    /// shows is what those new commands make of what `earlier` showed.
    pub open spec fn extends(&self, earlier: Screen) -> bool {
        &&& self.wf()
        &&& earlier@.commands.is_prefix_of(self@.commands)
        &&& self.replays(earlier)
    }

    /// A blank screen, cursor home, character set 0, no commands yet.
    pub fn new() -> (screen: Self)
        ensures
            screen.wf(),
            screen@.cells == Seq::new(32, |k: int| 32u8),
            screen@.cursor_column == 0,
            screen@.cursor_row == 0,
            screen@.character_set == 0,
            screen@.commands.len() == 0,
    {
        let screen = Screen {
            cells: vec![32u8; 32],
            cursor_column: 0,
            cursor_row: 0,
            character_set: 0,
            commands: Vec::new(),
        };
        assert(screen@.cells =~= Seq::new(32, |k: int| 32u8));
        screen
    }

    /// Blanks every cell and homes the cursor.
    pub fn clear(&mut self)
        ensures
            final(self).extends(*old(self)),
            final(self).wf(),
            final(self)@.cells == Seq::new(32, |k: int| 32u8),
            final(self)@.cursor_column == 0,
            final(self)@.cursor_row == 0,
            final(self)@.character_set == old(self)@.character_set,
            final(self)@.commands == old(self)@.commands.push(LcdCommand::Clear),
    {
        proof {
            use_type_invariant(&*self);
        }
        self.cells = vec![32u8; 32];
        self.cursor_column = 0;
        self.cursor_row = 0;
        self.record(LcdCommand::Clear);
        assert(self@.cells =~= Seq::new(32, |k: int| 32u8));
        proof {
            lemma_extends_one(*old(self), *self, LcdCommand::Clear);
        }
    }

    /// Moves the cursor to `position`.
    pub fn set_cursor(&mut self, position: Position)
        ensures
            final(self).extends(*old(self)),
            final(self).wf(),
            final(self)@.cells == old(self)@.cells,
            final(self)@.cursor_column == position.column_of(),
            final(self)@.cursor_row == position.row_of(),
            final(self)@.character_set == old(self)@.character_set,
            final(self)@.commands == old(self)@.commands.push(
                LcdCommand::SetCursor(position.column_of(), position.row_of()),
            ),
    {
        proof {
            use_type_invariant(&*self);
        }
        let column = position.column();
        let row = position.row();
        let ghost bits = position.bits();
        assert(low_mask(1) == 1) by (bit_vector);
        assert(bits & 1 < 2) by (bit_vector);
        self.cursor_column = column;
        self.cursor_row = row;
        self.record(LcdCommand::SetCursor(column, row));
        proof {
            lemma_extends_one(*old(self), *self, LcdCommand::SetCursor(column, row));
        }
    }

    /// Shows `byte` at the cursor, if the cursor is on a visible column,
    /// and advances the cursor.
    pub fn write(&mut self, byte: u8)
        ensures
            final(self).extends(*old(self)),
            final(self).wf(),
            final(self)@.cells == written(
                old(self)@.cells,
                old(self)@.cursor_column as int,
                old(self)@.cursor_row as int,
                seq![byte],
            ),
            final(self)@.cursor_column == advanced(old(self)@.cursor_column as int, 1),
            final(self)@.cursor_row == old(self)@.cursor_row,
            final(self)@.character_set == old(self)@.character_set,
            final(self)@.commands == old(self)@.commands.push(LcdCommand::Write(byte)),
    {
        proof {
            use_type_invariant(&*self);
        }
        let ghost before = self@.cells;
        if self.cursor_column < 16 {
            let index = self.cursor_row as usize * 16 + self.cursor_column as usize;
            self.cells[index] = byte;
        }
        self.cursor_column = self.cursor_column.saturating_add(1);
        self.record(LcdCommand::Write(byte));
        assert(self@.cells =~= written(
            before,
            old(self)@.cursor_column as int,
            old(self)@.cursor_row as int,
            seq![byte],
        ));
        proof {
            lemma_extends_one(*old(self), *self, LcdCommand::Write(byte));
        }
    }

    /// Writes every byte of `bytes`.
    pub fn print_bytes(&mut self, bytes: &[u8])
        ensures
            final(self).extends(*old(self)),
            final(self).wf(),
            final(self)@.cells == written(
                old(self)@.cells,
                old(self)@.cursor_column as int,
                old(self)@.cursor_row as int,
                bytes@,
            ),
            final(self)@.cursor_column == advanced(old(self)@.cursor_column as int, bytes@.len() as int),
            final(self)@.cursor_row == old(self)@.cursor_row,
            final(self)@.character_set == old(self)@.character_set,
            final(self)@.commands == old(self)@.commands + writes(bytes@),
    {
        proof {
            use_type_invariant(&*self);
        }
        let ghost start = *self;
        proof {
            lemma_extends_refl(start);
        }
        let mut i: usize = 0;
        while i < bytes.len()
            invariant
                0 <= i <= bytes@.len(),
                self.wf(),
                self@.cells == written(
                    start@.cells,
                    start@.cursor_column as int,
                    start@.cursor_row as int,
                    bytes@.take(i as int),
                ),
                self@.cursor_column == advanced(start@.cursor_column as int, i as int),
                self@.cursor_row == start@.cursor_row,
                self@.character_set == start@.character_set,
                self@.commands == start@.commands + writes(bytes@.take(i as int)),
                self.extends(start),
                start.wf(),
            decreases bytes@.len() - i,
        {
            let ghost before = *self;
            self.write(bytes[i]);
            proof {
                let c = start@.cursor_column as int;
                let r = start@.cursor_row as int;
                assert(bytes@.take(i + 1) =~= bytes@.take(i as int).push(bytes@[i as int]));
                assert(writes(bytes@.take(i + 1)) =~= writes(bytes@.take(i as int)).push(
                    LcdCommand::Write(bytes@[i as int]),
                ));
                assert(self@.cells =~= written(start@.cells, c, r, bytes@.take(i + 1)));
                lemma_extends_trans(start, before, *self);
            }
            i = i + 1;
        }
        assert(bytes@.take(bytes@.len() as int) =~= bytes@);
    }

    /// Writes the decimal digits of `value`.
    pub fn print(&mut self, value: u32)
        ensures
            final(self).extends(*old(self)),
            final(self).wf(),
            final(self)@.cells == written(
                old(self)@.cells,
                old(self)@.cursor_column as int,
                old(self)@.cursor_row as int,
                decimal_digits(value as nat),
            ),
            final(self)@.cursor_column == advanced(
                old(self)@.cursor_column as int,
                decimal_digits(value as nat).len() as int,
            ),
            final(self)@.cursor_row == old(self)@.cursor_row,
            final(self)@.character_set == old(self)@.character_set,
            final(self)@.commands == old(self)@.commands + writes(decimal_digits(value as nat)),
    {
        proof {
            use_type_invariant(&*self);
        }
        let digits = decimal_bytes(value);
        self.print_bytes(digits.as_slice());
    }

    /// Switches the LCD to custom character set `set`.
    pub fn load_character_set(&mut self, set: u8)
        ensures
            final(self).extends(*old(self)),
            final(self).wf(),
            final(self)@.cells == old(self)@.cells,
            final(self)@.cursor_column == old(self)@.cursor_column,
            final(self)@.cursor_row == old(self)@.cursor_row,
            final(self)@.character_set == set,
            final(self)@.commands == old(self)@.commands.push(LcdCommand::LoadCharacterSet(set)),
    {
        proof {
            use_type_invariant(&*self);
        }
        self.character_set = set;
        self.record(LcdCommand::LoadCharacterSet(set));
        proof {
            lemma_extends_one(*old(self), *self, LcdCommand::LoadCharacterSet(set));
        }
    }

    /// Writes `text` from `position`, starting a new row at the same column
    /// (its low four bits) after each newline (see `multiline`).
    pub fn print_multiline(&mut self, position: Position, text: &[u8])
        ensures
            final(self).extends(*old(self)),
            final(self).wf(),
            final(self)@.character_set == old(self)@.character_set,
            ({
                let (cells, column, line) = multiline(
                    old(self)@.cells,
                    position.column_of(),
                    position.column_of() & 0x0f,
                    position.row_of(),
                    text@,
                );
                &&& final(self)@.cells == cells
                &&& final(self)@.cursor_column == column
                &&& final(self)@.cursor_row == line & 1
            }),
    {
        proof {
            use_type_invariant(&*self);
        }
        let column = position.column();
        let mut row = position.row();
        self.set_cursor(position);
        let ghost bits = position.bits();
        assert((bits & crate::game::position::low_mask(1)) & 1 == bits & crate::game::position::low_mask(1))
            by (bit_vector);
        let mut i: usize = 0;
        while i < text.len()
            invariant
                0 <= i <= text@.len(),
                self.extends(*old(self)),
                self.wf(),
                self@.character_set == old(self)@.character_set,
                column == position.column_of(),
                ({
                    let (cells, at, line) = multiline(
                        old(self)@.cells,
                        column,
                        column & 0x0f,
                        position.row_of(),
                        text@.take(i as int),
                    );
                    &&& self@.cells == cells
                    &&& self@.cursor_column == at
                    &&& row == line
                    &&& self@.cursor_row == line & 1
                }),
            decreases text@.len() - i,
        {
            let ghost before = *self;
            proof {
                assert(text@.take(i + 1).drop_last() =~= text@.take(i as int));
            }
            if text[i] == 10u8 {
                row = row.wrapping_add(1);
                self.set_cursor(Position::new(column, row));
                assert(row & crate::game::position::low_mask(1) == row & 1) by (bit_vector);
            } else {
                self.write(text[i]);
            }
            proof {
                lemma_extends_trans(*old(self), before, *self);
            }
            i = i + 1;
        }
        assert(text@.take(text@.len() as int) =~= text@);
    }
}

/// The cells, cursor column and line (a byte that wraps; the cursor is on
/// row `line & 1`) after writing `text` from column `start` of `line`,
/// where each newline goes to column `home` of the next line.
pub open spec fn multiline(cells: Seq<u8>, start: u8, home: u8, line: u8, text: Seq<u8>) -> (
    Seq<u8>,
    u8,
    u8,
)
    decreases text.len(),
{
    if text.len() == 0 {
        (cells, start, line)
    } else {
        let (before, column, at) = multiline(cells, start, home, line, text.drop_last());
        if text.last() == 10 {
            (before, home, ((at + 1) % 256) as u8)
        } else {
            (
                written(before, column as int, (at & 1) as int, seq![text.last()]),
                advanced(column as int, 1),
                at,
            )
        }
    }
}

/// `label`, the decimal digits of `score`, and blanks up to sixteen bytes.
pub open spec fn score_line(label: Seq<u8>, score: u32) -> Seq<u8> {
    let digits = decimal_digits(score as nat);
    let pad = 16 - label.len() - digits.len();
    label + digits + Seq::new(
        if pad > 0 {
            pad as nat
        } else {
            0
        },
        |i: int| 32u8,
    )
}

/// Writing one byte on a visible cell replaces that cell.
pub proof fn lemma_written_one(cells: Seq<u8>, column: int, row: int, byte: u8)
    requires
        0 <= column < 16,
        0 <= row < 2,
        cells.len() == 32,
    ensures
        written(cells, column, row, seq![byte]) == cells.update(row * 16 + column, byte),
{
    assert(written(cells, column, row, seq![byte]) =~= cells.update(row * 16 + column, byte));
}

/// Writing `a` and then `b` right after it is writing `a + b`.
pub proof fn lemma_written_concat(cells: Seq<u8>, column: int, row: int, a: Seq<u8>, b: Seq<u8>)
    ensures
        written(written(cells, column, row, a), column + a.len(), row, b) == written(
            cells,
            column,
            row,
            a + b,
        ),
{
    assert(written(written(cells, column, row, a), column + a.len(), row, b) =~= written(
        cells,
        column,
        row,
        a + b,
    ));
}

/// Replaying `a` and then `b` is replaying `a + b`.
pub proof fn lemma_replay_concat(shown: (Seq<u8>, u8, u8, u8), a: Seq<LcdCommand>, b: Seq<LcdCommand>)
    ensures
        replay(shown, a + b) == replay(replay(shown, a), b),
    decreases b.len(),
{
    if b.len() == 0 {
        assert(a + b =~= a);
    } else {
        lemma_replay_concat(shown, a, b.drop_last());
        assert((a + b).drop_last() =~= a + b.drop_last());
        assert((a + b).last() == b.last());
    }
}

/// A screen extends itself.
pub broadcast proof fn lemma_extends_refl(s: Screen)
    requires
        s.wf(),
    ensures
        #[trigger] s.extends(s),
{
    reveal(Screen::replays);
    assert(s@.commands =~= s@.commands.subrange(0, s@.commands.len() as int));
    assert(s.commands_since(s) =~= Seq::<LcdCommand>::empty());
}

/// Extending is transitive.
pub proof fn lemma_extends_trans(a: Screen, b: Screen, c: Screen)
    requires
        b.extends(a),
        c.extends(b),
    ensures
        c.extends(a),
{
    reveal(Screen::replays);
    assert(a@.commands =~= c@.commands.subrange(0, a@.commands.len() as int)) by {
        assert forall|k: int| 0 <= k < a@.commands.len() implies a@.commands[k]
            == c@.commands[k] by {
            assert(a@.commands[k] == b@.commands.subrange(0, a@.commands.len() as int)[k]);
            assert(b@.commands[k] == c@.commands.subrange(0, b@.commands.len() as int)[k]);
        }
    }
    assert(c.commands_since(a) =~= b.commands_since(a) + c.commands_since(b)) by {
        assert forall|k: int| 0 <= k < b@.commands.len() implies b@.commands[k]
            == c@.commands[k] by {
            assert(b@.commands[k] == c@.commands.subrange(0, b@.commands.len() as int)[k]);
        }
    }
    lemma_replay_concat(a.shown(), b.commands_since(a), c.commands_since(b));
}

/// One more command, whose effect `b` shows, extends a screen.
pub proof fn lemma_extends_one(a: Screen, b: Screen, command: LcdCommand)
    requires
        a.wf(),
        b.wf(),
        b@.commands == a@.commands.push(command),
        b.shown() == step(a.shown(), command),
    ensures
        b.extends(a),
{
    reveal(Screen::replays);
    assert(a@.commands =~= b@.commands.subrange(0, a@.commands.len() as int));
    assert(b.commands_since(a) =~= seq![command]);
    assert(seq![command].drop_last() =~= Seq::<LcdCommand>::empty());
    assert(replay(a.shown(), Seq::<LcdCommand>::empty()) == a.shown());
    assert(replay(a.shown(), seq![command]) == step(a.shown(), command));
}

} // verus!
