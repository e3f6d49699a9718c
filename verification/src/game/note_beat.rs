use vstd::prelude::*;
use crate::game::position::{Position, lemma_small_coordinates, lemma_row_bound, pack};
use crate::game::GameMode;
use crate::rng::{Rng, rng, xorshift};
use crate::screen::{Screen, written};

verus! {

broadcast use crate::screen::lemma_extends_refl;

pub const PLAYER_CHARACTER: u8 = 0;

/// A note lane cell.
#[derive(Copy, Clone, PartialEq, Eq, Debug, Structural)]
pub enum Object {
    Blank,
    Default,
}

impl Object {
    /// The character that shows the cell: blank, or `*`.
    pub open spec fn code_of(self) -> u8 {
        match self {
            Object::Blank => 32,
            Object::Default => 42,
        }
    }

    pub fn code(self) -> (code: u8)
        ensures
            code == self.code_of(),
    {
        match self {
            Object::Blank => 32,
            Object::Default => 42,
        }
    }
}

/// The rhythm game: notes come in from both ends of the top row towards
/// the middle; the player hits them as they arrive beside it.
pub struct NoteBeat {
    pub objects: [Object; 16],
    pub difficulty: u8,
    pub time: u8,
    pub time_gap: u8,
    pub player_position: Position,
    pub player_hit: bool,
    pub lives: u8,
    pub combo: u16,
    pub score: u32,
}

/// Where the note row is drawn from.
pub fn left_position() -> (position: Position)
    ensures
        position.column_of() == 0,
        position.row_of() == 0,
{
    proof {
        lemma_small_coordinates(0, 0);
    }
    Position::new(0, 0)
}

/// Where the player starts, in the middle of the bottom row.
pub fn start_position() -> (position: Position)
    ensures
        position.column_of() == 7,
        position.row_of() == 1,
{
    proof {
        lemma_small_coordinates(7, 1);
    }
    Position::new(7, 1)
}

/// The notes after one step towards the middle: the left half moves right,
/// the right half left, the end cells keep their notes.
pub open spec fn moved_notes(notes: Seq<Object>) -> Seq<Object> {
    Seq::new(
        16,
        |i: int|
            if 1 <= i <= 7 {
                notes[i - 1]
            } else if 8 <= i <= 14 {
                notes[i + 1]
            } else {
                notes[i]
            },
    )
}

/// A note sits on either middle cell.
pub open spec fn reaches_middle(notes: Seq<Object>) -> bool {
    notes[7] == Object::Default || notes[8] == Object::Default
}

/// The notes after one step, with a new note at the left end (even `roll`)
/// or the right end (odd `roll`) when `roll` is under 4, the other end
/// cleared.
pub open spec fn queued_notes(notes: Seq<Object>, roll: u32) -> Seq<Object> {
    let moved = moved_notes(notes);
    if roll < 4 {
        if roll % 2 == 0 {
            moved.update(0, Object::Default).update(15, Object::Blank)
        } else {
            moved.update(0, Object::Blank).update(15, Object::Default)
        }
    } else {
        moved
    }
}

/// The character that the redrawn note row shows for a cell: `_` or `*`.
pub open spec fn shown_note(note: Object) -> u8 {
    match note {
        Object::Blank => 95,
        Object::Default => 42,
    }
}

impl NoteBeat {
    pub open spec fn wf(self) -> bool {
        &&& self.difficulty > 0
        &&& self.time_gap > 0
        &&& self.time <= self.time_gap
        &&& self.player_position.column_of() < 16
        &&& self.player_position.row_of() == 1
    }

    pub fn default() -> (game: Self)
        ensures
            game.wf(),
            forall|k: int| 0 <= k < 16 ==> game.objects[k] == Object::Blank,
            game.difficulty == 10,
            game.time == 0,
            game.time_gap == 60,
            game.player_position.column_of() == 7,
            game.player_position.row_of() == 1,
            !game.player_hit,
            game.lives == 30,
            game.combo == 1,
            game.score == 0,
    {
        NoteBeat {
            objects: [Object::Blank; 16],
            difficulty: 10,
            time: 0,
            time_gap: 60,
            player_position: start_position(),
            player_hit: false,
            lives: 30,
            combo: 1,
            score: 0,
        }
    }

    /// Draws the note row and the player.
    pub fn draw_full_screen(&self, screen: &mut Screen)
        requires
            old(screen).wf(),
        ensures
            final(screen).extends(*old(screen)),
            final(screen)@.character_set == old(screen)@.character_set,
            final(screen)@.cells == written(
                Seq::new(32, |k: int| if k < 16 { self.objects[k].code_of() } else { 32u8 }),
                self.player_position.column_of() as int,
                self.player_position.row_of() as int,
                seq![PLAYER_CHARACTER],
            ),
    {
        let ghost s0 = *screen;
        screen.clear();
        let ghost a = *screen;
        screen.set_cursor(left_position());
        proof {
            crate::screen::lemma_extends_trans(s0, a, *screen);
        }
        let mut i: usize = 0;
        while i < 16
            invariant
                0 <= i <= 16,
                screen.extends(s0),
                screen.wf(),
                screen@.character_set == s0@.character_set,
                screen@.cursor_row == 0,
                screen@.cursor_column == i,
                forall|k: int|
                    0 <= k < 32 ==> #[trigger] screen@.cells[k] == if k < i {
                        self.objects[k].code_of()
                    } else {
                        32u8
                    },
            decreases 16 - i,
        {
            let ghost before = *screen;
            screen.write(self.objects[i].code());
            proof {
                crate::screen::lemma_extends_trans(s0, before, *screen);
            }
            i = i + 1;
        }
        let ghost s1 = *screen;
        assert(s1@.cells =~= Seq::new(
            32,
            |k: int| if k < 16 { self.objects[k].code_of() } else { 32u8 },
        ));
        screen.set_cursor(self.player_position);
        let ghost b = *screen;
        screen.write(PLAYER_CHARACTER);
        proof {
            crate::screen::lemma_extends_trans(s1, b, *screen);
            crate::screen::lemma_extends_trans(s0, s1, *screen);
        }
    }

    /// Moves the notes one step towards the middle (the left half right,
    /// the right half left; the end cells keep their notes), and marks the
    /// player hit when a note reaches the middle.
    pub fn move_objects(&mut self)
        ensures
            final(self).objects[0] == old(self).objects[0],
            forall|i: int| 1 <= i <= 7 ==> final(self).objects[i] == old(self).objects[i - 1],
            forall|i: int| 8 <= i <= 14 ==> final(self).objects[i] == old(self).objects[i + 1],
            final(self).objects[15] == old(self).objects[15],
            final(self).player_hit == (old(self).player_hit || final(self).objects[7]
                == Object::Default || final(self).objects[8] == Object::Default),
            final(self).difficulty == old(self).difficulty,
            final(self).time == old(self).time,
            final(self).time_gap == old(self).time_gap,
            final(self).player_position == old(self).player_position,
            final(self).lives == old(self).lives,
            final(self).combo == old(self).combo,
            final(self).score == old(self).score,
    {
        let mut i: usize = 0;
        while i < 7
            invariant
                0 <= i <= 7,
                self.objects[0] == old(self).objects[0],
                forall|k: int| 0 <= k <= 6 - i ==> self.objects[k] == old(self).objects[k],
                forall|k: int| 7 - i < k <= 7 ==> self.objects[k] == old(self).objects[k - 1],
                forall|k: int| 8 <= k < 16 ==> self.objects[k] == old(self).objects[k],
                self.player_hit == old(self).player_hit,
                self.difficulty == old(self).difficulty,
                self.time == old(self).time,
                self.time_gap == old(self).time_gap,
                self.player_position == old(self).player_position,
                self.lives == old(self).lives,
                self.combo == old(self).combo,
                self.score == old(self).score,
            decreases 7 - i,
        {
            self.objects[7 - i] = self.objects[6 - i];
            i = i + 1;
        }
        let mut i: usize = 8;
        while i < 15
            invariant
                8 <= i <= 15,
                self.objects[0] == old(self).objects[0],
                forall|k: int| 1 <= k <= 7 ==> self.objects[k] == old(self).objects[k - 1],
                forall|k: int| 8 <= k < i ==> self.objects[k] == old(self).objects[k + 1],
                forall|k: int| i <= k < 16 ==> self.objects[k] == old(self).objects[k],
                self.player_hit == old(self).player_hit,
                self.difficulty == old(self).difficulty,
                self.time == old(self).time,
                self.time_gap == old(self).time_gap,
                self.player_position == old(self).player_position,
                self.lives == old(self).lives,
                self.combo == old(self).combo,
                self.score == old(self).score,
            decreases 15 - i,
        {
            self.objects[i] = self.objects[i + 1];
            i = i + 1;
        }
        if self.objects[7] == Object::Default || self.objects[8] == Object::Default {
            self.player_hit = true;
        }
    }

    /// Moves the notes, then with chance 4 in `difficulty` starts a note at
    /// one end (the left one on an even roll) and clears the other end.
    pub fn add_to_queue(&mut self, generator: &mut Rng)
        requires
            old(self).difficulty > 0,
        ensures
            final(generator).state == xorshift(old(generator).state),
            ({
                let roll = xorshift(old(generator).state) % (old(self).difficulty as u32);
                &&& final(self).objects[0] == if roll < 4 {
                    if roll % 2 == 0 {
                        Object::Default
                    } else {
                        Object::Blank
                    }
                } else {
                    old(self).objects[0]
                }
                &&& final(self).objects[15] == if roll < 4 {
                    if roll % 2 == 0 {
                        Object::Blank
                    } else {
                        Object::Default
                    }
                } else {
                    old(self).objects[15]
                }
            }),
            forall|i: int| 1 <= i <= 7 ==> final(self).objects[i] == old(self).objects[i - 1],
            forall|i: int| 8 <= i <= 14 ==> final(self).objects[i] == old(self).objects[i + 1],
            final(self).player_hit == (old(self).player_hit || old(self).objects[6]
                == Object::Default || old(self).objects[9] == Object::Default),
            final(self).difficulty == old(self).difficulty,
            final(self).time == old(self).time,
            final(self).time_gap == old(self).time_gap,
            final(self).player_position == old(self).player_position,
            final(self).lives == old(self).lives,
            final(self).combo == old(self).combo,
            final(self).score == old(self).score,
    {
        let random = rng(generator) % (self.difficulty as u32);
        self.move_objects();
        if random < 4 {
            if random % 2 == 0 {
                self.objects[0] = Object::Default;
                self.objects[15] = Object::Blank;
            } else {
                self.objects[0] = Object::Blank;
                self.objects[15] = Object::Default;
            }
        }
    }

    /// Hits the note beside the player in the direction of the input: it
    /// goes, the score grows by the combo, the combo by one. A miss resets
    /// the combo to 1.
    pub fn hit_object(&mut self, raw_input: [i8; 2])
        requires
            (raw_input[0] > 0 && old(self).objects[6] == Object::Default) || (raw_input[0] < 0
                && old(self).objects[9] == Object::Default) ==> old(self).combo < 0xffff
                && old(self).score + old(self).combo <= u32::MAX,
        ensures
            ({
                let right = raw_input[0] > 0 && old(self).objects[6] == Object::Default;
                let left = !right && raw_input[0] < 0 && old(self).objects[9] == Object::Default;
                &&& right ==> final(self).objects[6] == Object::Blank
                &&& left ==> final(self).objects[9] == Object::Blank
                &&& forall|i: int|
                    0 <= i < 16 && !(right && i == 6) && !(left && i == 9) ==> final(self).objects[i]
                        == old(self).objects[i]
                &&& final(self).score == if right || left {
                    old(self).score + old(self).combo
                } else {
                    old(self).score as int
                }
                &&& final(self).combo == if right || left {
                    old(self).combo + 1
                } else {
                    1
                }
            }),
            final(self).difficulty == old(self).difficulty,
            final(self).time == old(self).time,
            final(self).time_gap == old(self).time_gap,
            final(self).player_position == old(self).player_position,
            final(self).player_hit == old(self).player_hit,
            final(self).lives == old(self).lives,
    {
        if raw_input[0] > 0 && self.objects[6] == Object::Default {
            self.objects[6] = Object::Blank;
            self.score = self.score + self.combo as u32;
            self.combo = self.combo + 1;
        } else if raw_input[0] < 0 && self.objects[9] == Object::Default {
            self.objects[9] = Object::Blank;
            self.score = self.score + self.combo as u32;
            self.combo = self.combo + 1;
        } else {
            self.combo = 1;
        }
    }

    /// Whether the frame with input `raw_input` and the generator at
    /// `state` hits a note, adding the combo to the score: the note beside
    /// the side pressed is there after the notes moved (and were cleared
    /// after a miss).
    pub open spec fn scores(self, raw_input: [i8; 2], state: u32) -> bool {
        let tick = self.time % self.time_gap == 0;
        let roll = xorshift(state) % (self.difficulty as u32);
        let notes = if tick {
            moved_notes(queued_notes(self.objects@, roll))
        } else {
            self.objects@
        };
        let hit = self.player_hit || (tick && (reaches_middle(moved_notes(self.objects@))
            || reaches_middle(notes)));
        let remaining = if hit {
            Seq::new(16, |k: int| Object::Blank)
        } else {
            notes
        };
        (raw_input[0] > 0 && remaining[6] == Object::Default) || (raw_input[0] < 0 && remaining[9]
            == Object::Default)
    }

    /// One frame of note beat: every `time_gap` frames the notes come in
    /// (see `queued_notes`), move once more, and the row is redrawn; a note
    /// that reached the middle costs a life and clears the row (without
    /// lives left the game ends); left and right hit the note beside the
    /// middle on that side and move the player beside the middle.
    pub fn update(&mut self, screen: &mut Screen, generator: &mut Rng, raw_input: [i8; 2], soft_input:
        [i8; 2]) -> (mode: Option<GameMode>)
        requires
            old(self).wf(),
            old(screen).wf(),
            old(self).scores(raw_input, old(generator).state) ==> old(self).combo < 0xffff
                && old(self).score + old(self).combo <= u32::MAX,
        ensures
            final(self).wf(),
            final(screen).extends(*old(screen)),
            final(self).difficulty == old(self).difficulty,
            final(self).time_gap == old(self).time_gap,
            ({
                let tick = old(self).time % old(self).time_gap == 0;
                let roll = xorshift(old(generator).state) % (old(self).difficulty as u32);
                let notes = if tick {
                    moved_notes(queued_notes(old(self).objects@, roll))
                } else {
                    old(self).objects@
                };
                let hit = old(self).player_hit || (tick && (reaches_middle(
                    moved_notes(old(self).objects@),
                ) || reaches_middle(notes)));
                let remaining = if hit {
                    Seq::new(16, |k: int| Object::Blank)
                } else {
                    notes
                };
                let right = raw_input[0] > 0 && remaining[6] == Object::Default;
                let left = !right && raw_input[0] < 0 && remaining[9] == Object::Default;
                &&& final(generator).state == if tick {
                    xorshift(old(generator).state)
                } else {
                    old(generator).state
                }
                &&& final(self).time == if tick {
                    1
                } else {
                    old(self).time + 1
                }
                &&& mode == if hit && old(self).lives == 0 {
                    Some(GameMode::Overworld)
                } else {
                    None::<GameMode>
                }
                &&& mode is Some ==> {
                    &&& final(self).objects@ == notes
                    &&& final(self).player_hit
                    &&& final(self).lives == 0
                    &&& final(self).score == old(self).score
                    &&& final(self).combo == old(self).combo
                    &&& final(self).player_position == old(self).player_position
                }
                &&& mode is None ==> {
                    &&& !final(self).player_hit
                    &&& final(self).lives == if hit {
                        (old(self).lives - 1) as u8
                    } else {
                        old(self).lives
                    }
                    &&& final(self).objects@ == if right {
                        remaining.update(6, Object::Blank)
                    } else if left {
                        remaining.update(9, Object::Blank)
                    } else {
                        remaining
                    }
                    &&& final(self).score == if right || left {
                        old(self).score + old(self).combo
                    } else {
                        old(self).score as int
                    }
                    &&& final(self).combo == if raw_input[0] == 0 {
                        old(self).combo as int
                    } else if right || left {
                        old(self).combo + 1
                    } else {
                        1
                    }
                    &&& final(self).player_position.column_of() == if raw_input[0] > 0 {
                        8
                    } else if raw_input[0] < 0 {
                        7
                    } else {
                        old(self).player_position.column_of()
                    }
                }
                &&& tick ==> forall|k: int|
                    0 <= k < 16 ==> #[trigger] final(screen)@.cells[k] == shown_note(notes[k])
                // The screen: on a tick, the notes over a cleared screen; on
                // a hit, an `x` for every five lives left at the player;
                // on a press, the player moved.
                &&& ({
                    let lanes = if tick {
                        Seq::new(32, |k: int| if k < 16 { shown_note(notes[k]) } else { 32u8 })
                    } else {
                        old(screen)@.cells
                    };
                    let column = old(self).player_position.column_of() as int;
                    let marked = if hit {
                        written(lanes, column, 1, Seq::new(((old(self).lives - 1) / 5) as nat, |i: int| 120u8))
                    } else {
                        lanes
                    };
                    final(screen)@.cells == if mode is Some {
                        lanes
                    } else if raw_input[0] != 0 {
                        marked.update(16 + column, 32u8).update(
                            16 + final(self).player_position.column_of(),
                            PLAYER_CHARACTER,
                        )
                    } else {
                        marked
                    }
                })
            }),
    {
        let ghost s0 = *screen;
        let ghost start = *self;
        screen.set_cursor(left_position());
        let ghost a = *screen;
        proof {
            vstd::arithmetic::div_mod::lemma_mod_self_0(self.time_gap as int);
        }
        if self.time % self.time_gap == 0 {
            self.add_to_queue(generator);
            let ghost queued = *self;
            assert(queued.objects@ =~= queued_notes(
                start.objects@,
                xorshift(old(generator).state) % (start.difficulty as u32),
            ));
            self.move_objects();
            assert(self.objects@ =~= moved_notes(queued.objects@));
            screen.clear();
            let ghost s1 = *screen;
            proof {
                crate::screen::lemma_extends_trans(s0, a, s1);
                crate::screen::lemma_extends_refl(s1);
            }
            let mut i: usize = 0;
            while i < 16
                invariant
                    0 <= i <= 16,
                    screen.extends(s1),
                    screen.wf(),
                    screen@.cursor_row == 0,
                    screen@.cursor_column == i,
                    forall|k: int| 0 <= k < i ==> #[trigger] screen@.cells[k] == shown_note(
                        self.objects@[k],
                    ),
                    forall|k: int| i <= k < 32 ==> #[trigger] screen@.cells[k] == 32u8,
                decreases 16 - i,
            {
                let ghost before = *screen;
                screen.write(
                    match self.objects[i] {
                        Object::Blank => 95u8,
                        Object::Default => 42u8,
                    },
                );
                proof {
                    crate::screen::lemma_extends_trans(s1, before, *screen);
                }
                i = i + 1;
            }
            proof {
                crate::screen::lemma_extends_trans(s0, s1, *screen);
                assert(screen@.cells =~= Seq::new(
                    32,
                    |k: int|
                        if k < 16 {
                            shown_note(self.objects@[k])
                        } else {
                            32u8
                        },
                ));
            }
            self.time = 1;
        } else {
            self.time = self.time + 1;
        }
        let ghost s_row = *screen;
        let ghost notes = self.objects@;
        if self.player_hit {
            if self.lives > 0 {
                self.lives = self.lives - 1;
                self.objects = [Object::Blank; 16];
                assert(self.objects@ =~= Seq::new(16, |k: int| Object::Blank));
                let ghost s2 = *screen;
                screen.set_cursor(self.player_position);
                self.player_hit = false;
                let mut k: u8 = 0;
                while k < self.lives / 5
                    invariant
                        screen.extends(s2),
                        screen.wf(),
                        screen@.cursor_row == 1,
                        s2@.cells.len() == 32,
                        k <= self.lives / 5,
                        screen@.cursor_column == self.player_position.column_of() + k,
                        self.player_position.column_of() < 16,
                        screen@.cells == written(
                            s2@.cells,
                            self.player_position.column_of() as int,
                            1,
                            Seq::new(k as nat, |i: int| 120u8),
                        ),
                        forall|j: int| 0 <= j < 16 ==> #[trigger] screen@.cells[j] == s2@.cells[j],
                    decreases self.lives / 5 - k,
                {
                    let ghost before = *screen;
                    screen.write(120u8);
                    proof {
                        crate::screen::lemma_extends_trans(s2, before, *screen);
                        crate::screen::lemma_written_concat(
                            s2@.cells,
                            self.player_position.column_of() as int,
                            1,
                            Seq::new(k as nat, |i: int| 120u8),
                            seq![120u8],
                        );
                        assert(Seq::new(k as nat, |i: int| 120u8) + seq![120u8] =~= Seq::new(
                            (k + 1) as nat,
                            |i: int| 120u8,
                        ));
                    }
                    k = k + 1;
                }
                proof {
                    crate::screen::lemma_extends_trans(s0, s2, *screen);
                }
            } else {
                return Some(GameMode::Overworld);
            }
        }
        if raw_input[0] != 0 {
            let ghost s3 = *screen;
            screen.set_cursor(self.player_position);
            let ghost b = *screen;
            screen.write(32u8);
            let ghost c = *screen;
            proof {
                crate::screen::lemma_extends_trans(s3, b, c);
            }
            self.hit_object(raw_input);
            self.player_position = if raw_input[0] > 0 {
                start_position().nudge_column_overflowing(1).0
            } else {
                start_position()
            };
            proof {
                lemma_small_coordinates(8, 1);
            }
            screen.set_cursor(self.player_position);
            let ghost d = *screen;
            screen.write(PLAYER_CHARACTER);
            proof {
                crate::screen::lemma_extends_trans(c, d, *screen);
                crate::screen::lemma_extends_trans(s3, c, *screen);
                crate::screen::lemma_extends_trans(s0, s3, *screen);
            }
        }
        None
    }
}

} // verus!
