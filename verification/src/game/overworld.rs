use vstd::prelude::*;
use crate::game::position::{Position, lemma_small_coordinates, lemma_row_bound, clamp_column, pack};
use crate::game::GameMode;
use crate::game::black_jack::BlackJack;
use crate::game::block_catch::BlockCatch;
use crate::game::sokoban::Sokoban;
use crate::game::space_shooter::SpaceShooter;
use crate::lcd::format::{num_digits, digit_count, decimal_digits, lemma_digit_count};
use crate::screen::{Screen, written, lemma_written_concat, cell_index};

verus! {

broadcast use crate::screen::lemma_extends_refl;

pub const PLAYER_CHARACTER: u8 = 0;

/// The arcade hall, two screens of two rows: the doors to the games are the
/// digits, `~` and the block at the far ends lead to the other screen.
pub open spec fn arcade(screen: int, row: int) -> Seq<u8> {
    if screen == 0 {
        if row == 0 {
            seq![32u8, 32, 5, 32, 91, 49, 93, 32, 32, 32, 32, 32, 61, 51, 61, 32]
        } else {
            seq![32u8, 32, 32, 32, 32, 32, 32, 32, 3, 50, 3, 32, 32, 32, 32, 126]
        }
    } else {
        if row == 0 {
            seq![32u8, 58, 52, 58, 32, 32, 32, 32, 32, 60, 54, 62, 32, 32, 32, 32]
        } else {
            seq![127u8, 32, 32, 32, 32, 123, 53, 125, 32, 32, 32, 32, 32, 255, 55, 255]
        }
    }
}

/// One line of the arcade hall.
pub fn arcade_line(screen: u8, row: u8) -> (line: [u8; 16])
    requires
        screen < 2,
        row < 2,
    ensures
        line@ == arcade(screen as int, row as int),
{
    let line = if screen == 0 {
        if row == 0 {
            [32u8, 32, 5, 32, 91, 49, 93, 32, 32, 32, 32, 32, 61, 51, 61, 32]
        } else {
            [32u8, 32, 32, 32, 32, 32, 32, 32, 3, 50, 3, 32, 32, 32, 32, 126]
        }
    } else {
        if row == 0 {
            [32u8, 58, 52, 58, 32, 32, 32, 32, 32, 60, 54, 62, 32, 32, 32, 32]
        } else {
            [127u8, 32, 32, 32, 32, 123, 53, 125, 32, 32, 32, 32, 32, 255, 55, 255]
        }
    };
    assert(line@ =~= arcade(screen as int, row as int));
    line
}

/// The symbol shown before the high score of each slot.
pub open spec fn score_symbol(slot: int) -> u8 {
    if slot == 0 || slot == 2 {
        0x06
    } else if slot == 1 {
        87
    } else {
        63
    }
}

/// The high score slot whose score a door digit shows: doors 1, 2, 3 and
/// 5, 6, 7 (the sokoban door, 4, keeps none).
pub open spec fn slot_of_door(tile: u8) -> Option<int> {
    if 49 <= tile <= 55 && tile != 52 {
        Some(if tile > 52 {
            tile - 49 - 1
        } else {
            tile - 49
        })
    } else {
        None
    }
}

/// Tiles the player can walk on: blanks and the two ends.
pub open spec fn walkable(tile: u8) -> bool {
    tile == 32 || tile == 126 || tile == 127
}

pub struct Overworld {
    pub screen: u8,
    pub player_position: Position,
    /// The length of the high score shown left of the player, if any.
    pub score_length: Option<u8>,
}

impl Overworld {
    pub open spec fn tile(self, column: int, row: int) -> u8 {
        arcade(self.screen as int, row)[column]
    }

    /// The tile in the other row, above or below the player.
    pub open spec fn opposite_tile(self) -> u8 {
        self.tile(
            self.player_position.column_of() as int,
            1 - self.player_position.row_of(),
        )
    }

    /// The cells after the high score `scores[slot]` is shown left of the
    /// player: its symbol, then its digits, or nines up to the player where
    /// the digits do not fit before the left edge (at column 0 the symbol
    /// alone, over the player). A score of 0 is not shown.
    pub open spec fn with_score(self, cells: Seq<u8>, scores: [u32; 6], slot: int) -> Seq<u8> {
        let column = self.player_position.column_of() as int;
        let row = self.player_position.row_of() as int;
        let digits = decimal_digits(scores[slot] as nat);
        let start = clamp_column(column, -(digits.len() + 1)) as int;
        let text = if column - start == digits.len() + 1 {
            seq![score_symbol(slot)] + digits
        } else {
            seq![score_symbol(slot)] + Seq::new(
                if column - start >= 1 {
                    (column - start - 1) as nat
                } else {
                    0
                },
                |i: int| 57u8,
            )
        };
        if scores[slot] == 0 {
            cells
        } else {
            written(cells, start, row, text)
        }
    }

    /// The cells after the high score of the door above or below the
    /// player (if it keeps one) is shown.
    pub open spec fn with_opposite_score(self, cells: Seq<u8>, scores: [u32; 6]) -> Seq<u8> {
        match slot_of_door(self.opposite_tile()) {
            Some(slot) => self.with_score(cells, scores, slot),
            None => cells,
        }
    }

    /// The current screen's tiles with the player on its cell.
    pub open spec fn board(self) -> Seq<u8> {
        Seq::new(
            32,
            |k: int|
                if k == crate::screen::cell_index(
                    self.player_position.column_of() as int,
                    self.player_position.row_of() as int,
                ) {
                    PLAYER_CHARACTER
                } else {
                    self.tile(k % 16, k / 16)
                },
        )
    }

    /// The screen and the player are in range, and a shown score's length
    /// is that of a score with its symbol.
    pub open spec fn wf_layout(self) -> bool {
        &&& self.screen < 2
        &&& self.player_position.column_of() < 16
        &&& self.score_length matches Some(length) ==> 2 <= length <= 11
    }

    /// A score is shown only beside a door that has one.
    pub open spec fn wf(self) -> bool {
        &&& self.wf_layout()
        &&& self.score_length is Some ==> slot_of_door(self.opposite_tile()) is Some
    }

    /// The overworld as it starts: its first screen, the player at the top
    /// left, no score shown.
    pub open spec fn initial(self) -> bool {
        &&& self.wf()
        &&& self.screen == 0
        &&& self.player_position.column_of() == 0
        &&& self.player_position.row_of() == 0
        &&& self.score_length is None
    }

    pub fn default() -> (world: Self)
        ensures
            world.initial(),
    {
        proof {
            lemma_small_coordinates(0, 0);
        }
        Overworld { screen: 0, player_position: Position::new(0, 0), score_length: None }
    }

    /// The tile at `position` of the current screen.
    pub fn get_tile_at(&self, position: Position) -> (tile: u8)
        requires
            self.screen < 2,
            position.column_of() < 16,
        ensures
            tile == self.tile(position.column_of() as int, position.row_of() as int),
    {
        proof {
            lemma_row_bound(1, position.bits());
        }
        let line = arcade_line(self.screen, position.row());
        line[position.column() as usize]
    }

    /// Draws both rows of the current screen.
    pub fn print_screen(&self, screen: &mut Screen)
        requires
            old(screen).wf(),
            self.screen < 2,
        ensures
            final(screen).extends(*old(screen)),
            final(screen)@.character_set == old(screen)@.character_set,
            forall|c: int, r: int|
                0 <= c < 16 && 0 <= r < 2 ==> #[trigger] final(screen).cell(c, r) == self.tile(c, r),
    {
        let ghost s0 = *screen;
        proof {
            lemma_small_coordinates(0, 0);
            lemma_small_coordinates(0, 1);
        }
        screen.set_cursor(Position::new(0, 0));
        let ghost a = *screen;
        let top = arcade_line(self.screen, 0);
        screen.print_bytes(&top);
        let ghost s1 = *screen;
        screen.set_cursor(Position::new(0, 1));
        let ghost b = *screen;
        let bottom = arcade_line(self.screen, 1);
        screen.print_bytes(&bottom);
        proof {
            crate::screen::lemma_extends_trans(s0, a, s1);
            crate::screen::lemma_extends_trans(s1, b, *screen);
            crate::screen::lemma_extends_trans(s0, s1, *screen);
            assert forall|c: int, r: int| 0 <= c < 16 && 0 <= r < 2 implies #[trigger] screen.cell(c, r)
                == self.tile(c, r) by {
                if r == 0 {
                    assert(s1@.cells[c] == top@[c]);
                }
            }
        }
    }

    /// Shows the high score of `slot` just left of the player, behind its
    /// symbol; a score that does not fit shows as nines.
    pub fn draw_score(&mut self, screen: &mut Screen, scores: &[u32; 6], slot: u8)
        requires
            old(screen).wf(),
            old(self).wf_layout(),
            slot < 6,
        ensures
            final(self).wf_layout(),
            old(self).wf() && slot_of_door(old(self).opposite_tile()) is Some ==> final(self).wf(),
            final(screen).extends(*old(screen)),
            final(screen)@.character_set == old(screen)@.character_set,
            final(self).screen == old(self).screen,
            final(self).player_position == old(self).player_position,
            final(self).score_length == if scores[slot as int] == 0 {
                old(self).score_length
            } else {
                Some((digit_count(scores[slot as int] as nat) + 1) as u8)
            },
            final(screen)@.cells == old(self).with_score(old(screen)@.cells, *scores, slot as int),
            scores[slot as int] == 0 ==> *final(screen) == *old(screen),
    {
        let score = scores[slot as usize];
        if score == 0 {
            proof {
                crate::screen::lemma_extends_refl(*screen);
            }
            return;
        }
        let length = num_digits(score) + 1;
        let start = self.player_position.nudge_column_saturating(-(length as i8));
        proof {
            lemma_row_bound(1, start.bits());
            lemma_row_bound(1, self.player_position.bits());
            lemma_digit_count(score as nat);
        }
        let actual_length = self.player_position.column() - start.column();
        let ghost s0 = *screen;
        let ghost column = self.player_position.column_of() as int;
        let ghost row = self.player_position.row_of() as int;
        let ghost first = start.column_of() as int;
        screen.set_cursor(start);
        let ghost a = *screen;
        let symbol: u8 = if slot == 0 || slot == 2 {
            0x06
        } else if slot == 1 {
            87
        } else {
            63
        };
        screen.write(symbol);
        let ghost s1 = *screen;
        proof {
            crate::screen::lemma_extends_trans(s0, a, s1);
            crate::screen::lemma_extends_refl(s1);
        }
        if actual_length == length {
            screen.print(score);
            proof {
                lemma_written_concat(
                    s0@.cells,
                    first,
                    row,
                    seq![symbol],
                    decimal_digits(score as nat),
                );
            }
        } else {
            let mut k: u8 = 1;
            while k < actual_length
                invariant
                    1 <= k,
                    k <= actual_length || (k == 1 && actual_length == 0),
                    0 <= first,
                    first + actual_length < 16,
                    screen.extends(s1),
                    screen.wf(),
                    screen@.character_set == s1@.character_set,
                    screen@.cursor_row == row,
                    screen@.cursor_column == first + k,
                    screen@.cells == written(
                        s1@.cells,
                        first + 1,
                        row,
                        Seq::new((k - 1) as nat, |i: int| 57u8),
                    ),
                decreases actual_length - k,
            {
                let ghost before = *screen;
                screen.write(57u8);
                proof {
                    crate::screen::lemma_extends_trans(s1, before, *screen);
                    lemma_written_concat(
                        s1@.cells,
                        first + 1,
                        row,
                        Seq::new((k - 1) as nat, |i: int| 57u8),
                        seq![57u8],
                    );
                    assert(Seq::new((k - 1) as nat, |i: int| 57u8) + seq![57u8] =~= Seq::new(
                        k as nat,
                        |i: int| 57u8,
                    ));
                }
                k = k + 1;
            }
            proof {
                lemma_written_concat(
                    s0@.cells,
                    first,
                    row,
                    seq![symbol],
                    Seq::new((k - 1) as nat, |i: int| 57u8),
                );
            }
        }
        proof {
            crate::screen::lemma_extends_trans(s0, s1, *screen);
        }
        self.score_length = Some(length);
    }

    /// Shows the high score of the game whose door is above or below the
    /// player, if it has one.
    pub fn update_high_score_display(&mut self, screen: &mut Screen, scores: &[u32; 6])
        requires
            old(screen).wf(),
            old(self).wf(),
        ensures
            final(self).wf(),
            final(screen).extends(*old(screen)),
            final(screen)@.character_set == old(screen)@.character_set,
            final(self).screen == old(self).screen,
            final(self).player_position == old(self).player_position,
            final(self).score_length == match slot_of_door(old(self).opposite_tile()) {
                Some(slot) => if scores[slot] == 0 {
                    old(self).score_length
                } else {
                    Some((digit_count(scores[slot] as nat) + 1) as u8)
                },
                None => old(self).score_length,
            },
            final(screen)@.cells == old(self).with_opposite_score(old(screen)@.cells, *scores),
    {
        proof {
            lemma_row_bound(1, self.player_position.bits());
        }
        let row = self.player_position.row();
        let opposite_position = self.player_position.with_row(1 - row);
        proof {
            lemma_small_coordinates(0, (1 - row) as u8);
        }
        let tile = self.get_tile_at(opposite_position);
        if 49 <= tile && tile <= 55 && tile != 52 {
            let mut slot = tile - 49;
            if tile > 52 {
                slot = slot - 1;
            }
            self.draw_score(screen, scores, slot);
        } else {
            proof {
                crate::screen::lemma_extends_refl(*screen);
            }
        }
    }

    /// Draws the current screen, the player and the high score beside it.
    pub fn draw_full_screen(&mut self, screen: &mut Screen, scores: &[u32; 6])
        requires
            old(screen).wf(),
            old(self).wf(),
        ensures
            final(self).wf(),
            final(screen).extends(*old(screen)),
            final(screen)@.character_set == old(screen)@.character_set,
            final(self).screen == old(self).screen,
            final(self).player_position == old(self).player_position,
            final(self).score_length == match slot_of_door(old(self).opposite_tile()) {
                Some(slot) => if scores[slot] == 0 {
                    old(self).score_length
                } else {
                    Some((digit_count(scores[slot] as nat) + 1) as u8)
                },
                None => old(self).score_length,
            },
            final(screen)@.cells == old(self).with_opposite_score(old(self).board(), *scores),
            final(self).score_fits(*scores),
    {
        let ghost s0 = *screen;
        self.print_screen(screen);
        let ghost sp = *screen;
        screen.set_cursor(self.player_position);
        let ghost sq = *screen;
        screen.write(PLAYER_CHARACTER);
        let ghost s1 = *screen;
        proof {
            crate::screen::lemma_extends_trans(sp, sq, s1);
            crate::screen::lemma_extends_trans(s0, sp, s1);
            lemma_row_bound(1, self.player_position.bits());
            assert forall|k: int| 0 <= k < 32 implies #[trigger] s1@.cells[k] == self.board()[k] by {
                assert(k == (k / 16) * 16 + k % 16);
                assert(sp.cell(k % 16, k / 16) == self.tile(k % 16, k / 16));
            }
            assert(s1@.cells =~= self.board());
        }
        self.update_high_score_display(screen, scores);
        proof {
            crate::screen::lemma_extends_trans(s0, s1, *screen);
        }
    }
}

impl Overworld {
    /// The column a left or right input moves towards, kept on the screen.
    pub open spec fn nudged_column(self, input: i8) -> int {
        clamp_column(self.player_position.column_of() as int, input as int) as int
    }

    /// A right input at the right edge of screen 0.
    pub open spec fn switches_right(self, input: [i8; 2]) -> bool {
        input[0] == 1 && self.screen == 0 && self.nudged_column(input[0]) == 15
    }

    /// A left input at the left edge of screen 1.
    pub open spec fn switches_left(self, input: [i8; 2]) -> bool {
        input[0] == -1 && self.screen == 1 && self.nudged_column(input[0]) == 0
    }

    /// The cell an input moves the player to on its screen.
    pub open spec fn target(self, input: [i8; 2]) -> (int, int) {
        let c = if input[0] == 1 || input[0] == -1 {
            self.nudged_column(input[0])
        } else {
            self.player_position.column_of() as int
        };
        let r = if input[1] == 1 {
            1
        } else if input[1] == -1 {
            0
        } else {
            self.player_position.row_of() as int
        };
        (c, r)
    }

    /// Moves the player: along the row (to the other screen past the inner
    /// edges), and to the upper or lower row. A door or a wall in the way
    /// stops the player and is returned.
    pub fn move_player_by(&mut self, screen: &mut Screen, input: [i8; 2], scores: &[u32; 6]) -> (door:
        Option<u8>)
        requires
            old(screen).wf(),
            old(self).wf(),
        ensures
            final(self).wf_layout(),
            final(self).player_position == old(self).player_position && final(self).screen
                == old(self).screen ==> final(self).wf(),
            final(screen).extends(*old(screen)),
            final(screen)@.character_set == old(screen)@.character_set,
            ({
                let p = old(self).player_position;
                let (c, r) = old(self).target(input);
                &&& old(self).switches_right(input) ==> door is None && final(self).screen == 1
                    && final(self).player_position.column_of() == 0
                    && final(self).player_position.row_of() == p.row_of()
                    && final(self).score_length is None
                &&& old(self).switches_left(input) ==> door is None && final(self).screen == 0
                    && final(self).player_position.column_of() == 15
                    && final(self).player_position.row_of() == p.row_of()
                    && final(self).score_length is None
                &&& !old(self).switches_right(input) && !old(self).switches_left(input) ==> {
                    &&& final(self).screen == old(self).screen
                    &&& final(self).score_length == old(self).score_length
                    &&& (c == p.column_of() && r == p.row_of()) ==> door is None
                        && final(self).player_position == p
                    &&& !(c == p.column_of() && r == p.row_of()) && !walkable(
                        old(self).tile(c, r),
                    ) ==> door == Some(old(self).tile(c, r)) && final(self).player_position == p
                    &&& !(c == p.column_of() && r == p.row_of()) && walkable(old(self).tile(c, r))
                        ==> door is None && final(self).player_position.column_of() == c
                        && final(self).player_position.row_of() == r
                        && final(screen)@.cells == old(screen)@.cells.update(
                        crate::screen::cell_index(p.column_of() as int, p.row_of() as int),
                        old(self).tile(p.column_of() as int, p.row_of() as int),
                    ).update(crate::screen::cell_index(c, r), PLAYER_CHARACTER)
                    &&& (c == p.column_of() && r == p.row_of()) || !walkable(old(self).tile(c, r))
                        ==> final(screen)@.cells == old(screen)@.cells
                }
                &&& old(self).switches_right(input) || old(self).switches_left(input)
                    ==> final(screen)@.cells == final(self).with_opposite_score(
                    final(self).board(),
                    *scores,
                )
            }),
    {
        proof {
            lemma_row_bound(1, self.player_position.bits());
            lemma_small_coordinates(0, 0);
            lemma_small_coordinates(15, 0);
            lemma_small_coordinates(0, 1);
            lemma_small_coordinates(1, 1);
            crate::screen::lemma_extends_refl(*screen);
        }
        let mut new_position = self.player_position;
        if input[0] == 1 || input[0] == -1 {
            let position = new_position.nudge_column_saturating(input[0]);
            if input[0] == 1 {
                if self.screen < 1 && position.column() == 15 {
                    self.screen = self.screen + 1;
                    self.player_position = new_position.with_column(0);
                    self.draw_full_screen(screen, scores);
                    return None;
                } else {
                    new_position = position;
                }
            } else {
                if self.screen > 0 && position.column() == 0 {
                    self.screen = self.screen - 1;
                    self.player_position = new_position.with_column(15);
                    self.draw_full_screen(screen, scores);
                    return None;
                } else {
                    new_position = position;
                }
            }
        }
        if input[1] == 1 {
            new_position = new_position.with_row(1);
        } else if input[1] == -1 {
            new_position = new_position.with_row(0);
        }
        proof {
            lemma_row_bound(1, new_position.bits());
            let a = self.player_position.bits();
            let b = new_position.bits();
            assert((a >> 1u8 == b >> 1u8 && a & 1u8 == b & 1u8) ==> a == b) by (bit_vector);
        }
        if new_position.same_place(self.player_position) {
            return None;
        }
        let target = self.get_tile_at(new_position);
        if !(target == 32u8 || target == 126u8 || target == 127u8) {
            return Some(target);
        }
        let ghost s0 = *screen;
        screen.set_cursor(self.player_position);
        let ghost a = *screen;
        let here = self.get_tile_at(self.player_position);
        screen.write(here);
        let ghost s1 = *screen;
        screen.set_cursor(new_position);
        let ghost b = *screen;
        screen.write(PLAYER_CHARACTER);
        proof {
            crate::screen::lemma_extends_trans(s0, a, s1);
            crate::screen::lemma_extends_trans(s1, b, *screen);
            crate::screen::lemma_extends_trans(s0, s1, *screen);
        }
        self.player_position = new_position;
        None
    }

    /// `self` is `before` after a frame of the overworld with the soft input
    /// `soft_input` and the high scores `scores`, `mode` returned: the player
    /// moves (see `move_player_by`), walking into a game's door (1 block
    /// catch, 2 black jack, 3 space shooter, 4 sokoban) starts that game,
    /// and the high score beside the player follows it.
    pub open spec fn walked(self, before: Overworld, soft_input: [i8; 2], scores: [u32; 6], mode: Option<
        GameMode,
    >) -> bool {
        let p = before.player_position;
        let (c, r) = before.target(soft_input);
        let switches = before.switches_right(soft_input) || before.switches_left(soft_input);
        let still = c == p.column_of() && r == p.row_of();
        let door = if !switches && !still && !walkable(before.tile(c, r)) {
            Some(before.tile(c, r))
        } else {
            None
        };
        &&& mode matches Some(m) ==> m.fresh() && !(m is Overworld)
        &&& mode is Some ==> self.player_position == before.player_position && self.screen
            == before.screen && self.score_length == before.score_length
        &&& door == Some(49u8) ==> (mode matches Some(GameMode::BlockCatch(game)) && game.initial())
        &&& door == Some(50u8) ==> (mode matches Some(GameMode::BlackJack(game)) && game.initial())
        &&& door == Some(51u8) ==> (mode matches Some(GameMode::SpaceShooter(game)) && game.initial())
        &&& door == Some(52u8) ==> (mode matches Some(GameMode::Sokoban(game)) && game.initial())
        &&& door != Some(49u8) && door != Some(50u8) && door != Some(51u8) && door != Some(52u8)
            ==> mode is None
        &&& before.switches_right(soft_input) ==> self.screen == 1
            && self.player_position.column_of() == 0 && self.player_position.row_of() == p.row_of()
        &&& before.switches_left(soft_input) ==> self.screen == 0
            && self.player_position.column_of() == 15 && self.player_position.row_of() == p.row_of()
        &&& !switches && (still || door is Some) ==> self.player_position == p && self.screen
            == before.screen
        &&& !switches && !still && door is None ==> self.screen == before.screen
            && self.player_position.column_of() == c && self.player_position.row_of() == r
        &&& mode is None && self.player_position == before.player_position ==> self.score_length
            == before.score_length
        &&& mode is None && self.player_position != before.player_position ==> self.score_length
            == match slot_of_door(self.opposite_tile()) {
            Some(slot) => if scores[slot] == 0 {
                None
            } else {
                Some((digit_count(scores[slot] as nat) + 1) as u8)
            },
            None => None::<u8>,
        }
    }

    /// What a frame of the overworld that takes `before` to `self` and
    /// returns `mode` draws, from `earlier` to `later`: a move redraws the
    /// two cells (or the whole screen on a switch), wipes the score the
    /// player leaves and shows the one it reaches; anything else draws
    /// nothing.
    pub open spec fn frame_drawn(
        self,
        before: Overworld,
        soft_input: [i8; 2],
        scores: [u32; 6],
        mode: Option<GameMode>,
        earlier: Seq<u8>,
        later: Seq<u8>,
    ) -> bool {
        &&& mode is None && self.player_position != before.player_position ==> ({
            let p = before.player_position;
            let q = self.player_position;
            let switches = before.switches_right(soft_input) || before.switches_left(
                soft_input,
            );
            let walked = if switches {
                self.with_opposite_score(self.board(), scores)
            } else {
                earlier.update(
                    cell_index(p.column_of() as int, p.row_of() as int),
                    before.tile(p.column_of() as int, p.row_of() as int),
                ).update(cell_index(q.column_of() as int, q.row_of() as int), PLAYER_CHARACTER)
            };
            let wiped = match before.score_length {
                Some(length) => if switches {
                    walked
                } else {
                    let from = clamp_column(p.column_of() as int, -(length as int)) as int;
                    written(
                        walked,
                        from,
                        p.row_of() as int,
                        arcade(self.screen as int, p.row_of() as int).subrange(
                            from,
                            q.column_of() as int,
                        ),
                    )
                },
                None => walked,
            };
            later == self.with_opposite_score(wiped, scores)
        })
        &&& mode is Some || self.player_position == before.player_position
            ==> later == earlier
    }

    /// One frame of the overworld: moves the player, enters the game whose
    /// door it walked into (1 block catch, 2 black jack, 3 space shooter,
    /// 4 sokoban), and keeps the high score beside the player up to date.
    pub fn update(&mut self, screen: &mut Screen, raw_input: [i8; 2], soft_input: [i8; 2], scores: &[u32; 6]) -> (mode:
        Option<GameMode>)
        requires
            old(screen).wf(),
            old(self).wf(),
        ensures
            final(self).wf(),
            final(screen).extends(*old(screen)),
            final(self).walked(*old(self), soft_input, *scores, mode),
            final(screen)@.character_set == old(screen)@.character_set,
            final(self).frame_drawn(*old(self), soft_input, *scores, mode, old(screen)@.cells, final(screen)@.cells),
    {
        let old_position = self.player_position;
        let ghost s0 = *screen;
        let door = self.move_player_by(screen, soft_input, scores);
        if door == Some(49u8) {
            return Some(GameMode::BlockCatch(BlockCatch::default()));
        } else if door == Some(50u8) {
            return Some(GameMode::BlackJack(BlackJack::default()));
        } else if door == Some(51u8) {
            return Some(GameMode::SpaceShooter(SpaceShooter::default()));
        } else if door == Some(52u8) {
            return Some(GameMode::Sokoban(Sokoban::default()));
        }
        if self.player_position.same_place(old_position) {
            return None;
        }
        proof {
            lemma_row_bound(1, old_position.bits());
            lemma_row_bound(1, self.player_position.bits());
        }
        match self.score_length {
            Some(length) => {
                self.score_length = None;
                let ghost s1 = *screen;
                screen.set_cursor(old_position.nudge_column_saturating(-(length as i8)));
                let line = arcade_line(self.screen, old_position.row());
                let mut k: u8 = old_position.column().saturating_sub(length);
                let ghost from = k as int;
                assert(line@.len() == 16) by {
                    broadcast use vstd::array::group_array_axioms;
                }
                let end = self.player_position.column();
                // The bytes between the score's start and the player's new
                // column: a range in order, as the player moves one column.
                assert(k <= end);
                while k < end
                    invariant
                        end < 16,
                        line@.len() == 16,
                        0 <= from <= k <= end,
                        screen.extends(s1),
                        screen.wf(),
                        screen@.character_set == s1@.character_set,
                        screen@.cursor_row == old_position.row_of(),
                        screen@.cursor_column == k,
                        screen@.cells == written(
                            s1@.cells,
                            from,
                            old_position.row_of() as int,
                            line@.subrange(from, k as int),
                        ),
                    decreases end - k,
                {
                    let ghost before = *screen;
                    screen.write(line[k as usize]);
                    proof {
                        crate::screen::lemma_extends_trans(s1, before, *screen);
                        lemma_written_concat(
                            s1@.cells,
                            from,
                            old_position.row_of() as int,
                            line@.subrange(from, k as int),
                            seq![line@[k as int]],
                        );
                        assert(line@.subrange(from, k as int) + seq![line@[k as int]] =~= line@.subrange(
                            from,
                            k + 1,
                        ));
                    }
                    k = k + 1;
                }
                proof {
                    crate::screen::lemma_extends_trans(s0, s1, *screen);
                }
            },
            None => {},
        }
        let ghost s2 = *screen;
        self.update_high_score_display(screen, scores);
        proof {
            crate::screen::lemma_extends_trans(s0, s2, *screen);
        }
        None
    }
}

impl Overworld {
    /// Whether a high score shows left of the player: the door above or
    /// below keeps one, and it is not 0.
    pub open spec fn shows_score(self, scores: [u32; 6]) -> bool {
        match slot_of_door(self.opposite_tile()) {
            Some(slot) => scores[slot] != 0,
            None => false,
        }
    }

    /// The remembered score length is that of the score that shows.
    pub open spec fn score_fits(self, scores: [u32; 6]) -> bool {
        match slot_of_door(self.opposite_tile()) {
            Some(slot) => scores[slot] != 0 ==> self.score_length == Some(
                (digit_count(scores[slot] as nat) + 1) as u8,
            ),
            None => true,
        }
    }

    /// The cells that show the overworld: the screen's tiles, the player,
    /// and the high score beside it.
    pub open spec fn shown_cells(self, scores: [u32; 6]) -> Seq<u8> {
        self.with_opposite_score(self.board(), scores)
    }
}

/// Showing the high score twice is showing it once.
proof fn lemma_score_shown_twice(world: Overworld, cells: Seq<u8>, scores: [u32; 6])
    ensures
        world.with_opposite_score(world.with_opposite_score(cells, scores), scores)
            == world.with_opposite_score(cells, scores),
{
    match slot_of_door(world.opposite_tile()) {
        Some(slot) => {
            let once = world.with_score(cells, scores, slot);
            assert(world.with_score(once, scores, slot) =~= once);
        },
        None => {},
    }
}

/// While the player walks, the screen shows the overworld as it stands: a
/// frame that starts with the cells showing the overworld, its score length
/// fitting the score shown, ends with the cells showing the overworld after
/// the frame.
pub proof fn law_overworld_stays_shown(
    before: Overworld,
    after: Overworld,
    soft_input: [i8; 2],
    scores: [u32; 6],
    earlier: Seq<u8>,
    later: Seq<u8>,
)
    requires
        before.wf(),
        before.score_fits(scores),
        after.walked(before, soft_input, scores, None),
        after.frame_drawn(before, soft_input, scores, None, earlier, later),
        earlier == before.shown_cells(scores),
    ensures
        later == after.shown_cells(scores),
        after.score_fits(scores),
{
    let p = before.player_position;
    let q = after.player_position;
    lemma_row_bound(1, p.bits());
    lemma_row_bound(1, q.bits());
    let switches = before.switches_right(soft_input) || before.switches_left(soft_input);
    if q == p {
        return;
    }
    if switches {
        lemma_score_shown_twice(after, after.board(), scores);
        return;
    }
    let pc = p.column_of() as int;
    let pr = p.row_of() as int;
    let qc = q.column_of() as int;
    let qr = q.row_of() as int;
    assert(qc == pc || qc == pc + 1 || qc == pc - 1);
    assert(pc != qc || pr != qr) by {
        crate::game::position::law_position_round_trip(1, p.bits());
        crate::game::position::law_position_round_trip(1, q.bits());
    }
    let b = before.board();
    let w = after.board();
    let walked = earlier.update(cell_index(pc, pr), before.tile(pc, pr)).update(
        cell_index(qc, qr),
        PLAYER_CHARACTER,
    );
    let wiped = match before.score_length {
        Some(length) => {
            let from = clamp_column(pc, -(length as int)) as int;
            written(walked, from, pr, arcade(after.screen as int, pr).subrange(from, qc))
        },
        None => walked,
    };
    assert(later == after.with_opposite_score(wiped, scores));
    assert(after.screen == before.screen);
    assert(arcade(0, 0)[0] == 32 && arcade(0, 1)[0] == 32 && arcade(1, 0)[0] == 32 && arcade(1, 1)[0]
        == 127);
    assert(before.shows_score(scores) ==> pc >= 1);
    let shown = before.shows_score(scores);
    let slot = slot_of_door(before.opposite_tile()).unwrap();
    let digits = decimal_digits(scores[slot] as nat);
    let start = clamp_column(pc, -(digits.len() + 1)) as int;
    let text = if pc - start == digits.len() + 1 {
        seq![score_symbol(slot)] + digits
    } else {
        seq![score_symbol(slot)] + Seq::new((pc - start - 1) as nat, |i: int| 57u8)
    };
    lemma_digit_count(scores[slot] as nat);
    assert(shown ==> earlier == written(b, start, pr, text));
    assert(!shown ==> earlier == b);
    assert(shown ==> text.len() == pc - start);
    assert forall|k: int| 0 <= k < 32 implies #[trigger] wiped[k] == w[k] by {
        let c = k % 16;
        let r = k / 16;
        assert(k == r * 16 + c);
        assert(w[k] == if k == cell_index(qc, qr) {
            PLAYER_CHARACTER
        } else {
            after.tile(c, r)
        });
        assert(b[k] == if k == cell_index(pc, pr) {
            PLAYER_CHARACTER
        } else {
            before.tile(c, r)
        });
        match before.score_length {
            Some(length) => {
                let from = clamp_column(pc, -(length as int)) as int;
                assert(from <= qc);
                assert(shown ==> from == start);
                if pr * 16 + from <= k < pr * 16 + qc {
                    assert(r == pr && c == k - pr * 16);
                }
            },
            None => {},
        }
    }
    assert(wiped =~= w);
}

/// The score shown beside a door is the one its game records: walking
/// into a door that starts a game with a high score slot (block catch,
/// black jack, the space shooter) finds that slot under the door's tile.
pub proof fn law_door_shows_its_game_score(
    after: Overworld,
    before: Overworld,
    soft_input: [i8; 2],
    scores: [u32; 6],
    mode: Option<GameMode>,
)
    requires
        after.walked(before, soft_input, scores, mode),
        mode matches Some(game) && game.slot() is Some,
    ensures
        ({
            let (c, r) = before.target(soft_input);
            slot_of_door(before.tile(c, r)) == Some(mode.unwrap().slot().unwrap() as int)
        }),
{
}

} // verus!
