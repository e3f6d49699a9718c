pub mod black_jack;
pub mod block_catch;
pub mod moon_landing;
pub mod note_beat;
pub mod overworld;
pub mod position;
pub mod sokoban;
pub mod space_shooter;

use vstd::prelude::*;
use crate::game::black_jack::{BlackJack, Countdown};
use crate::game::block_catch::BlockCatch;
use crate::game::overworld::Overworld;
use crate::game::sokoban::{LevelData, Sokoban, levels_ok};
use crate::game::space_shooter::SpaceShooter;
use crate::rng::{Rng, xorshift};
use crate::screen::Screen;

verus! {

broadcast use crate::screen::lemma_extends_refl;

/// What the arcade is running: the overworld, or one of the games.
pub enum GameMode {
    Overworld,
    BlockCatch(BlockCatch),
    BlackJack(BlackJack),
    SpaceShooter(SpaceShooter),
    Sokoban(Sokoban),
}

impl GameMode {
    /// A game as it starts, before its first frame.
    pub open spec fn fresh(self) -> bool {
        match self {
            GameMode::Overworld => true,
            GameMode::BlockCatch(game) => game.wf() && game.score == 0,
            GameMode::BlackJack(game) => game.fresh(),
            GameMode::SpaceShooter(game) => game.wf() && game.score == 0,
            GameMode::Sokoban(game) => game.wf(),
        }
    }

    /// A game in play.
    pub open spec fn wf(self) -> bool {
        match self {
            GameMode::Overworld => true,
            GameMode::BlockCatch(game) => game.wf(),
            GameMode::BlackJack(game) => game.wf(),
            GameMode::SpaceShooter(game) => game.wf(),
            GameMode::Sokoban(game) => game.wf(),
        }
    }

    /// A game that `Game::draw_full_screen` can start: black jack still to
    /// be dealt, any other game in play.
    pub open spec fn ready(self) -> bool {
        match self {
            GameMode::BlackJack(game) => game.fresh(),
            _ => self.wf(),
        }
    }

    /// Which game the mode is, as a number: the overworld 0, block catch
    /// 1, black jack 2, space shooter 3, sokoban 4.
    pub open spec fn kind(self) -> int {
        match self {
            GameMode::Overworld => 0,
            GameMode::BlockCatch(_) => 1,
            GameMode::BlackJack(_) => 2,
            GameMode::SpaceShooter(_) => 3,
            GameMode::Sokoban(_) => 4,
        }
    }

    pub open spec fn slot(self) -> Option<u8> {
        match self {
            GameMode::BlockCatch(_) => Some(0u8),
            GameMode::BlackJack(_) => Some(1u8),
            GameMode::SpaceShooter(_) => Some(2u8),
            _ => None,
        }
    }

    /// The high score slot of the game: block catch 0, black jack 1, space
    /// shooter 2; the overworld and sokoban keep none.
    pub fn high_score_slot(&self) -> (slot: Option<u8>)
        ensures
            slot == self.slot(),
    {
        match self {
            GameMode::Overworld => None,
            GameMode::BlockCatch(_) => Some(0),
            GameMode::BlackJack(_) => Some(1),
            GameMode::SpaceShooter(_) => Some(2),
            GameMode::Sokoban(_) => None,
        }
    }
}

pub const REPEAT_DELAY_FRAMES: i8 = 15;

pub const FALLING_EDGE_TIME: u8 = 5;

/// Tells a held button from one released a few frames ago.
pub struct Debouncer {
    pub time_since_release: u8,
}

impl Debouncer {
    pub fn new() -> (debouncer: Self)
        ensures
            debouncer.time_since_release == 255,
    {
        Debouncer { time_since_release: 255 }
    }

    /// Takes this frame's reading of the button (`true` while pressed) and
    /// hands it back.
    pub fn update(&mut self, raw_value: bool) -> (pressed: bool)
        ensures
            pressed == raw_value,
            final(self).time_since_release == if raw_value {
                0
            } else if old(self).time_since_release < 255 {
                (old(self).time_since_release + 1) as u8
            } else {
                255u8
            },
    {
        if raw_value {
            self.time_since_release = 0;
        } else {
            self.time_since_release = self.time_since_release.saturating_add(1);
        }
        raw_value
    }

    /// Whether the button was pressed within the last few frames.
    pub fn is_held(&self) -> (held: bool)
        ensures
            held == (self.time_since_release < FALLING_EDGE_TIME),
    {
        self.time_since_release < FALLING_EDGE_TIME
    }
}

/// The frames since a button's release after one more frame in which it is
/// `pressed` or not (counting up to 255).
pub open spec fn released_time(time: u8, pressed: bool) -> u8 {
    if pressed {
        0
    } else if time < 255 {
        (time + 1) as u8
    } else {
        255
    }
}

/// The pad's axes from the buttons (right, up, left, down): right minus
/// left, down minus up.
pub open spec fn raw_axes(pressed: [bool; 4]) -> [i8; 2] {
    [
        ((if pressed[0] { 1int } else { 0 }) - (if pressed[2] { 1int } else { 0 })) as i8,
        ((if pressed[3] { 1int } else { 0 }) - (if pressed[1] { 1int } else { 0 })) as i8,
    ]
}

/// The soft input of both axes.
pub open spec fn soft_axes(repeat_time: [i8; 2], raw: [i8; 2], held: [bool; 2]) -> [i8; 2] {
    [soft_step(raw[0], repeat_time[0], held[0]).0, soft_step(raw[1], repeat_time[1], held[1]).0]
}

/// The soft input of one axis and the new repeat timer: a press acts at
/// once and then again every `REPEAT_DELAY_FRAMES` frames while held; the
/// timer resets once the button is released for good.
pub open spec fn soft_step(raw: i8, repeat_time: i8, debounced: bool) -> (i8, i8) {
    if raw > 0 {
        if repeat_time > 0 {
            (0, (repeat_time - 1) as i8)
        } else {
            (1, REPEAT_DELAY_FRAMES)
        }
    } else if raw < 0 {
        if repeat_time < 0 {
            (0, (repeat_time + 1) as i8)
        } else {
            (-1i8, -15i8)
        }
    } else if !debounced {
        (0, 0)
    } else {
        (0, repeat_time)
    }
}

/// The arcade: the overworld, the game being played, the high scores, the
/// direction pad and the random number generator.
pub struct Game {
    pub repeat_time: [i8; 2],
    pub overworld: Overworld,
    pub game_mode: GameMode,
    pub high_scores: [u32; 6],
    pub dpad_right: Debouncer,
    pub dpad_up: Debouncer,
    pub dpad_left: Debouncer,
    pub dpad_down: Debouncer,
    pub rng: Rng,
    /// The sokoban levels.
    pub levels: Vec<LevelData>,
}

impl Game {
    pub open spec fn wf(self) -> bool {
        &&& self.overworld.wf()
        &&& self.game_mode.wf()
        &&& levels_ok(self.levels@)
    }

    /// There is room for the scores that one more frame can add.
    pub open spec fn room(self) -> bool {
        match self.game_mode {
            GameMode::BlockCatch(game) => game.block_motion_timer <= 1 && game.player_position is Some
                && game.blocks[1] is Some ==> game.score < u32::MAX,
            GameMode::SpaceShooter(game) => game.ship_health > 0 ==> game.score < u32::MAX - 1,
            GameMode::BlackJack(game) => (game.countdown matches Some(Countdown::Exiting(t)) && t
                <= 1) && game.player_won_spec() ==> self.high_scores[1] < u32::MAX,
            _ => true,
        }
    }

    /// The score of the game being left fits a `u32`: a won black jack
    /// counts one more than the streak so far.
    pub open spec fn score_fits(self) -> bool {
        self.game_mode matches GameMode::BlackJack(game) && game.player_won_spec()
            ==> self.high_scores[1] < u32::MAX
    }

    pub open spec fn score_spec(self) -> u32 {
        match self.game_mode {
            GameMode::BlockCatch(game) => game.score,
            GameMode::BlackJack(game) => if game.player_won_spec() {
                (self.high_scores[1] + 1) as u32
            } else {
                0
            },
            GameMode::SpaceShooter(game) => game.score,
            _ => 0,
        }
    }

    /// A new arcade with the generator seeded with `seed` and the sokoban
    /// levels `levels`. It starts in the space shooter.
    pub fn new(seed: u32, levels: Vec<LevelData>) -> (game: Self)
        requires
            levels_ok(levels@),
        ensures
            game.wf(),
            game.game_mode.ready(),
            game.game_mode matches GameMode::SpaceShooter(shooter) && shooter.initial(),
            game.overworld.initial(),
            game.dpad_right.time_since_release == 255,
            game.dpad_up.time_since_release == 255,
            game.dpad_left.time_since_release == 255,
            game.dpad_down.time_since_release == 255,
            game.rng.state == seed,
            game.levels@ == levels@,
            forall|k: int| 0 <= k < 6 ==> game.high_scores[k] == 0,
            game.repeat_time[0] == 0 && game.repeat_time[1] == 0,
    {
        Game {
            repeat_time: [0; 2],
            overworld: Overworld::default(),
            game_mode: GameMode::SpaceShooter(SpaceShooter::default()),
            high_scores: [0; 6],
            dpad_right: Debouncer::new(),
            dpad_up: Debouncer::new(),
            dpad_left: Debouncer::new(),
            dpad_down: Debouncer::new(),
            rng: Rng::new(seed),
            levels,
        }
    }

    /// Reads the pad (`pressed`: right, up, left, down) into the two axes:
    /// right minus left, down minus up.
    pub fn update_raw_input(&mut self, pressed: [bool; 4]) -> (raw: [i8; 2])
        ensures
            raw[0] == (if pressed[0] { 1int } else { 0 }) - (if pressed[2] { 1int } else { 0 }),
            raw[1] == (if pressed[3] { 1int } else { 0 }) - (if pressed[1] { 1int } else { 0 }),
            final(self).overworld == old(self).overworld,
            final(self).game_mode == old(self).game_mode,
            final(self).high_scores == old(self).high_scores,
            final(self).repeat_time == old(self).repeat_time,
            final(self).rng == old(self).rng,
            final(self).levels == old(self).levels,
            final(self).dpad_right.time_since_release == released_time(
                old(self).dpad_right.time_since_release,
                pressed[0],
            ),
            final(self).dpad_up.time_since_release == released_time(
                old(self).dpad_up.time_since_release,
                pressed[1],
            ),
            final(self).dpad_left.time_since_release == released_time(
                old(self).dpad_left.time_since_release,
                pressed[2],
            ),
            final(self).dpad_down.time_since_release == released_time(
                old(self).dpad_down.time_since_release,
                pressed[3],
            ),
    {
        let right = self.dpad_right.update(pressed[0]) as i8;
        let left = self.dpad_left.update(pressed[2]) as i8;
        let down = self.dpad_down.update(pressed[3]) as i8;
        let up = self.dpad_up.update(pressed[1]) as i8;
        [right - left, down - up]
    }

    /// Whether either button of each axis was pressed lately.
    pub fn get_debounced_input(&self) -> (held: [bool; 2])
        ensures
            held[0] == (self.dpad_right.time_since_release < FALLING_EDGE_TIME
                || self.dpad_left.time_since_release < FALLING_EDGE_TIME),
            held[1] == (self.dpad_down.time_since_release < FALLING_EDGE_TIME
                || self.dpad_up.time_since_release < FALLING_EDGE_TIME),
    {
        [
            self.dpad_right.is_held() || self.dpad_left.is_held(),
            self.dpad_down.is_held() || self.dpad_up.is_held(),
        ]
    }

    /// Turns the raw input into presses that repeat while held.
    pub fn update_soft_input(&mut self, raw_input: [i8; 2]) -> (soft: [i8; 2])
        ensures
            ({
                let held = [
                    old(self).dpad_right.time_since_release < FALLING_EDGE_TIME
                        || old(self).dpad_left.time_since_release < FALLING_EDGE_TIME,
                    old(self).dpad_down.time_since_release < FALLING_EDGE_TIME
                        || old(self).dpad_up.time_since_release < FALLING_EDGE_TIME,
                ];
                &&& (soft[0], final(self).repeat_time[0]) == soft_step(
                    raw_input[0],
                    old(self).repeat_time[0],
                    held[0],
                )
                &&& (soft[1], final(self).repeat_time[1]) == soft_step(
                    raw_input[1],
                    old(self).repeat_time[1],
                    held[1],
                )
            }),
            forall|k: int| 0 <= k < 2 && -REPEAT_DELAY_FRAMES <= old(self).repeat_time[k] <= REPEAT_DELAY_FRAMES
                ==> -REPEAT_DELAY_FRAMES <= #[trigger] final(self).repeat_time[k] <= REPEAT_DELAY_FRAMES,
            // A bounce keeps the repeat timer.
            forall|k: int|
                0 <= k < 2 && raw_input[k] == 0 && old(self).get_debounced_spec()[k] ==> soft[k] == 0
                    && #[trigger] final(self).repeat_time[k] == old(self).repeat_time[k],
            final(self).overworld == old(self).overworld,
            final(self).game_mode == old(self).game_mode,
            final(self).high_scores == old(self).high_scores,
            final(self).rng == old(self).rng,
            final(self).levels == old(self).levels,
            final(self).dpad_right == old(self).dpad_right,
            final(self).dpad_up == old(self).dpad_up,
            final(self).dpad_left == old(self).dpad_left,
            final(self).dpad_down == old(self).dpad_down,
    {
        let debounced = self.get_debounced_input();
        let mut soft: [i8; 2] = [0; 2];
        let mut i: usize = 0;
        while i < 2
            invariant
                0 <= i <= 2,
                debounced == old(self).get_debounced_spec(),
                forall|k: int|
                    0 <= k < i ==> (soft[k], self.repeat_time[k]) == soft_step(
                        raw_input[k],
                        old(self).repeat_time[k],
                        debounced[k],
                    ),
                forall|k: int| i <= k < 2 ==> self.repeat_time[k] == old(self).repeat_time[k],
                forall|k: int|
                    0 <= k < 2 && -REPEAT_DELAY_FRAMES <= old(self).repeat_time[k] <= REPEAT_DELAY_FRAMES ==> -REPEAT_DELAY_FRAMES <= #[trigger] self.repeat_time[k]
                        <= REPEAT_DELAY_FRAMES,
                self.overworld == old(self).overworld,
                self.game_mode == old(self).game_mode,
                self.high_scores == old(self).high_scores,
                self.rng == old(self).rng,
                self.levels == old(self).levels,
                self.dpad_right == old(self).dpad_right,
                self.dpad_left == old(self).dpad_left,
                self.dpad_up == old(self).dpad_up,
                self.dpad_down == old(self).dpad_down,
            decreases 2 - i,
        {
            let mut out: i8 = 0;
            if raw_input[i] > 0 {
                if self.repeat_time[i] > 0 {
                    self.repeat_time[i] = self.repeat_time[i] - 1;
                } else {
                    self.repeat_time[i] = REPEAT_DELAY_FRAMES;
                    out = 1;
                }
            } else if raw_input[i] < 0 {
                if self.repeat_time[i] < 0 {
                    self.repeat_time[i] = self.repeat_time[i] + 1;
                } else {
                    self.repeat_time[i] = -REPEAT_DELAY_FRAMES;
                    out = -1;
                }
            } else if !debounced[i] {
                self.repeat_time[i] = 0;
            }
            soft[i] = out;
            i = i + 1;
        }
        soft
    }

    pub open spec fn get_debounced_spec(self) -> [bool; 2] {
        [
            self.dpad_right.time_since_release < FALLING_EDGE_TIME
                || self.dpad_left.time_since_release < FALLING_EDGE_TIME,
            self.dpad_down.time_since_release < FALLING_EDGE_TIME
                || self.dpad_up.time_since_release < FALLING_EDGE_TIME,
        ]
    }

    /// Whether one more frame can add to the scores without overflow.
    pub fn has_room(&self) -> (room: bool)
        ensures
            room == self.room(),
    {
        match &self.game_mode {
            GameMode::BlockCatch(game) => !(game.block_motion_timer <= 1 && game.player_position.is_some()
                && game.blocks[1].is_some()) || game.score < u32::MAX,
            GameMode::SpaceShooter(game) => game.ship_health == 0 || game.score < u32::MAX - 1,
            GameMode::BlackJack(game) => {
                let exiting = match game.countdown {
                    Some(Countdown::Exiting(t)) => t <= 1,
                    _ => false,
                };
                !(exiting && game.player_won()) || self.high_scores[1] < u32::MAX
            },
            _ => true,
        }
    }

    /// The score of the game being left: block catch and space shooter
    /// their score; black jack one more than the streak of wins so far if
    /// the player won, else 0; the others 0.
    pub fn score(&self) -> (score: u32)
        requires
            self.score_fits(),
        ensures
            score == self.score_spec(),
    {
        let slot = match self.game_mode.high_score_slot() {
            Some(slot) => slot,
            None => {
                return 0;
            },
        };
        match &self.game_mode {
            GameMode::Overworld => 0,
            GameMode::BlockCatch(game) => game.score,
            GameMode::BlackJack(game) => {
                if game.player_won() {
                    self.high_scores[slot as usize] + 1
                } else {
                    0
                }
            },
            GameMode::SpaceShooter(game) => game.score,
            GameMode::Sokoban(_) => 0,
        }
    }
}

impl Game {
    /// What `draw_full_screen` does from `before` and `earlier` to `self`
    /// and `later`: the overworld's screen with its high score; block
    /// catch, space shooter or sokoban as they stand; black jack dealt
    /// (see `BlackJack::dealt`).
    pub open spec fn full_screen_drawn(self, before: Game, earlier: Screen, later: Screen) -> bool {
        match before.game_mode {
            GameMode::Overworld => self.game_mode is Overworld && later@.cells
                == before.overworld.with_opposite_score(before.overworld.board(), before.high_scores),
            GameMode::BlockCatch(game) => self.game_mode == before.game_mode && later@.cells
                == game.full_screen_cells(),
            GameMode::BlackJack(table) => (self.game_mode matches GameMode::BlackJack(after)
                && after.dealt(table, before.rng.state, later@.cells)),
            GameMode::SpaceShooter(game) => self.game_mode == before.game_mode && game.shown_on(later),
            GameMode::Sokoban(game) => self.game_mode == before.game_mode && game.shown_on(
                earlier,
                later,
            ),
        }
    }

    /// Draws the whole screen of the overworld or the game; black jack
    /// deals here.
    pub fn draw_full_screen(&mut self, screen: &mut Screen)
        requires
            old(screen).wf(),
            old(self).overworld.wf(),
            old(self).game_mode.ready(),
        ensures
            final(screen).extends(*old(screen)),
            final(self).game_mode.wf(),
            final(self).overworld.wf(),
            final(self).high_scores == old(self).high_scores,
            final(self).levels == old(self).levels,
            final(self).repeat_time == old(self).repeat_time,
            final(self).game_mode.slot() == old(self).game_mode.slot(),
            final(self).game_mode.kind() == old(self).game_mode.kind(),
            !(old(self).game_mode is BlackJack) ==> final(self).rng == old(self).rng,
            final(self).overworld == old(self).overworld || old(self).game_mode is Overworld,
            final(self).dpad_right == old(self).dpad_right,
            final(self).dpad_up == old(self).dpad_up,
            final(self).dpad_left == old(self).dpad_left,
            final(self).dpad_down == old(self).dpad_down,
            final(self).full_screen_drawn(*old(self), *old(screen), *final(screen)),
            old(self).game_mode is BlackJack ==> final(self).rng.state == xorshift(
                xorshift(xorshift(old(self).rng.state)),
            ),
    {
        match &mut self.game_mode {
            GameMode::Overworld => self.overworld.draw_full_screen(screen, &self.high_scores),
            GameMode::BlockCatch(game) => game.draw_full_screen(screen),
            GameMode::BlackJack(game) => game.draw_full_screen(screen, &mut self.rng),
            GameMode::SpaceShooter(game) => game.draw_full_screen(screen),
            GameMode::Sokoban(game) => game.draw_full_screen(screen),
        }
    }

    /// The high scores after a game in slot `slot` ended with `score`: that
    /// slot holds the score where it beats the old one; the others stay.
    pub open spec fn records(self, before: Game, slot: int, score: int) -> bool {
        forall|k: int|
            0 <= k < 6 ==> #[trigger] self.high_scores[k] == if k == slot && score
                > before.high_scores[k] {
                score
            } else {
                before.high_scores[k] as int
            }
    }

    /// `self` is `before` after the overworld or the game played a frame
    /// with the pad's axes `raw` and the soft input `soft`; a game that ends
    /// leaves for the overworld and records the score it has after its last
    /// frame as its slot's high score where it beats it (see `records`), and
    /// a door of the overworld starts its game.
    pub open spec fn played_frame(self, before: Game, raw: [i8; 2], soft: [i8; 2]) -> bool {
        &&& before.game_mode is Overworld ==> exists|after: Overworld, mode: Option<GameMode>|
            #[trigger] after.walked(before.overworld, soft, before.high_scores, mode)
                && self.overworld == after && match mode {
                None => self.game_mode is Overworld,
                Some(next) => self.game_mode.kind() == next.kind() && (!(next is BlackJack)
                    ==> self.game_mode == next),
            }
        &&& before.game_mode matches GameMode::BlockCatch(game) ==> exists|
            after: BlockCatch,
            mode: Option<GameMode>,
        |
            #[trigger] after.played(game, raw, before.rng.state, self.rng.state, mode) && match mode {
                None => self.game_mode == GameMode::BlockCatch(after),
                Some(_) => self.game_mode is Overworld && self.records(before, 0, after.score as int),
            }
        &&& before.game_mode matches GameMode::BlackJack(game) ==> exists|
            after: BlackJack,
            mode: Option<GameMode>,
        |
            #[trigger] after.played(game, soft, before.rng.state, self.rng.state, mode) && match mode {
                None => self.game_mode == GameMode::BlackJack(after),
                Some(_) => self.game_mode is Overworld && self.records(
                    before,
                    1,
                    if after.player_won_spec() {
                        before.high_scores[1] + 1
                    } else {
                        0
                    },
                ),
            }
        &&& before.game_mode matches GameMode::SpaceShooter(game) ==> {
            let (state, next) = game.state().frame(raw, before.rng.state);
            match self.game_mode {
                GameMode::SpaceShooter(after) => after.state() == state && self.rng.state == next,
                _ => self.game_mode is Overworld && game.ship_health == 0 && game.exit_countdown == 1
                    && self.records(before, 2, state.score as int),
            }
        }
        &&& before.game_mode matches GameMode::Sokoban(game) ==> exists|
            after: Sokoban,
            mode: Option<GameMode>,
        |
            #[trigger] after.played(game, before.levels@, raw, soft, mode) && match mode {
                None => self.game_mode == GameMode::Sokoban(after),
                Some(_) => self.game_mode is Overworld,
            }
    }

    /// What a frame that takes `before` to `self` draws, from `earlier` to
    /// `later`: the frame of the overworld or of the game (see their
    /// `frame_drawn`, and `ShooterState::frame_cells`); a game entered from
    /// the overworld drawn whole (black jack dealt from its full deck); the
    /// overworld drawn whole, with the new high scores, when a game ends.
    pub open spec fn frame_drawn(self, before: Game, raw: [i8; 2], soft: [i8; 2], earlier: Screen, later: Screen) -> bool {
        let back = later@.cells == before.overworld.with_opposite_score(
            before.overworld.board(),
            self.high_scores,
        );
        match before.game_mode {
            GameMode::Overworld => match self.game_mode {
                GameMode::Overworld => self.overworld.frame_drawn(
                    before.overworld,
                    soft,
                    before.high_scores,
                    None,
                    earlier@.cells,
                    later@.cells,
                ),
                GameMode::BlockCatch(game) => later@.cells == game.full_screen_cells(),
                GameMode::BlackJack(after) => exists|table: BlackJack|
                    #[trigger] after.dealt(table, before.rng.state, later@.cells) && table.initial(),
                GameMode::SpaceShooter(game) => game.shown_on(later),
                GameMode::Sokoban(game) => game.shown_on(earlier, later),
            },
            GameMode::BlockCatch(game) => match self.game_mode {
                GameMode::BlockCatch(after) => after.frame_drawn(game, raw, earlier@.cells, later@.cells),
                _ => back,
            },
            GameMode::BlackJack(table) => match self.game_mode {
                GameMode::BlackJack(after) => after.frame_drawn(
                    table,
                    soft,
                    before.rng.state,
                    earlier@.cells,
                    later@.cells,
                ),
                _ => back,
            },
            GameMode::SpaceShooter(game) => match self.game_mode {
                GameMode::SpaceShooter(_) => later@.cells == game.state().frame_cells(
                    raw,
                    before.rng.state,
                    earlier@.cells,
                ),
                _ => back,
            },
            GameMode::Sokoban(game) => match self.game_mode {
                GameMode::Sokoban(after) => after.frame_drawn(game, raw, soft, earlier, later),
                _ => back,
            },
        }
    }

    /// The scores after a frame: a game that ends leaves its score as its
    /// slot's high score when it beats it; otherwise they stay.
    pub open spec fn scores_after(self, before: Game) -> bool {
        let ended = !(before.game_mode is Overworld) && self.game_mode is Overworld;
        let score = before.score_spec();
        &&& ended ==> forall|k: int|
            0 <= k < 6 ==> #[trigger] self.high_scores[k] == if before.game_mode.slot() == Some(
                k as u8,
            ) && score > before.high_scores[k] {
                score
            } else {
                before.high_scores[k]
            }
        &&& !ended ==> self.high_scores == before.high_scores
    }

    /// Plays the frame of the overworld or the game with the pad's axes
    /// `raw_input` and the soft input `soft_input`; on leaving a game,
    /// records its score as the slot's high score if it beats it, then draws
    /// what comes next.
    fn play(&mut self, screen: &mut Screen, raw_input: [i8; 2], soft_input: [i8; 2])
        requires
            old(screen).wf(),
            old(self).wf(),
            old(self).room(),
        ensures
            final(self).wf(),
            final(screen).extends(*old(screen)),
            final(self).played_frame(*old(self), raw_input, soft_input),
            final(self).frame_drawn(*old(self), raw_input, soft_input, *old(screen), *final(screen)),
            final(self).scores_after(*old(self)),
            final(self).levels == old(self).levels,
            final(self).repeat_time == old(self).repeat_time,
            final(self).dpad_right == old(self).dpad_right,
            final(self).dpad_up == old(self).dpad_up,
            final(self).dpad_left == old(self).dpad_left,
            final(self).dpad_down == old(self).dpad_down,
    {
        let ghost s0 = *screen;
        let new_mode = match &mut self.game_mode {
            GameMode::Overworld => self.overworld.update(screen, raw_input, soft_input, &self.high_scores),
            GameMode::BlockCatch(game) => game.update(screen, &mut self.rng, raw_input),
            GameMode::BlackJack(game) => game.update(screen, &mut self.rng, raw_input, soft_input),
            GameMode::SpaceShooter(game) => game.update(screen, &mut self.rng, raw_input),
            GameMode::Sokoban(game) => game.update(screen, self.levels.as_slice(), raw_input, soft_input),
        };
        match new_mode {
            Some(mode) => {
                let score = self.score();
                match self.game_mode.high_score_slot() {
                    Some(slot) => {
                        let high_score = self.high_scores[slot as usize];
                        self.high_scores[slot as usize] = if score > high_score {
                            score
                        } else {
                            high_score
                        };
                    },
                    None => {},
                }
                self.game_mode = mode;
                let ghost s1 = *screen;
                self.draw_full_screen(screen);
                proof {
                    crate::screen::lemma_extends_trans(s0, s1, *screen);
                }
            },
            None => {},
        }
    }

    /// One frame of the arcade: reads the pad (`pressed`: right, up, left,
    /// down), runs the overworld or the game, and on leaving a game records
    /// its score as the slot's high score if it beats it, then draws what
    /// comes next.
    pub fn update(&mut self, screen: &mut Screen, pressed: [bool; 4])
        requires
            old(screen).wf(),
            old(self).wf(),
            old(self).room(),
        ensures
            final(self).wf(),
            final(screen).extends(*old(screen)),
            forall|k: int| 0 <= k < 2 && -REPEAT_DELAY_FRAMES <= old(self).repeat_time[k] <= REPEAT_DELAY_FRAMES
                ==> -REPEAT_DELAY_FRAMES <= #[trigger] final(self).repeat_time[k] <= REPEAT_DELAY_FRAMES,
            // High scores never go down.
            forall|k: int| 0 <= k < 6 ==> old(self).high_scores[k] <= #[trigger] final(self).high_scores[k],
            // Only the slot of the game being left changes.
            forall|k: int|
                0 <= k < 6 && old(self).game_mode.slot() != Some(k as u8)
                    ==> #[trigger] final(self).high_scores[k] == old(self).high_scores[k],
            final(self).scores_after(*old(self)),
            final(self).levels == old(self).levels,
            // The pad: how long each button has been released, and the
            // repeat timers of the two axes.
            final(self).dpad_right.time_since_release == released_time(
                old(self).dpad_right.time_since_release,
                pressed[0],
            ),
            final(self).dpad_up.time_since_release == released_time(
                old(self).dpad_up.time_since_release,
                pressed[1],
            ),
            final(self).dpad_left.time_since_release == released_time(
                old(self).dpad_left.time_since_release,
                pressed[2],
            ),
            final(self).dpad_down.time_since_release == released_time(
                old(self).dpad_down.time_since_release,
                pressed[3],
            ),
            ({
                let held = [
                    final(self).dpad_right.time_since_release < FALLING_EDGE_TIME
                        || final(self).dpad_left.time_since_release < FALLING_EDGE_TIME,
                    final(self).dpad_down.time_since_release < FALLING_EDGE_TIME
                        || final(self).dpad_up.time_since_release < FALLING_EDGE_TIME,
                ];
                let raw = raw_axes(pressed);
                &&& final(self).repeat_time[0] == soft_step(raw[0], old(self).repeat_time[0], held[0]).1
                &&& final(self).repeat_time[1] == soft_step(raw[1], old(self).repeat_time[1], held[1]).1
                // The overworld or the game plays its frame.
                &&& final(self).played_frame(
                    *old(self),
                    raw,
                    soft_axes(old(self).repeat_time, raw, held),
                )
                // What it draws.
                &&& final(self).frame_drawn(
                    *old(self),
                    raw,
                    soft_axes(old(self).repeat_time, raw, held),
                    *old(screen),
                    *final(screen),
                )
            }),
    {
        let raw_input = self.update_raw_input(pressed);
        let soft_input = self.update_soft_input(raw_input);
        let ghost before = *self;
        proof {
            broadcast use vstd::array::group_array_axioms;

            assert(raw_input@ =~= raw_axes(pressed)@);
            assert(raw_input == raw_axes(pressed));
            let held = [
                before.dpad_right.time_since_release < FALLING_EDGE_TIME
                    || before.dpad_left.time_since_release < FALLING_EDGE_TIME,
                before.dpad_down.time_since_release < FALLING_EDGE_TIME
                    || before.dpad_up.time_since_release < FALLING_EDGE_TIME,
            ];
            assert(soft_input@ =~= soft_axes(old(self).repeat_time, raw_input, held)@);
            assert(soft_input == soft_axes(old(self).repeat_time, raw_input, held));
        }
        self.play(screen, raw_input, soft_input);
    }
}

/// Raw input 0 on an axis whose button was released fewer than
/// `FALLING_EDGE_TIME` frames ago (a bounce) keeps the axis's repeat
/// timer; only a release for good resets it. So a press, a bounce and the
/// press again within the repeat delay move once, not twice.
pub proof fn law_bounce_keeps_repeat(repeat_time: i8, held_first: bool, held_again: bool)
    ensures
        soft_step(0, repeat_time, true) == (0i8, repeat_time),
        soft_step(0, repeat_time, false) == (0i8, 0i8),
        ({
            let (first, after_press) = soft_step(1, repeat_time, held_first);
            let (bounce, after_bounce) = soft_step(0, after_press, true);
            let (again, _) = soft_step(1, after_bounce, held_again);
            first == 1 ==> bounce == 0 && again == 0
        }),
        ({
            let (first, after_press) = soft_step(-1i8, repeat_time, held_first);
            let (bounce, after_bounce) = soft_step(0, after_press, true);
            let (again, _) = soft_step(-1i8, after_bounce, held_again);
            first == -1 ==> bounce == 0 && again == 0
        }),
{
}

} // verus!
