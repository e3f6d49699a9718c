use vstd::prelude::*;
use crate::game::position::{Position, lemma_small_coordinates, lemma_row_bound, pack};
use crate::game::GameMode;
use crate::lcd::format::{num_digits, decimal_digits, digit_count, lemma_digit_count};
use crate::rng::{Rng, rng, xorshift};
use crate::screen::{Screen, score_line, written};

verus! {

broadcast use crate::screen::lemma_extends_refl;

pub const PLAYER_CHARACTER: u8 = 0;

pub const PLAYER_SHOOT_COOLDOWN: u8 = 3;

pub const MAX_HEALTH: u8 = 3;

pub const UPDATE_COOLDOWN: u8 = 20;

pub const SHIP_HEALTH_FLASH_TIME: u8 = 60;

pub const MIN_TIME: u8 = 2;

pub const MAX_TIME: u8 = 5;

/// 80% of 255.
pub const DOUBLE_SPAWN_CHANCE: u8 = 204;

pub const EXIT_COUNTDOWN: u8 = 240;

pub const TRIPLE_SHOT_COOLDOWN: u8 = 24;

/// What can fly through the two lanes.
#[derive(Copy, Clone, PartialEq, Eq, Debug, Structural)]
pub enum Object {
    Asteroid2X,
    Asteroid,
    Projectile,
    TripleProjectile,
    Beam,
    BeamDecay,
    Health,
    Point,
    BeamPowerUpCollectible,
    BeamPowerUpStored,
    TripleShotPowerUpCollectible,
    TripleShotPowerUpStored,
}

impl Object {
    /// The character code that shows the object.
    pub open spec fn code_of(self) -> u8 {
        match self {
            Object::Asteroid2X => 0xff,
            Object::Asteroid => 0x01,
            Object::Projectile => 45,
            Object::TripleProjectile => 62,
            Object::Beam => 0xb0,
            Object::BeamDecay => 61,
            Object::Health => 43,
            Object::Point => 0x04,
            Object::BeamPowerUpCollectible => 0x02,
            Object::BeamPowerUpStored => 0x0a,
            Object::TripleShotPowerUpCollectible => 0x03,
            Object::TripleShotPowerUpStored => 0x0b,
        }
    }

    pub fn code(self) -> (code: u8)
        ensures
            code == self.code_of(),
    {
        match self {
            Object::Asteroid2X => 0xff,
            Object::Asteroid => 0x01,
            Object::Projectile => 45,
            Object::TripleProjectile => 62,
            Object::Beam => 0xb0,
            Object::BeamDecay => 61,
            Object::Health => 43,
            Object::Point => 0x04,
            Object::BeamPowerUpCollectible => 0x02,
            Object::BeamPowerUpStored => 0x0a,
            Object::TripleShotPowerUpCollectible => 0x03,
            Object::TripleShotPowerUpStored => 0x0b,
        }
    }

    /// The object that a roll `roll` (0 to 99) spawns: 25% asteroid, 50%
    /// double asteroid, 18% point, 2% health, 3% beam, 2% triple shot.
    pub open spec fn of_roll(roll: u32) -> Object {
        if roll < 25 {
            Object::Asteroid
        } else if roll < 75 {
            Object::Asteroid2X
        } else if roll < 93 {
            Object::Point
        } else if roll < 95 {
            Object::Health
        } else if roll < 98 {
            Object::BeamPowerUpCollectible
        } else {
            Object::TripleShotPowerUpCollectible
        }
    }

    /// A random object to spawn.
    pub fn random(generator: &mut Rng) -> (object: Object)
        ensures
            final(generator).state == xorshift(old(generator).state),
            object == Object::of_roll(xorshift(old(generator).state) % 100),
    {
        let roll = rng(generator) % 100;
        if roll < 25 {
            Object::Asteroid
        } else if roll < 75 {
            Object::Asteroid2X
        } else if roll < 93 {
            Object::Point
        } else if roll < 95 {
            Object::Health
        } else if roll < 98 {
            Object::BeamPowerUpCollectible
        } else {
            Object::TripleShotPowerUpCollectible
        }
    }

    pub open spec fn is_projectile_spec(self) -> bool {
        self == Object::Projectile || self == Object::TripleProjectile
    }

    pub fn is_projectile(self) -> (projectile: bool)
        ensures
            projectile == self.is_projectile_spec(),
    {
        self == Object::Projectile || self == Object::TripleProjectile
    }

    pub open spec fn stored_power_up(self) -> Option<Object> {
        match self {
            Object::BeamPowerUpCollectible | Object::BeamPowerUpStored => Some(
                Object::BeamPowerUpStored,
            ),
            Object::TripleShotPowerUpCollectible | Object::TripleShotPowerUpStored => Some(
                Object::TripleShotPowerUpStored,
            ),
            _ => None,
        }
    }

    /// The stored form of a power up; `None` for anything else.
    pub fn into_stored_power_up(self) -> (stored: Option<Object>)
        ensures
            stored == self.stored_power_up(),
    {
        match self {
            Object::BeamPowerUpCollectible | Object::BeamPowerUpStored => Some(
                Object::BeamPowerUpStored,
            ),
            Object::TripleShotPowerUpCollectible | Object::TripleShotPowerUpStored => Some(
                Object::TripleShotPowerUpStored,
            ),
            _ => None,
        }
    }

    pub fn is_stored_power_up(self) -> (stored: bool)
        ensures
            stored == (self == Object::BeamPowerUpStored || self
                == Object::TripleShotPowerUpStored),
    {
        self == Object::BeamPowerUpStored || self == Object::TripleShotPowerUpStored
    }
}

/// The byte shown for a lane cell.
pub open spec fn cell_byte(object: Option<Object>) -> u8 {
    match object {
        Some(o) => o.code_of(),
        None => 32,
    }
}

/// What `set_object` leaves in a cell that held `target` when `object` is
/// put there: asteroids shrink when anything hits them, projectiles and
/// beams only give way to asteroids (which they shrink), anything else is
/// replaced.
pub open spec fn after_set(target: Option<Object>, object: Option<Object>) -> Option<Object> {
    match target {
        Some(Object::Asteroid2X) => Some(Object::Asteroid),
        Some(Object::Asteroid) => None,
        Some(Object::Projectile) | Some(Object::TripleProjectile) | Some(Object::Beam) | Some(
            Object::BeamDecay,
        ) => match object {
            Some(Object::Asteroid2X) => Some(Object::Asteroid),
            Some(Object::Asteroid) => None,
            _ => target,
        },
        _ => object,
    }
}

/// Whether `set_object` put the object in place.
pub open spec fn set_succeeds(target: Option<Object>) -> bool {
    match target {
        Some(Object::Asteroid2X) | Some(Object::Asteroid) | Some(Object::Projectile) | Some(
            Object::TripleProjectile,
        ) | Some(Object::Beam) | Some(Object::BeamDecay) => false,
        _ => true,
    }
}

/// Whether a lane cell holds a projectile.
pub open spec fn holds_projectile(cell: Option<Object>) -> bool {
    match cell {
        Some(o) => o.is_projectile_spec(),
        None => false,
    }
}

/// The first column from `k` on that holds no projectile, or 16.
pub open spec fn past_projectiles(lane: Seq<Option<Object>>, k: int) -> int
    decreases 16 - k,
{
    if k >= 16 {
        k
    } else if holds_projectile(lane[k]) {
        past_projectiles(lane, k + 1)
    } else {
        k
    }
}

/// The scan past projectiles stops between `k` and the lane's end.
pub proof fn lemma_past_projectiles(lane: Seq<Option<Object>>, k: int)
    requires
        k <= 16,
    ensures
        k <= past_projectiles(lane, k) <= 16,
    decreases 16 - k,
{
    if k < 16 && holds_projectile(lane[k]) {
        lemma_past_projectiles(lane, k + 1);
    }
}

/// What an object becomes when its lane moves: a beam decays, anything
/// else stays what it is.
pub open spec fn moved_object(object: Object) -> Object {
    if object == Object::Beam {
        Object::BeamDecay
    } else {
        object
    }
}

/// Where `object`, taken out of column `i` of `lane`, goes: stored power
/// ups and beams stay, decayed beams vanish, projectiles fly to the first
/// column past the projectiles in front of them, everything else moves one
/// column left; `None` where it leaves the lane.
pub open spec fn step_target(lane: Seq<Option<Object>>, object: Object, i: int) -> Option<int> {
    match object {
        Object::BeamPowerUpStored | Object::TripleShotPowerUpStored | Object::Beam => Some(i),
        Object::BeamDecay => None,
        Object::Projectile | Object::TripleProjectile => {
            let n = past_projectiles(lane, i + 1);
            if n < 16 {
                Some(n)
            } else {
                None
            }
        },
        _ => if i > 0 {
            Some(i - 1)
        } else {
            None
        },
    }
}

/// The column after which the scan of a lane goes on once the object at
/// column `i` has moved: past the projectiles that a projectile flew by.
pub open spec fn step_resume(lane: Seq<Option<Object>>, object: Object, i: int) -> int {
    if object.is_projectile_spec() {
        past_projectiles(lane, i + 1) - 1
    } else {
        i
    }
}

/// One step of the scan of a lane at column `i`: the lane after the object
/// there (if any) has moved, and the column the scan goes on at. A
/// projectile that took its place is stepped over.
pub open spec fn lane_step(lane: Seq<Option<Object>>, i: int) -> (Seq<Option<Object>>, int) {
    match lane[i] {
        None => (lane, i + 1),
        Some(object) => {
            let cleared = lane.update(i, None);
            let resume = step_resume(cleared, object, i);
            let moved = moved_object(object);
            match step_target(cleared, object, i) {
                Some(n) => (
                    cleared.update(n, after_set(cleared[n], Some(moved))),
                    if set_succeeds(cleared[n]) && moved.is_projectile_spec() {
                        resume + 2
                    } else {
                        resume + 1
                    },
                ),
                None => (cleared, resume + 1),
            }
        },
    }
}

/// A step of the lane scan goes forward and keeps the lane's length.
pub proof fn lemma_lane_step(lane: Seq<Option<Object>>, i: int)
    requires
        0 <= i < 16,
        lane.len() == 16,
    ensures
        i < lane_step(lane, i).1 <= 17,
        lane_step(lane, i).0.len() == 16,
{
    if lane[i] is Some {
        lemma_past_projectiles(lane.update(i, None), i + 1);
    }
}

/// A lane after one move: every object from column `i` on has taken its
/// step, from left to right.
pub open spec fn lane_scan(lane: Seq<Option<Object>>, i: int) -> Seq<Option<Object>>
    decreases 17 - i,
{
    if i < 0 || i >= 16 || lane.len() != 16 {
        lane
    } else {
        proof {
            lemma_lane_step(lane, i);
        }
        lane_scan(lane_step(lane, i).0, lane_step(lane, i).1)
    }
}

/// The columns that one step of the lane scan at column `i` writes: the
/// object's own column, cleared, and the column it moves to.
pub open spec fn step_touched(lane: Seq<Option<Object>>, i: int) -> Set<int> {
    match lane[i] {
        None => Set::empty(),
        Some(object) => match step_target(lane.update(i, None), object, i) {
            Some(n) => set![i, n],
            None => set![i],
        },
    }
}

/// The columns that the scan of a lane from column `i` on writes.
pub open spec fn lane_touched(lane: Seq<Option<Object>>, i: int) -> Set<int>
    decreases 17 - i,
{
    if i < 0 || i >= 16 || lane.len() != 16 {
        Set::empty()
    } else {
        proof {
            lemma_lane_step(lane, i);
        }
        step_touched(lane, i) + lane_touched(lane_step(lane, i).0, lane_step(lane, i).1)
    }
}

/// What the rules of a space shooter frame read and write: the fields of
/// `SpaceShooter`, with the ship by its column and row and the lanes as
/// sequences, `lanes[row][column]`.
#[verifier::ext_equal]
pub ghost struct ShooterState {
    pub ship_column: u8,
    pub ship_row: u8,
    pub ship_health: u8,
    pub ship_health_flash_time: u8,
    pub shoot_row: Option<u8>,
    pub shoot_released: u8,
    pub shoot_cooldown: i8,
    pub triple_shot_cooldown: u8,
    pub spawn_cooldown: u8,
    pub update_cooldown: u8,
    pub lanes: Seq<Seq<Option<Object>>>,
    pub exit_countdown: u8,
    pub score: u32,
}

impl ShooterState {
    pub open spec fn cell(self, c: int, r: int) -> Option<Object> {
        self.lanes[r][c]
    }

    pub open spec fn with_cell(self, c: int, r: int, object: Option<Object>) -> ShooterState {
        ShooterState { lanes: self.lanes.update(r, self.lanes[r].update(c, object)), ..self }
    }

    /// The state after `set_object` puts `object` at `c`, `r`.
    pub open spec fn set(self, c: int, r: int, object: Option<Object>) -> ShooterState {
        self.with_cell(c, r, after_set(self.cell(c, r), object))
    }

    /// The ship takes whatever is in its cell (see
    /// `SpaceShooter::update_ship_collision`).
    pub open spec fn collided(self) -> ShooterState {
        let r = self.ship_row as int;
        match self.cell(1, r) {
            None => self,
            Some(hit) => {
                let cleared = self.with_cell(1, r, None);
                let h = self.ship_health;
                match hit {
                    Object::Asteroid2X | Object::Asteroid => if self.ship_health_flash_time == 0 {
                        ShooterState {
                            ship_health: if h > 0 {
                                (h - 1) as u8
                            } else {
                                0
                            },
                            ship_health_flash_time: SHIP_HEALTH_FLASH_TIME,
                            ..cleared
                        }
                    } else {
                        cleared
                    },
                    Object::Health => if h < MAX_HEALTH {
                        ShooterState {
                            ship_health: (h + 1) as u8,
                            ship_health_flash_time: SHIP_HEALTH_FLASH_TIME,
                            ..cleared
                        }
                    } else {
                        ShooterState { score: (self.score + 1) as u32, ..cleared }
                    },
                    Object::BeamPowerUpCollectible | Object::TripleShotPowerUpCollectible => cleared.with_cell(
                        0,
                        r,
                        hit.stored_power_up(),
                    ),
                    Object::Point => ShooterState { score: (self.score + 1) as u32, ..cleared },
                    _ => cleared,
                }
            },
        }
    }

    /// The stored power up of the ship's lane fires (see
    /// `SpaceShooter::use_power_up`).
    pub open spec fn powered_up(self) -> ShooterState {
        let r = self.ship_row as int;
        match self.cell(0, r) {
            Some(Object::BeamPowerUpStored) => ShooterState {
                lanes: self.lanes.update(
                    r,
                    Seq::new(
                        16,
                        |i: int|
                            if i == 0 {
                                None
                            } else if i == 1 {
                                self.cell(1, r)
                            } else {
                                Some(Object::Beam)
                            },
                    ),
                ),
                ..self
            },
            Some(Object::TripleShotPowerUpStored) => ShooterState {
                triple_shot_cooldown: TRIPLE_SHOT_COOLDOWN,
                ..self.with_cell(0, r, None)
            },
            _ => self,
        }
    }

    /// The ship moves to row 1 (`vertical` 1) or row 0 (-1) and takes what
    /// it flew into.
    pub open spec fn ship_moved(self, vertical: i8) -> ShooterState {
        if vertical == 1 || vertical == -1 {
            ShooterState {
                ship_row: if vertical == 1 {
                    1
                } else {
                    0
                },
                ..self
            }.collided()
        } else {
            self
        }
    }

    /// Right queues a shot from the ship's row once it was released for a
    /// few frames and no triple shot is under way.
    pub open spec fn shot_queued(self, horizontal: i8) -> ShooterState {
        if horizontal == 1 {
            ShooterState {
                shoot_row: if self.shoot_released > 2 && self.shoot_cooldown >= 0 {
                    Some(self.ship_row)
                } else {
                    self.shoot_row
                },
                shoot_released: 0,
                ..self
            }
        } else {
            ShooterState { shoot_released: ((self.shoot_released + 1) % 256) as u8, ..self }
        }
    }

    /// The next shot leaves column 2 (see `SpaceShooter::update_ship_shooting`).
    pub open spec fn fired(self, horizontal: i8) -> ShooterState {
        let cd = self.shoot_cooldown;
        let control = horizontal == 1 || self.shoot_row is Some;
        if cd > 0 {
            ShooterState { shoot_cooldown: (cd - 1) as i8, ..self }
        } else if !(control || cd < 0) {
            self
        } else {
            let cd1 = if control && self.triple_shot_cooldown > 0 && cd == 0 {
                -3
            } else {
                cd as int
            };
            let cd2 = if cd1 < 0 {
                cd1 + 1
            } else {
                cd1
            };
            let cd3 = if cd2 == 0 {
                2
            } else {
                cd2
            };
            let row = match self.shoot_row {
                Some(r) => r as int,
                None => self.ship_row as int,
            };
            let projectile = if self.triple_shot_cooldown > 0 || cd3 < 0 {
                Object::TripleProjectile
            } else {
                Object::Projectile
            };
            ShooterState { shoot_cooldown: cd3 as i8, shoot_row: None, ..self }.set(
                2,
                row,
                Some(projectile),
            )
        }
    }

    /// Lane `row` moves one step (see `lane_scan`).
    pub open spec fn lane_moved(self, row: int) -> ShooterState {
        ShooterState { lanes: self.lanes.update(row, lane_scan(self.lanes[row], 0)), ..self }
    }

    /// Both lanes move one step, the top one first.
    pub open spec fn lanes_moved(self) -> ShooterState {
        self.lane_moved(0).lane_moved(1)
    }

    /// New objects come in at column 15 when the spawn cooldown runs out
    /// (see `SpaceShooter::spawn_objects`); also the generator's next state.
    pub open spec fn spawned(self, state: u32) -> (ShooterState, u32) {
        if self.spawn_cooldown > 0 {
            (ShooterState { spawn_cooldown: (self.spawn_cooldown - 1) as u8, ..self }, state)
        } else {
            let x1 = xorshift(state);
            let x2 = xorshift(x1);
            let x3 = xorshift(x2);
            let x4 = xorshift(x3);
            let x5 = xorshift(x4);
            let x6 = xorshift(x5);
            let row = ((x2 as u8) & 1u8) as int;
            let first = Object::of_roll(x3 % 100);
            let retry = Object::of_roll(x5 % 100) == first;
            let second = if retry {
                Object::of_roll(x6 % 100)
            } else {
                Object::of_roll(x5 % 100)
            };
            let one = ShooterState { spawn_cooldown: (1 + x1 % 4) as u8, ..self }.set(
                15,
                row,
                Some(first),
            );
            if (x4 as u8) < DOUBLE_SPAWN_CHANCE {
                (
                    one.set(15, 1 - row, Some(second)),
                    if retry {
                        x6
                    } else {
                        x5
                    },
                )
            } else {
                (one, x4)
            }
        }
    }

    /// The work of every `UPDATE_COOLDOWN`-th frame: fire, move the lanes,
    /// spawn, take what the ship met, and count down the triple shot.
    pub open spec fn stepped(self, horizontal: i8, state: u32) -> (ShooterState, u32) {
        let (spawned, next) = self.fired(horizontal).lanes_moved().spawned(state);
        let hit = spawned.collided();
        (
            ShooterState {
                triple_shot_cooldown: if hit.triple_shot_cooldown > 0 {
                    (hit.triple_shot_cooldown - 1) as u8
                } else {
                    0
                },
                update_cooldown: (UPDATE_COOLDOWN - 1) as u8,
                ..hit
            },
            next,
        )
    }

    /// One frame of the space shooter with input `raw_input` and generator
    /// state `state`: the state after it, and the generator's state.
    pub open spec fn frame(self, raw_input: [i8; 2], state: u32) -> (ShooterState, u32) {
        if self.ship_health == 0 {
            (ShooterState { exit_countdown: (self.exit_countdown - 1) as u8, ..self }, state)
        } else {
            let (after, next) = self.flown(raw_input, state);
            (
                ShooterState {
                    ship_health_flash_time: if after.ship_health_flash_time > 0 {
                        (after.ship_health_flash_time - 1) as u8
                    } else {
                        0
                    },
                    ..after
                },
                next,
            )
        }
    }

    /// A frame of the space shooter with the ship alive, up to the count
    /// down of its flashing: power up, move, queue a shot, and every
    /// `UPDATE_COOLDOWN`-th frame the work of `stepped`.
    pub open spec fn flown(self, raw_input: [i8; 2], state: u32) -> (ShooterState, u32) {
        let powered = if raw_input[0] == -1 {
            self.powered_up()
        } else {
            self
        };
        let queued = powered.ship_moved(raw_input[1]).shot_queued(raw_input[0]);
        if queued.update_cooldown > 0 {
            (ShooterState { update_cooldown: (queued.update_cooldown - 1) as u8, ..queued }, state)
        } else {
            queued.stepped(raw_input[0], state)
        }
    }

    /// What shows the ship: the ship, or its health (up to 9) while it
    /// flashes.
    pub open spec fn glyph(self) -> u8 {
        if self.ship_health_flash_time == 0 {
            PLAYER_CHARACTER
        } else {
            (48 + if self.ship_health < 9 {
                self.ship_health
            } else {
                9u8
            }) as u8
        }
    }

    /// The cells after `powered_up`: a beam draws dashes along the ship's
    /// lane from column 2; the stored power up's cell is cleared.
    pub open spec fn powered_up_cells(self, cells: Seq<u8>) -> Seq<u8> {
        let r = self.ship_row as int;
        match self.cell(0, r) {
            Some(Object::BeamPowerUpStored) => Seq::new(
                32,
                |k: int|
                    if k == 16 * r {
                        32u8
                    } else if 16 * r + 2 <= k < 16 * r + 16 {
                        45u8
                    } else {
                        cells[k]
                    },
            ),
            Some(Object::TripleShotPowerUpStored) => cells.update(16 * r, 32u8),
            _ => cells,
        }
    }

    /// The cells after `collided`: where the ship met something, the ship
    /// is redrawn, and a power up it picked up shows in column 0.
    pub open spec fn collided_cells(self, cells: Seq<u8>) -> Seq<u8> {
        let r = self.ship_row as int;
        let hit = self.cell(1, r);
        let after = self.collided();
        if hit is None {
            cells
        } else {
            let drawn = cells.update(16 * r + 1, after.glyph());
            if hit == Some(Object::BeamPowerUpCollectible) || hit == Some(
                Object::TripleShotPowerUpCollectible,
            ) {
                drawn.update(16 * r, cell_byte(after.cell(0, r)))
            } else {
                drawn
            }
        }
    }

    /// The cells after `ship_moved`: the ship's old cell is blanked, the
    /// ship drawn in its new row, and what it flew into taken.
    pub open spec fn ship_moved_cells(self, vertical: i8, cells: Seq<u8>) -> Seq<u8> {
        if vertical == 1 || vertical == -1 {
            let moved = ShooterState {
                ship_row: if vertical == 1 {
                    1
                } else {
                    0
                },
                ..self
            };
            moved.collided_cells(
                cells.update(16 * self.ship_row + 1, 32u8).update(
                    16 * moved.ship_row + 1,
                    moved.glyph(),
                ),
            )
        } else {
            cells
        }
    }

    /// The cells after a press to the right in a frame: the shot shows at
    /// once in front of the ship when it can leave now.
    pub open spec fn queued_cells(self, horizontal: i8, cells: Seq<u8>) -> Seq<u8> {
        let r = self.ship_row as int;
        if horizontal == 1 && self.shoot_released > 2 && self.shoot_cooldown == 0 && self.cell(
            2,
            r,
        ) is None {
            cells.update(
                16 * r + 2,
                if self.triple_shot_cooldown == 0 {
                    Object::Projectile.code_of()
                } else {
                    Object::TripleProjectile.code_of()
                },
            )
        } else {
            cells
        }
    }

    /// The cells after `fired`: the cell in column 2 that a shot leaves
    /// from is redrawn.
    pub open spec fn fired_cells(self, horizontal: i8, cells: Seq<u8>) -> Seq<u8> {
        let cd = self.shoot_cooldown;
        let control = horizontal == 1 || self.shoot_row is Some;
        if cd <= 0 && (control || cd < 0) {
            let row = match self.shoot_row {
                Some(r) => r as int,
                None => self.ship_row as int,
            };
            cells.update(16 * row + 2, cell_byte(self.fired(horizontal).cell(2, row)))
        } else {
            cells
        }
    }

    /// The cells after `lane_moved(row)`: every column that the scan wrote
    /// shows the lane's new object there.
    pub open spec fn lane_moved_cells(self, row: int, cells: Seq<u8>) -> Seq<u8> {
        Seq::new(
            32,
            |k: int|
                if k / 16 == row && lane_touched(self.lanes[row], 0).contains(k % 16) {
                    cell_byte(self.lane_moved(row).cell(k % 16, row))
                } else {
                    cells[k]
                },
        )
    }

    /// The cells after `lanes_moved`.
    pub open spec fn lanes_moved_cells(self, cells: Seq<u8>) -> Seq<u8> {
        self.lane_moved(0).lane_moved_cells(1, self.lane_moved_cells(0, cells))
    }

    /// The cells after `spawned(state)`: the cells in column 15 where
    /// objects came in are redrawn.
    pub open spec fn spawned_cells(self, state: u32, cells: Seq<u8>) -> Seq<u8> {
        if self.spawn_cooldown > 0 {
            cells
        } else {
            let x2 = xorshift(xorshift(state));
            let x4 = xorshift(xorshift(x2));
            let row = ((x2 as u8) & 1u8) as int;
            let after = self.spawned(state).0;
            let one = cells.update(16 * row + 15, cell_byte(after.cell(15, row)));
            if (x4 as u8) < DOUBLE_SPAWN_CHANCE {
                one.update(16 * (1 - row) + 15, cell_byte(after.cell(15, 1 - row)))
            } else {
                one
            }
        }
    }

    /// The cells after `stepped(horizontal, state)`.
    pub open spec fn stepped_cells(self, horizontal: i8, state: u32, cells: Seq<u8>) -> Seq<u8> {
        let fired = self.fired(horizontal);
        let moved = fired.lanes_moved();
        moved.spawned(state).0.collided_cells(
            moved.spawned_cells(state, fired.lanes_moved_cells(self.fired_cells(horizontal, cells))),
        )
    }

    /// The cells after `frame(raw_input, state)`: once the ship is gone,
    /// the score, shown in the first frame of the countdown; else the
    /// drawing of each part of the frame in turn, and the ship drawn plain
    /// when its flashing ends.
    pub open spec fn frame_cells(self, raw_input: [i8; 2], state: u32, cells: Seq<u8>) -> Seq<u8> {
        if self.ship_health == 0 {
            if self.exit_countdown == EXIT_COUNTDOWN {
                written(
                    cells,
                    2,
                    0,
                    score_line(seq![83u8, 99, 111, 114, 101, 58, 32, 4], self.score),
                )
            } else {
                cells
            }
        } else {
            let powered = if raw_input[0] == -1 {
                self.powered_up()
            } else {
                self
            };
            let c1 = if raw_input[0] == -1 {
                self.powered_up_cells(cells)
            } else {
                cells
            };
            let moved = powered.ship_moved(raw_input[1]);
            let c2 = moved.queued_cells(raw_input[0], powered.ship_moved_cells(raw_input[1], c1));
            let queued = moved.shot_queued(raw_input[0]);
            let (after, c3) = if queued.update_cooldown > 0 {
                (queued, c2)
            } else {
                (queued.stepped(raw_input[0], state).0, queued.stepped_cells(raw_input[0], state, c2))
            };
            if after.ship_health_flash_time == 1 {
                c3.update(16 * after.ship_row + 1, PLAYER_CHARACTER)
            } else {
                c3
            }
        }
    }
}

/// The lanes of `shooter` are `expected`'s where every cell agrees.
proof fn lemma_state_lanes(shooter: SpaceShooter, expected: ShooterState)
    requires
        expected.lanes.len() == 2,
        expected.lanes[0].len() == 16,
        expected.lanes[1].len() == 16,
        forall|c: int, r: int|
            0 <= c < 16 && 0 <= r < 2 ==> #[trigger] shooter.obj(c, r) == expected.cell(c, r),
    ensures
        shooter.state().lanes == expected.lanes,
{
    broadcast use vstd::array::group_array_axioms;

    assert forall|r: int| 0 <= r < 2 implies #[trigger] shooter.state().lanes[r] =~= expected.lanes[r] by {
        assert forall|c: int| 0 <= c < 16 implies shooter.state().lanes[r][c] == expected.lanes[r][c] by {
            assert(shooter.obj(c, r) == expected.cell(c, r));
        }
    }
    assert(shooter.state().lanes[0] =~= expected.lanes[0]);
    assert(shooter.state().lanes[1] =~= expected.lanes[1]);
    assert(shooter.state().lanes =~= expected.lanes);
}

pub struct SpaceShooter {
    pub ship_position: Position,
    pub ship_health: u8,
    pub ship_health_flash_time: u8,
    pub shoot_row: Option<u8>,
    pub shoot_released: u8,
    pub shoot_cooldown: i8,
    pub triple_shot_cooldown: u8,
    pub spawn_cooldown: u8,
    pub update_cooldown: u8,
    /// `objects[row][column]`.
    pub objects: [[Option<Object>; 16]; 2],
    pub exit_countdown: u8,
    pub score: u32,
}

impl SpaceShooter {
    pub open spec fn obj(self, c: int, r: int) -> Option<Object> {
        self.objects[r][c]
    }

    /// What shows the ship: the ship, or its health (up to 9) while it
    /// flashes.
    pub open spec fn ship_glyph(self) -> u8 {
        if self.ship_health_flash_time == 0 {
            PLAYER_CHARACTER
        } else {
            (48 + if self.ship_health < 9 {
                self.ship_health
            } else {
                9u8
            }) as u8
        }
    }

    /// The shooter as the frame rules see it.
    pub open spec fn state(self) -> ShooterState {
        ShooterState {
            ship_column: self.ship_position.column_of(),
            ship_row: self.ship_position.row_of(),
            ship_health: self.ship_health,
            ship_health_flash_time: self.ship_health_flash_time,
            shoot_row: self.shoot_row,
            shoot_released: self.shoot_released,
            shoot_cooldown: self.shoot_cooldown,
            triple_shot_cooldown: self.triple_shot_cooldown,
            spawn_cooldown: self.spawn_cooldown,
            update_cooldown: self.update_cooldown,
            lanes: Seq::new(2, |r: int| self.objects[r]@),
            exit_countdown: self.exit_countdown,
            score: self.score,
        }
    }

    pub open spec fn wf(self) -> bool {
        &&& self.ship_position.column_of() == 1
        &&& self.ship_health <= MAX_HEALTH
        &&& self.shoot_row matches Some(r) ==> r < 2
        &&& 1 <= self.exit_countdown <= EXIT_COUNTDOWN
    }

    /// Every field but the lanes is the same in `self` and `other`.
    pub open spec fn same_ship(self, other: SpaceShooter) -> bool {
        &&& self.ship_position == other.ship_position
        &&& self.ship_health == other.ship_health
        &&& self.ship_health_flash_time == other.ship_health_flash_time
        &&& self.shoot_row == other.shoot_row
        &&& self.shoot_released == other.shoot_released
        &&& self.shoot_cooldown == other.shoot_cooldown
        &&& self.triple_shot_cooldown == other.triple_shot_cooldown
        &&& self.spawn_cooldown == other.spawn_cooldown
        &&& self.update_cooldown == other.update_cooldown
        &&& self.exit_countdown == other.exit_countdown
        &&& self.score == other.score
    }

    /// The lanes of `self` and `other` differ at most at `c`, `r`.
    pub open spec fn same_objects_except(self, other: SpaceShooter, c: int, r: int) -> bool {
        forall|i: int, j: int|
            0 <= i < 16 && 0 <= j < 2 && (i != c || j != r) ==> #[trigger] self.objects[j][i]
                == other.objects[j][i]
    }

    /// The shooter as it starts: the ship in the top lane at full health,
    /// empty lanes, every timer at rest, no score.
    pub open spec fn initial(self) -> bool {
        &&& self.wf()
        &&& self.ship_position.column_of() == 1
        &&& self.ship_position.row_of() == 0
        &&& self.ship_health == MAX_HEALTH
        &&& self.ship_health_flash_time == 0
        &&& self.shoot_row is None
        &&& self.shoot_released == 255
        &&& self.shoot_cooldown == 0
        &&& self.triple_shot_cooldown == 0
        &&& self.spawn_cooldown == 0
        &&& self.update_cooldown == 0
        &&& forall|c: int, r: int| 0 <= c < 16 && 0 <= r < 2 ==> self.obj(c, r) is None
        &&& self.exit_countdown == EXIT_COUNTDOWN
        &&& self.score == 0
    }

    pub fn default() -> (shooter: Self)
        ensures
            shooter.initial(),
    {
        let ship_position = Position::new(1, 0);
        proof {
            lemma_small_coordinates(1, 0);
        }
        SpaceShooter {
            ship_position,
            ship_health: MAX_HEALTH,
            ship_health_flash_time: 0,
            shoot_row: None,
            shoot_released: 255,
            shoot_cooldown: 0,
            triple_shot_cooldown: 0,
            spawn_cooldown: 0,
            update_cooldown: 0,
            objects: [[None; 16]; 2],
            exit_countdown: EXIT_COUNTDOWN,
            score: 0,
        }
    }

    /// The object at `position`.
    pub fn index(&self, position: Position) -> (object: Option<Object>)
        requires
            position.column_of() < 16,
        ensures
            object == self.obj(position.column_of() as int, position.row_of() as int),
    {
        proof {
            lemma_row_bound(1, position.bits());
        }
        self.objects[position.row() as usize][position.column() as usize]
    }

    /// Puts `object` at `position`.
    pub fn put(&mut self, position: Position, object: Option<Object>)
        requires
            position.column_of() < 16,
        ensures
            final(self).obj(position.column_of() as int, position.row_of() as int) == object,
            final(self).same_objects_except(*old(self), position.column_of() as int, position.row_of() as int),
            final(self).same_ship(*old(self)),
    {
        proof {
            lemma_row_bound(1, position.bits());
        }
        self.objects[position.row() as usize][position.column() as usize] = object;
    }

    /// Draws the ship, or its health while the health flashes.
    pub fn draw_player(&self, screen: &mut Screen)
        requires
            old(screen).wf(),
        ensures
            final(screen).extends(*old(screen)),
            final(screen)@.character_set == old(screen)@.character_set,
            self.ship_position.column_of() < 16 ==> final(screen).cell(
                self.ship_position.column_of() as int,
                self.ship_position.row_of() as int,
            ) == if self.ship_health_flash_time == 0 {
                PLAYER_CHARACTER
            } else {
                (48 + if self.ship_health < 9 {
                    self.ship_health
                } else {
                    9u8
                }) as u8
            },
            forall|k: int|
                0 <= k < 32 && k != crate::screen::cell_index(
                    self.ship_position.column_of() as int,
                    self.ship_position.row_of() as int,
                ) ==> final(screen)@.cells[k] == old(screen)@.cells[k],
    {
        proof {
            lemma_row_bound(1, self.ship_position.bits());
        }
        let ghost s0 = *screen;
        screen.set_cursor(self.ship_position);
        let byte = if self.ship_health_flash_time == 0 {
            PLAYER_CHARACTER
        } else {
            48 + if self.ship_health < 9 {
                self.ship_health
            } else {
                9
            }
        };
        let ghost s1 = *screen;
        screen.write(byte);
        proof {
            crate::screen::lemma_extends_trans(s0, s1, *screen);
        }
    }

    /// Puts `object` at `position` by the rules of `after_set`, redraws the
    /// cell, and tells whether the object took the place.
    pub fn set_object(&mut self, screen: &mut Screen, position: Position, object: Option<Object>) -> (success:
        bool)
        requires
            old(screen).wf(),
            position.column_of() < 16,
        ensures
            final(screen).extends(*old(screen)),
            final(screen)@.character_set == old(screen)@.character_set,
            ({
                let c = position.column_of() as int;
                let r = position.row_of() as int;
                let target = old(self).obj(c, r);
                &&& final(self).obj(c, r) == after_set(target, object)
                &&& success == set_succeeds(target)
                &&& final(self).same_objects_except(*old(self), c, r)
                &&& final(screen).cell(c, r) == cell_byte(after_set(target, object))
                &&& forall|k: int|
                    0 <= k < 32 && k != crate::screen::cell_index(c, r)
                        ==> #[trigger] final(screen)@.cells[k] == old(screen)@.cells[k]
            }),
            final(self).same_ship(*old(self)),
            final(self).state() == old(self).state().set(
                position.column_of() as int,
                position.row_of() as int,
                object,
            ),
    {
        proof {
            lemma_row_bound(1, position.bits());
        }
        let target = self.index(position);
        let mut success = false;
        let new_value = match target {
            Some(Object::Asteroid2X) => Some(Object::Asteroid),
            Some(Object::Asteroid) => None,
            Some(Object::Projectile) | Some(Object::TripleProjectile) | Some(Object::Beam) | Some(
                Object::BeamDecay,
            ) => match object {
                Some(Object::Asteroid2X) => Some(Object::Asteroid),
                Some(Object::Asteroid) => None,
                _ => target,
            },
            _ => {
                success = true;
                object
            },
        };
        self.put(position, new_value);
        let ghost s0 = *screen;
        screen.set_cursor(position);
        let byte = match new_value {
            Some(o) => o.code(),
            None => 32u8,
        };
        let ghost s1 = *screen;
        screen.write(byte);
        proof {
            crate::screen::lemma_extends_trans(s0, s1, *screen);
            lemma_state_lanes(
                *self,
                old(self).state().set(position.column_of() as int, position.row_of() as int, object),
            );
        }
        success
    }
    /// Takes whatever the ship flew into: asteroids cost a health point
    /// (unless the ship is still flashing), health restores one (or scores
    /// a point at full health), power ups are stored in column 0, points
    /// score. Redraws the ship when it hit something.
    pub fn update_ship_collision(&mut self, screen: &mut Screen)
        requires
            old(self).wf(),
            old(screen).wf(),
            ({
                let hit = old(self).obj(
                    old(self).ship_position.column_of() as int,
                    old(self).ship_position.row_of() as int,
                );
                hit == Some(Object::Point) || (hit == Some(Object::Health) && old(self).ship_health
                    >= MAX_HEALTH)
            }) ==> old(self).score < u32::MAX,
        ensures
            final(self).wf(),
            ({
                let r = old(self).ship_position.row_of() as int;
                &&& old(self).obj(1, r) is None ==> final(screen)@.cells == old(screen)@.cells
                &&& old(self).obj(1, r) is Some ==> final(screen).cell(1, r) == final(self).ship_glyph()
                &&& old(self).obj(1, r) is Some ==> final(screen).cell(0, r) == if old(self).obj(1, r)
                    == Some(Object::BeamPowerUpCollectible) || old(self).obj(1, r) == Some(
                    Object::TripleShotPowerUpCollectible,
                ) {
                    cell_byte(final(self).obj(0, r))
                } else {
                    old(screen).cell(0, r)
                }
                &&& forall|k: int|
                    0 <= k < 32 && k != 16 * r && k != 16 * r + 1
                        ==> #[trigger] final(screen)@.cells[k] == old(screen)@.cells[k]
            }),
            final(self).state() == old(self).state().collided(),
            final(screen).extends(*old(screen)),
            final(screen)@.character_set == old(screen)@.character_set,
            final(self).ship_position == old(self).ship_position,
            final(self).shoot_row == old(self).shoot_row,
            final(self).shoot_released == old(self).shoot_released,
            final(self).shoot_cooldown == old(self).shoot_cooldown,
            final(self).triple_shot_cooldown == old(self).triple_shot_cooldown,
            final(self).spawn_cooldown == old(self).spawn_cooldown,
            final(self).update_cooldown == old(self).update_cooldown,
            final(self).exit_countdown == old(self).exit_countdown,
            ({
                let c = old(self).ship_position.column_of() as int;
                let r = old(self).ship_position.row_of() as int;
                let hit = old(self).obj(c, r);
                let h = old(self).ship_health;
                let flash = old(self).ship_health_flash_time;
                &&& hit is None ==> *final(self) == *old(self)
                &&& hit is Some ==> final(self).obj(c, r) is None
                &&& final(self).ship_health == match hit {
                    Some(Object::Asteroid2X) | Some(Object::Asteroid) => if flash == 0 && h > 0 {
                        (h - 1) as u8
                    } else {
                        h
                    },
                    Some(Object::Health) => if h < MAX_HEALTH {
                        (h + 1) as u8
                    } else {
                        h
                    },
                    _ => h,
                }
                &&& final(self).ship_health_flash_time == match hit {
                    Some(Object::Asteroid2X) | Some(Object::Asteroid) => if flash == 0 {
                        SHIP_HEALTH_FLASH_TIME
                    } else {
                        flash
                    },
                    Some(Object::Health) => if h < MAX_HEALTH {
                        SHIP_HEALTH_FLASH_TIME
                    } else {
                        flash
                    },
                    _ => flash,
                }
                &&& final(self).score == match hit {
                    Some(Object::Health) => if h < MAX_HEALTH {
                        old(self).score
                    } else {
                        (old(self).score + 1) as u32
                    },
                    Some(Object::Point) => (old(self).score + 1) as u32,
                    _ => old(self).score,
                }
                &&& match hit {
                    Some(Object::BeamPowerUpCollectible) | Some(
                        Object::TripleShotPowerUpCollectible,
                    ) => final(self).obj(0, r) == hit.unwrap().stored_power_up()
                        && forall|i: int, j: int|
                        0 <= i < 16 && 0 <= j < 2 && (i != c || j != r) && (i != 0 || j != r)
                            ==> #[trigger] final(self).objects[j][i] == old(self).objects[j][i],
                    _ => final(self).same_objects_except(*old(self), c, r),
                }
            }),
            final(screen)@.cells == old(self).state().collided_cells(old(screen)@.cells),
    {
        let position = self.ship_position;
        proof {
            lemma_row_bound(1, position.bits());
            crate::screen::lemma_extends_refl(*screen);
        }
        let hit = self.index(position);
        let object = match hit {
            Some(object) => object,
            None => {
                return;
            },
        };
        self.put(position, None);
        match object {
            Object::Asteroid2X | Object::Asteroid => {
                if self.ship_health_flash_time == 0 {
                    self.ship_health = self.ship_health.saturating_sub(1);
                    self.ship_health_flash_time = SHIP_HEALTH_FLASH_TIME;
                }
            },
            Object::Health => {
                if self.ship_health < MAX_HEALTH {
                    self.ship_health = self.ship_health + 1;
                    self.ship_health_flash_time = SHIP_HEALTH_FLASH_TIME;
                } else {
                    self.score = self.score + 1;
                }
            },
            Object::BeamPowerUpCollectible | Object::TripleShotPowerUpCollectible => {
                let power_up_position = self.ship_position.with_column(0);
                proof {
                    lemma_small_coordinates(0, 0);
                }
                self.put(power_up_position, None);
                let ghost s0 = *screen;
                self.set_object(screen, power_up_position, object.into_stored_power_up());
            },
            Object::Point => {
                self.score = self.score + 1;
            },
            _ => {},
        }
        let ghost s1 = *screen;
        self.draw_player(screen);
        proof {
            crate::screen::lemma_extends_trans(*old(screen), s1, *screen);
            lemma_state_lanes(*self, old(self).state().collided());
        }
    }

    /// Fires the stored power up in column 0 of the ship's lane, if there
    /// is one: a beam fills the lane from column 2 on; a triple shot starts
    /// its cooldown.
    pub fn use_power_up(&mut self, screen: &mut Screen)
        requires
            old(self).wf(),
            old(screen).wf(),
        ensures
            final(self).wf(),
            ({
                let r = old(self).ship_position.row_of() as int;
                let stored = old(self).obj(0, r);
                &&& stored == Some(Object::BeamPowerUpStored) ==> final(screen)@.cells == Seq::new(
                    32,
                    |k: int|
                        if k == 16 * r {
                            32u8
                        } else if 16 * r + 2 <= k < 16 * r + 16 {
                            45u8
                        } else {
                            old(screen)@.cells[k]
                        },
                )
                &&& stored == Some(Object::TripleShotPowerUpStored) ==> final(screen)@.cells
                    == old(screen)@.cells.update(16 * r, 32u8)
                &&& stored != Some(Object::BeamPowerUpStored) && stored != Some(
                    Object::TripleShotPowerUpStored,
                ) ==> final(screen)@.cells == old(screen)@.cells
            }),
            final(self).state() == old(self).state().powered_up(),
            final(screen).extends(*old(screen)),
            final(screen)@.character_set == old(screen)@.character_set,
            ({
                let r = old(self).ship_position.row_of() as int;
                let stored = old(self).obj(0, r);
                &&& stored != Some(Object::BeamPowerUpStored) && stored != Some(
                    Object::TripleShotPowerUpStored,
                ) ==> *final(self) == *old(self)
                &&& stored == Some(Object::TripleShotPowerUpStored) ==> final(self).obj(0, r) is None
                    && final(self).triple_shot_cooldown == TRIPLE_SHOT_COOLDOWN
                    && final(self).same_objects_except(*old(self), 0, r)
                &&& stored == Some(Object::BeamPowerUpStored) ==> final(self).obj(0, r) is None
                    && final(self).triple_shot_cooldown == old(self).triple_shot_cooldown
                    && (forall|i: int| 2 <= i < 16 ==> #[trigger] final(self).obj(i, r) == Some(Object::Beam))
                    && (forall|i: int, j: int|
                    0 <= i < 16 && 0 <= j < 2 && j != r ==> #[trigger] final(self).objects[j][i]
                        == old(self).objects[j][i])
                    && final(self).obj(1, r) == old(self).obj(1, r)
                &&& final(self).ship_position == old(self).ship_position
                &&& final(self).ship_health == old(self).ship_health
                &&& final(self).ship_health_flash_time == old(self).ship_health_flash_time
                &&& final(self).score == old(self).score
                &&& final(self).shoot_row == old(self).shoot_row
                &&& final(self).shoot_released == old(self).shoot_released
                &&& final(self).shoot_cooldown == old(self).shoot_cooldown
                &&& final(self).spawn_cooldown == old(self).spawn_cooldown
                &&& final(self).update_cooldown == old(self).update_cooldown
                &&& final(self).exit_countdown == old(self).exit_countdown
            }),
            final(screen)@.cells == old(self).state().powered_up_cells(old(screen)@.cells),
    {
        proof {
            lemma_row_bound(1, self.ship_position.bits());
            lemma_small_coordinates(0, 0);
            lemma_small_coordinates(2, 0);
            crate::screen::lemma_extends_refl(*screen);
        }
        let power_up_position = self.ship_position.with_column(0);
        let power_up = match self.index(power_up_position) {
            Some(power_up) => power_up,
            None => {
                return;
            },
        };
        let ghost s0 = *screen;
        match power_up {
            Object::BeamPowerUpStored => {
                screen.set_cursor(self.ship_position.with_column(2));
                let row = self.ship_position.row();
                let mut i: u8 = 2;
                while i < 16
                    invariant
                        2 <= i <= 16,
                        row == old(self).ship_position.row_of(),
                        row < 2,
                        screen.extends(s0),
                        screen.wf(),
                        screen@.cursor_row == row,
                        screen@.cursor_column == i,
                        screen@.cells == Seq::new(
                            32,
                            |k: int|
                                if 16 * row + 2 <= k < 16 * row + i {
                                    45u8
                                } else {
                                    s0@.cells[k]
                                },
                        ),
                        screen@.character_set == s0@.character_set,
                        s0@.character_set == old(screen)@.character_set,
                        self.same_ship(*old(self)),
                        forall|k: int| 2 <= k < i ==> #[trigger] self.objects[row as int][k] == Some(
                            Object::Beam,
                        ),
                        forall|k: int, j: int|
                            0 <= k < 16 && 0 <= j < 2 && (j != row || k < 2 || k >= i)
                                ==> #[trigger] self.objects[j][k] == old(self).objects[j][k],
                    decreases 16 - i,
                {
                    let ghost before = *screen;
                    screen.write(45u8);
                    self.objects[row as usize][i as usize] = Some(Object::Beam);
                    proof {
                        crate::screen::lemma_extends_trans(s0, before, *screen);
                    }
                    i = i + 1;
                }
            },
            Object::TripleShotPowerUpStored => {
                self.triple_shot_cooldown = TRIPLE_SHOT_COOLDOWN;
            },
            _ => {
                return;
            },
        }
        let ghost s1 = *screen;
        self.set_object(screen, power_up_position, None);
        proof {
            crate::screen::lemma_extends_trans(*old(screen), s1, *screen);
            lemma_state_lanes(*self, old(self).state().powered_up());
        }
    }

    /// Moves the ship to row 1 (`raw_input[1]` 1) or row 0 (-1), then takes
    /// whatever it flew into.
    pub fn update_ship_position(&mut self, screen: &mut Screen, raw_input: [i8; 2])
        requires
            old(self).wf(),
            old(screen).wf(),
            raw_input[1] == 1 || raw_input[1] == -1 ==> old(self).score < u32::MAX,
        ensures
            final(self).wf(),
            raw_input[1] != 1 && raw_input[1] != -1 ==> final(screen)@.cells == old(screen)@.cells,
            raw_input[1] == 1 || raw_input[1] == -1 ==> ({
                let from = old(self).ship_position.row_of() as int;
                let to = final(self).ship_position.row_of() as int;
                let hit = old(self).obj(1, to);
                &&& final(screen).cell(1, to) == final(self).ship_glyph()
                &&& from != to ==> final(screen).cell(1, from) == 32
                &&& final(screen).cell(0, to) == if hit == Some(Object::BeamPowerUpCollectible) || hit
                    == Some(Object::TripleShotPowerUpCollectible) {
                    cell_byte(final(self).obj(0, to))
                } else {
                    old(screen).cell(0, to)
                }
                &&& forall|k: int|
                    0 <= k < 32 && k != 16 * from + 1 && k != 16 * to + 1 && k != 16 * to
                        ==> #[trigger] final(screen)@.cells[k] == old(screen)@.cells[k]
            }),
            final(self).state() == old(self).state().ship_moved(raw_input[1]),
            final(screen).extends(*old(screen)),
            final(screen)@.character_set == old(screen)@.character_set,
            raw_input[1] != 1 && raw_input[1] != -1 ==> *final(self) == *old(self),
            raw_input[1] == 1 ==> final(self).ship_position.row_of() == 1,
            raw_input[1] == -1 ==> final(self).ship_position.row_of() == 0,
            old(self).score <= final(self).score <= old(self).score + 1,
            final(self).exit_countdown == old(self).exit_countdown,
            final(self).shoot_row == old(self).shoot_row,
            final(self).shoot_cooldown == old(self).shoot_cooldown,
            final(self).triple_shot_cooldown == old(self).triple_shot_cooldown,
            final(self).update_cooldown == old(self).update_cooldown,
            final(self).spawn_cooldown == old(self).spawn_cooldown,
            final(self).shoot_released == old(self).shoot_released,
            final(screen)@.cells == old(self).state().ship_moved_cells(raw_input[1], old(screen)@.cells),
    {
        proof {
            crate::screen::lemma_extends_refl(*screen);
            lemma_small_coordinates(0, 0);
            lemma_small_coordinates(0, 1);
        }
        let new_position = if raw_input[1] == 1 {
            self.ship_position.with_row(1)
        } else if raw_input[1] == -1 {
            self.ship_position.with_row(0)
        } else {
            return;
        };
        let ghost s0 = *screen;
        screen.set_cursor(self.ship_position);
        let ghost a = *screen;
        screen.write(32u8);
        let ghost s1 = *screen;
        proof {
            crate::screen::lemma_extends_trans(s0, a, s1);
        }
        self.ship_position = new_position;
        self.draw_player(screen);
        let ghost s2 = *screen;
        self.update_ship_collision(screen);
        proof {
            crate::screen::lemma_extends_trans(s0, s1, s2);
            crate::screen::lemma_extends_trans(s0, s2, *screen);
        }
    }

    /// Fires the next shot from column 2: waits out the shot cooldown, and
    /// fires while right is held, a shot is queued, or a triple shot is
    /// under way.
    pub fn update_ship_shooting(&mut self, screen: &mut Screen, raw_input: [i8; 2])
        requires
            old(self).wf(),
            old(screen).wf(),
        ensures
            final(self).wf(),
            final(self).state() == old(self).state().fired(raw_input[0]),
            final(screen).extends(*old(screen)),
            final(screen)@.character_set == old(screen)@.character_set,
            ({
                let cd = old(self).shoot_cooldown;
                let triple = old(self).triple_shot_cooldown;
                let control = raw_input[0] == 1 || old(self).shoot_row is Some;
                let cd1 = if control && triple > 0 && cd == 0 {
                    -3
                } else {
                    cd as int
                };
                let cd2 = if cd1 < 0 {
                    cd1 + 1
                } else {
                    cd1
                };
                let cd3 = if cd2 == 0 {
                    2
                } else {
                    cd2
                };
                let row = match old(self).shoot_row {
                    Some(r) => r as int,
                    None => old(self).ship_position.row_of() as int,
                };
                let projectile = if triple > 0 || cd3 < 0 {
                    Object::TripleProjectile
                } else {
                    Object::Projectile
                };
                &&& cd > 0 ==> final(self).shoot_cooldown == cd - 1 && final(self).shoot_row
                    == old(self).shoot_row && final(self).objects == old(self).objects
                &&& cd <= 0 && !control && cd == 0 ==> *final(self) == *old(self)
                &&& cd <= 0 && (control || cd < 0) ==> {
                    &&& final(self).shoot_cooldown == cd3
                    &&& final(self).shoot_row is None
                    &&& final(self).obj(2, row) == after_set(
                        old(self).obj(2, row),
                        Some(projectile),
                    )
                    &&& final(self).same_objects_except(*old(self), 2, row)
                    &&& final(screen)@.cells == old(screen)@.cells.update(
                        16 * row + 2,
                        cell_byte(final(self).obj(2, row)),
                    )
                }
                &&& !(cd <= 0 && (control || cd < 0)) ==> final(screen)@.cells == old(screen)@.cells
            }),
            final(self).ship_position == old(self).ship_position,
            final(self).ship_health == old(self).ship_health,
            final(self).ship_health_flash_time == old(self).ship_health_flash_time,
            final(self).score == old(self).score,
            final(self).triple_shot_cooldown == old(self).triple_shot_cooldown,
            final(self).spawn_cooldown == old(self).spawn_cooldown,
            final(self).update_cooldown == old(self).update_cooldown,
            final(self).exit_countdown == old(self).exit_countdown,
            final(self).shoot_released == old(self).shoot_released,
            final(screen)@.cells == old(self).state().fired_cells(raw_input[0], old(screen)@.cells),
    {
        proof {
            crate::screen::lemma_extends_refl(*screen);
            lemma_row_bound(1, self.ship_position.bits());
        }
        if self.shoot_cooldown > 0 {
            self.shoot_cooldown = self.shoot_cooldown - 1;
            return;
        }
        let shoot_control = raw_input[0] == 1 || self.shoot_row.is_some();
        if !(shoot_control || self.shoot_cooldown < 0) {
            return;
        }
        if shoot_control && self.triple_shot_cooldown > 0 && self.shoot_cooldown == 0 {
            self.shoot_cooldown = -3;
        }
        let row = match self.shoot_row {
            Some(r) => r,
            None => self.ship_position.row(),
        };
        self.shoot_row = None;
        if self.shoot_cooldown < 0 {
            self.shoot_cooldown = self.shoot_cooldown + 1;
        }
        if self.shoot_cooldown == 0 {
            self.shoot_cooldown = (PLAYER_SHOOT_COOLDOWN - 1) as i8;
        }
        let projectile = if self.triple_shot_cooldown > 0 || self.shoot_cooldown < 0 {
            Object::TripleProjectile
        } else {
            Object::Projectile
        };
        proof {
            lemma_small_coordinates(2, row);
        }
        self.set_object(screen, Position::new(2, row), Some(projectile));
    }

    /// Whether a projectile is at column `column` of lane `row`.
    fn projectile_at(&self, row: usize, column: u8) -> (projectile: bool)
        requires
            row < 2,
            column < 16,
        ensures
            projectile == holds_projectile(self.objects[row as int][column as int]),
    {
        match self.objects[row][column as usize] {
            Some(o) => o.is_projectile(),
            None => false,
        }
    }

    /// Moves every object of lane `row` one step, from left to right (see
    /// `lane_scan`): projectiles fly right past the projectiles in front of
    /// them, asteroids and pickups move left, beams decay and vanish, stored
    /// power ups stay. Each cell of the lane that changes is redrawn, and
    /// nothing outside the lane.
    pub fn update_row(&mut self, screen: &mut Screen, row: usize)
        requires
            old(self).wf(),
            old(screen).wf(),
            row < 2,
        ensures
            final(self).wf(),
            final(self).state() == old(self).state().lane_moved(row as int),
            final(screen).extends(*old(screen)),
            final(screen)@.character_set == old(screen)@.character_set,
            final(self).same_ship(*old(self)),
            final(self).objects[row as int]@ == lane_scan(old(self).objects[row as int]@, 0),
            forall|i: int, j: int|
                0 <= i < 16 && 0 <= j < 2 && j != row ==> #[trigger] final(self).objects[j][i]
                    == old(self).objects[j][i],
            forall|k: int|
                0 <= k < 16 ==> #[trigger] final(screen).cell(k, row as int) == if lane_touched(
                    old(self).objects[row as int]@,
                    0,
                ).contains(k) {
                    cell_byte(final(self).obj(k, row as int))
                } else {
                    old(screen).cell(k, row as int)
                },
            forall|k: int|
                0 <= k < 32 && (k < 16 * row || k >= 16 * row + 16)
                    ==> #[trigger] final(screen)@.cells[k] == old(screen)@.cells[k],
            final(screen)@.cells == old(self).state().lane_moved_cells(row as int, old(screen)@.cells),
    {
        let ghost s0 = *screen;
        let ghost lane0 = self.objects[row as int]@;
        proof {
            crate::screen::lemma_extends_refl(*screen);
        }
        let mut i: u8 = 0;
        let ghost mut done: Set<int> = Set::empty();
        while i < 16
            invariant
                row < 2,
                i <= 17,
                done + lane_touched(self.objects[row as int]@, i as int) == lane_touched(lane0, 0),
                forall|k: int|
                    0 <= k < 16 ==> #[trigger] screen.cell(k, row as int) == if done.contains(k) {
                        cell_byte(self.obj(k, row as int))
                    } else {
                        s0.cell(k, row as int)
                    },
                forall|k: int|
                    0 <= k < 16 && !done.contains(k) ==> #[trigger] self.obj(k, row as int)
                        == old(self).obj(k, row as int),
                self.wf(),
                self.same_ship(*old(self)),
                screen.extends(s0),
                s0 == *old(screen),
                screen@.character_set == s0@.character_set,
                lane0 == old(self).objects[row as int]@,
                lane_scan(self.objects[row as int]@, i as int) == lane_scan(lane0, 0),
                forall|k: int, j: int|
                    0 <= k < 16 && 0 <= j < 2 && j != row ==> #[trigger] self.objects[j][k]
                        == old(self).objects[j][k],
                forall|k: int|
                    0 <= k < 32 && (k < 16 * row || k >= 16 * row + 16)
                        ==> #[trigger] screen@.cells[k] == s0@.cells[k],
            decreases 17 - i,
        {
            let ghost lane = self.objects[row as int]@;
            let ghost before = *self;
            let ghost s1 = *screen;
            proof {
                lemma_lane_step(lane, i as int);
            }
            let current = self.objects[row][i as usize];
            let mut object = match current {
                Some(object) => object,
                None => {
                    assert(lane_step(lane, i as int) == (lane, i + 1));
                    assert(step_touched(lane, i as int) =~= Set::empty());
                    assert(done + lane_touched(lane, i + 1) =~= lane_touched(lane0, 0));
                    i = i + 1;
                    continue;
                },
            };
            let ghost taken = object;
            self.objects[row][i as usize] = None;
            let ghost cleared = self.objects[row as int]@;
            assert(cleared =~= lane.update(i as int, None));
            proof {
                lemma_small_coordinates(i, row as u8);
            }
            screen.set_cursor(Position::new(i, row as u8));
            let ghost cursor_set = *screen;
            screen.write(32u8);
            proof {
                crate::screen::lemma_extends_trans(s1, cursor_set, *screen);
            }
            let start = i;
            let ghost done1 = done.insert(start as int);
            proof {
                assert forall|k: int| 0 <= k < 16 implies #[trigger] screen.cell(k, row as int) == if done1.contains(k) {
                        cell_byte(self.obj(k, row as int))
                    } else {
                        s0.cell(k, row as int)
                    } by {
                    assert(s1.cell(k, row as int) == if done.contains(k) {
                        cell_byte(before.obj(k, row as int))
                    } else {
                        s0.cell(k, row as int)
                    });
                    if k != start {
                        assert(screen@.cells[16 * row + k] == s1@.cells[16 * row + k]);
                    }
                }
                assert forall|k: int| 0 <= k < 16 && !done1.contains(k) implies #[trigger] self.obj(k, row as int)
                    == old(self).obj(k, row as int) by {
                    assert(before.obj(k, row as int) == old(self).obj(k, row as int));
                }
                lemma_past_projectiles(cleared, start + 1);
            }
            let next_position: Option<u8> = match object {
                Object::BeamPowerUpStored | Object::TripleShotPowerUpStored => Some(i),
                Object::Beam => {
                    object = Object::BeamDecay;
                    Some(i)
                },
                Object::BeamDecay => None,
                Object::Projectile | Object::TripleProjectile => {
                    i = i + 1;
                    while i < 16 && self.projectile_at(row, i)
                        invariant
                            start < i <= 16,
                            row < 2,
                            self.objects[row as int]@ == cleared,
                            past_projectiles(cleared, i as int) == past_projectiles(
                                cleared,
                                start + 1,
                            ),
                        decreases 16 - i,
                    {
                        i = i + 1;
                    }
                    let next_position = i;
                    i = i - 1;
                    if next_position < 16 {
                        Some(next_position)
                    } else {
                        None
                    }
                },
                _ => i.checked_sub(1),
            };
            assert(object == moved_object(taken));
            assert(i as int == step_resume(cleared, taken, start as int));
            assert(next_position matches Some(n) ==> step_target(cleared, taken, start as int)
                == Some(n as int));
            assert(next_position is None ==> step_target(cleared, taken, start as int) is None);
            let ghost s2 = *screen;
            let ghost middle = *self;
            proof {
                crate::screen::lemma_extends_trans(s0, s1, s2);
            }
            match next_position {
                Some(next) => {
                    proof {
                        lemma_small_coordinates(next, row as u8);
                    }
                    let success = self.set_object(screen, Position::new(next, row as u8), Some(object));
                    if success && object.is_projectile() {
                        i = i + 1;
                    }
                    proof {
                        crate::screen::lemma_extends_trans(s0, s2, *screen);
                        assert(self.objects[row as int]@ =~= cleared.update(
                            next as int,
                            after_set(cleared[next as int], Some(object)),
                        ));
                        let done2 = done1.insert(next as int);
                        assert forall|k: int| 0 <= k < 16 implies #[trigger] screen.cell(k, row as int) == if done2.contains(k) {
                                cell_byte(self.obj(k, row as int))
                            } else {
                                s0.cell(k, row as int)
                            } by {
                            assert(s2.cell(k, row as int) == if done1.contains(k) {
                                cell_byte(middle.obj(k, row as int))
                            } else {
                                s0.cell(k, row as int)
                            });
                            if k != next {
                                assert(screen@.cells[16 * row + k] == s2@.cells[16 * row + k]);
                            }
                        }
                        assert forall|k: int| 0 <= k < 16 && !done2.contains(k) implies #[trigger] self.obj(k, row as int)
                            == old(self).obj(k, row as int) by {
                            assert(middle.obj(k, row as int) == old(self).obj(k, row as int));
                        }
                        assert(step_touched(lane, start as int) =~= set![start as int, next as int]);
                    }
                    proof {
                        done = done1.insert(next as int);
                    }
                },
                None => {
                    proof {
                        assert(step_touched(lane, start as int) =~= set![start as int]);
                        done = done1;
                    }
                },
            }
            assert(lane_step(lane, start as int) == (self.objects[row as int]@, i + 1));
            proof {
                assert(lane_touched(lane, start as int) == step_touched(lane, start as int) + lane_touched(
                    self.objects[row as int]@, i + 1));
                assert(done + lane_touched(self.objects[row as int]@, i + 1) =~= lane_touched(lane0, 0));
            }
            i = i + 1;
        }
        proof {
            assert(lane_touched(self.objects[row as int]@, i as int) =~= Set::empty());
            assert(done =~= lane_touched(lane0, 0));
        }
        proof {
            lemma_state_lanes(*self, old(self).state().lane_moved(row as int));
            let expected = old(self).state().lane_moved_cells(row as int, s0@.cells);
            assert(old(self).state().lanes[row as int] == lane0);
            assert forall|k: int| 0 <= k < 32 implies #[trigger] screen@.cells[k] == expected[k] by {
                assert(k == (k / 16) * 16 + k % 16);
                if k / 16 == row {
                    assert(screen.cell(k % 16, row as int) == screen@.cells[k]);
                    assert(s0.cell(k % 16, row as int) == s0@.cells[k]);
                    assert(self.state().lanes[row as int][k % 16] == self.obj(k % 16, row as int));
                }
            }
            assert(screen@.cells =~= expected);
        }
    }

    /// Spawns one or two objects in column 15 when the spawn cooldown runs
    /// out, and restarts it at 1 to 4 updates.
    pub fn spawn_objects(&mut self, screen: &mut Screen, generator: &mut Rng)
        requires
            old(self).wf(),
            old(screen).wf(),
        ensures
            final(self).wf(),
            (final(self).state(), final(generator).state) == old(self).state().spawned(
                old(generator).state,
            ),
            final(screen).extends(*old(screen)),
            final(screen)@.character_set == old(screen)@.character_set,
            old(self).spawn_cooldown > 0 ==> final(self).spawn_cooldown == old(self).spawn_cooldown
                - 1 && final(self).objects == old(self).objects && final(generator).state
                == old(generator).state && final(screen)@.cells == old(screen)@.cells,
            old(self).spawn_cooldown == 0 ==> ({
                let x1 = xorshift(old(generator).state);
                let x2 = xorshift(x1);
                let x3 = xorshift(x2);
                let x4 = xorshift(x3);
                let x5 = xorshift(x4);
                let x6 = xorshift(x5);
                let row = ((x2 as u8) & 1u8) as int;
                let first = Object::of_roll(x3 % 100);
                let double = (x4 as u8) < DOUBLE_SPAWN_CHANCE;
                let retry = Object::of_roll(x5 % 100) == first;
                let second = if retry {
                    Object::of_roll(x6 % 100)
                } else {
                    Object::of_roll(x5 % 100)
                };
                &&& final(self).spawn_cooldown == 1 + x1 % 4
                &&& final(self).obj(15, row) == after_set(old(self).obj(15, row), Some(first))
                &&& final(self).obj(15, 1 - row) == if double {
                    after_set(old(self).obj(15, 1 - row), Some(second))
                } else {
                    old(self).obj(15, 1 - row)
                }
                &&& final(generator).state == if !double {
                    x4
                } else if retry {
                    x6
                } else {
                    x5
                }
                &&& final(screen).cell(15, row) == cell_byte(final(self).obj(15, row))
                &&& final(screen).cell(15, 1 - row) == if double {
                    cell_byte(final(self).obj(15, 1 - row))
                } else {
                    old(screen).cell(15, 1 - row)
                }
                &&& forall|k: int|
                    0 <= k < 32 && k != 15 && k != 31 ==> #[trigger] final(screen)@.cells[k]
                        == old(screen)@.cells[k]
            }),
            forall|i: int, j: int|
                0 <= i < 15 && 0 <= j < 2 ==> #[trigger] final(self).objects[j][i]
                    == old(self).objects[j][i],
            final(self).ship_position == old(self).ship_position,
            final(self).ship_health == old(self).ship_health,
            final(self).ship_health_flash_time == old(self).ship_health_flash_time,
            final(self).score == old(self).score,
            final(self).shoot_row == old(self).shoot_row,
            final(self).shoot_released == old(self).shoot_released,
            final(self).shoot_cooldown == old(self).shoot_cooldown,
            final(self).triple_shot_cooldown == old(self).triple_shot_cooldown,
            final(self).update_cooldown == old(self).update_cooldown,
            final(self).exit_countdown == old(self).exit_countdown,
            final(screen)@.cells == old(self).state().spawned_cells(old(generator).state, old(screen)@.cells),
    {
        proof {
            crate::screen::lemma_extends_refl(*screen);
        }
        if self.spawn_cooldown > 0 {
            self.spawn_cooldown = self.spawn_cooldown - 1;
            return;
        }
        self.spawn_cooldown = (MIN_TIME - 1) + (rng(generator) % ((1 + MAX_TIME - MIN_TIME) as u32)) as u8;
        let raw_row = rng(generator) as u8;
        let row = raw_row & 1;
        let object = Object::random(generator);
        proof {
            lemma_small_coordinates(15, row);
            assert(raw_row & 1u8 < 2) by (bit_vector);
        }
        let ghost s0 = *screen;
        self.set_object(screen, Position::new(15, row), Some(object));
        let ghost first = *self;
        if (rng(generator) as u8) < DOUBLE_SPAWN_CHANCE {
            let mut object_2 = Object::random(generator);
            if object == object_2 {
                object_2 = Object::random(generator);
            }
            proof {
                lemma_small_coordinates(15, (1 - row) as u8);
            }
            let ghost s1 = *screen;
            self.set_object(screen, Position::new(15, 1 - row), Some(object_2));
            proof {
                crate::screen::lemma_extends_trans(*old(screen), s1, *screen);
            }
        }
    }

    /// The whole shooter is on `screen`, in its own characters: the ship
    /// (see `ship_glyph`) and every other cell's object.
    pub open spec fn shown_on(self, screen: Screen) -> bool {
        &&& screen@.character_set == 2
        &&& forall|c: int, r: int|
            0 <= c < 16 && 0 <= r < 2 && (c != 1 || r != self.ship_position.row_of())
                ==> #[trigger] screen.cell(c, r) == cell_byte(self.obj(c, r))
        &&& screen.cell(1, self.ship_position.row_of() as int) == self.ship_glyph()
    }

    /// Loads the space shooter's character set and draws both lanes and
    /// the ship.
    pub fn draw_full_screen(&self, screen: &mut Screen)
        requires
            old(screen).wf(),
            self.wf(),
        ensures
            final(screen).extends(*old(screen)),
            self.shown_on(*final(screen)),
    {
        let ghost s0 = *screen;
        screen.load_character_set(2);
        let ghost a = *screen;
        screen.clear();
        let ghost s1 = *screen;
        proof {
            crate::screen::lemma_extends_trans(s0, a, s1);
            crate::screen::lemma_extends_refl(s1);
        }
        let mut row: u8 = 0;
        while row < 2
            invariant
                0 <= row <= 2,
                screen.extends(s1),
                s1.wf(),
                screen@.character_set == 2,
                forall|k: int|
                    0 <= k < 32 ==> #[trigger] screen@.cells[k] == if k < 16 * row {
                        cell_byte(self.obj(k % 16, k / 16))
                    } else {
                        32u8
                    },
            decreases 2 - row,
        {
            let mut cursor_valid = false;
            let mut column: u8 = 0;
            while column < 16
                invariant
                    0 <= row < 2,
                    0 <= column <= 16,
                    screen.extends(s1),
                    s1.wf(),
                    screen@.character_set == 2,
                    cursor_valid ==> screen@.cursor_column == column && screen@.cursor_row == row,
                    forall|k: int|
                        0 <= k < 32 ==> #[trigger] screen@.cells[k] == if k < 16 * row + column {
                            cell_byte(self.obj(k % 16, k / 16))
                        } else {
                            32u8
                        },
                decreases 16 - column,
            {
                let ghost before = *screen;
                match self.objects[row as usize][column as usize] {
                    Some(object) => {
                        if !cursor_valid {
                            proof {
                                lemma_small_coordinates(column, row);
                            }
                            screen.set_cursor(Position::new(column, row));
                            cursor_valid = true;
                        }
                        let ghost middle = *screen;
                        screen.write(object.code());
                        proof {
                            crate::screen::lemma_extends_trans(before, middle, *screen);
                        }
                    },
                    None => {
                        cursor_valid = false;
                        proof {
                            crate::screen::lemma_extends_refl(*screen);
                        }
                    },
                }
                proof {
                    crate::screen::lemma_extends_trans(s1, before, *screen);
                    assert forall|k: int| 0 <= k < 32 implies #[trigger] screen@.cells[k] == if k < 16
                        * row + column + 1 {
                        cell_byte(self.obj(k % 16, k / 16))
                    } else {
                        32u8
                    } by {
                        if k == 16 * row + column {
                            assert(k % 16 == column && k / 16 == row);
                        }
                    }
                }
                column = column + 1;
            }
            row = row + 1;
        }
        let ghost s2 = *screen;
        self.draw_player(screen);
        proof {
            crate::screen::lemma_extends_trans(s0, s1, s2);
            crate::screen::lemma_extends_trans(s0, s2, *screen);
            assert forall|c: int, r: int|
                0 <= c < 16 && 0 <= r < 2 && (c != 1 || r != self.ship_position.row_of())
                    implies #[trigger] screen.cell(c, r) == cell_byte(self.obj(c, r)) by {
                let k = r * 16 + c;
                assert(k % 16 == c && k / 16 == r);
                assert(s2@.cells[k] == cell_byte(self.obj(c, r)));
            }
        }
    }

    /// One frame of the space shooter. Once the ship has no health left,
    /// shows the score and counts down to the overworld; otherwise fires
    /// power ups (left), moves the ship (up, down), queues shots (right),
    /// and every `UPDATE_COOLDOWN` frames moves the shots and the objects,
    /// spawns new ones and checks the ship for collisions.
    #[verifier::rlimit(60)]
    #[verifier::spinoff_prover]
    pub fn update(&mut self, screen: &mut Screen, generator: &mut Rng, raw_input: [i8; 2]) -> (mode:
        Option<GameMode>)
        requires
            old(self).wf(),
            old(screen).wf(),
            old(self).ship_health > 0 ==> old(self).score < u32::MAX - 1,
        ensures
            (final(self).state(), final(generator).state) == old(self).state().frame(
                raw_input,
                old(generator).state,
            ),
            final(screen).extends(*old(screen)),
            mode is None ==> final(self).wf(),
            mode is Some ==> mode == Some(GameMode::Overworld),
            old(self).ship_health == 0 ==> {
                &&& mode == if old(self).exit_countdown == 1 {
                    Some(GameMode::Overworld)
                } else {
                    None::<GameMode>
                }
                &&& final(self).exit_countdown == old(self).exit_countdown - 1
                &&& final(self).objects == old(self).objects
                &&& final(self).score == old(self).score
                &&& final(self).ship_health == 0
                &&& final(self).ship_position == old(self).ship_position
            },
            final(self).ship_position.column_of() == old(self).ship_position.column_of(),
            old(self).ship_health > 0 ==> mode is None,
            old(self).score <= final(self).score <= old(self).score + 2,
            // When the flashing ends, the ship shows again.
            old(self).ship_health > 0 && old(self).ship_health_flash_time > 0
                && final(self).ship_health_flash_time == 0 ==> final(screen).cell(
                final(self).ship_position.column_of() as int,
                final(self).ship_position.row_of() as int,
            ) == PLAYER_CHARACTER,
            final(screen)@.cells == old(self).state().frame_cells(
                raw_input,
                old(generator).state,
                old(screen)@.cells,
            ),
    {
        proof {
            crate::screen::lemma_extends_refl(*screen);
            lemma_row_bound(1, self.ship_position.bits());
        }
        let ghost s0 = *screen;
        if self.ship_health == 0 {
            if self.exit_countdown == EXIT_COUNTDOWN {
                proof {
                    lemma_small_coordinates(2, 0);
                }
                screen.set_cursor(Position::new(2, 0));
                let ghost a = *screen;
                let label = [83u8, 99, 111, 114, 101, 58, 32, 4];
                screen.print_bytes(&label);
                let ghost b = *screen;
                screen.print(self.score);
                proof {
                    crate::screen::lemma_extends_trans(s0, a, b);
                    crate::screen::lemma_extends_trans(s0, b, *screen);
                    crate::screen::lemma_extends_refl(*screen);
                }
                let ghost digit_seq = decimal_digits(self.score as nat);
                let ghost text = label@ + digit_seq;
                proof {
                    lemma_digit_count(self.score as nat);
                    crate::screen::lemma_written_concat(s0@.cells, 2, 0, label@, digit_seq);
                    assert(label@ =~= seq![83u8, 99, 111, 114, 101, 58, 32, 4]);
                }
                let digits = num_digits(self.score);
                let mut column: u8 = 8 + digits;
                let ghost s1 = *screen;
                while column < 16
                    invariant
                        screen.extends(s1),
                        s1.extends(s0),
                        s0 == *old(screen),
                        screen.wf(),
                        8 + digit_seq.len() <= column,
                        column <= 16 || column == 8 + digit_seq.len(),
                        digit_seq.len() <= 10,
                        text == seq![83u8, 99, 111, 114, 101, 58, 32, 4] + digit_seq,
                        screen@.cursor_row == 0,
                        screen@.cursor_column == column + 2,
                        screen@.cells == written(
                            s0@.cells,
                            2,
                            0,
                            text + Seq::new((column - 8 - digit_seq.len()) as nat, |i: int| 32u8),
                        ),
                    decreases 16 - column,
                {
                    let ghost before = *screen;
                    screen.write(32u8);
                    proof {
                        crate::screen::lemma_extends_trans(s1, before, *screen);
                        let spaces = Seq::new((column - 8 - digit_seq.len()) as nat, |i: int| 32u8);
                        crate::screen::lemma_written_concat(s0@.cells, 2, 0, text + spaces, seq![32u8]);
                        assert(text + spaces + seq![32u8] =~= text + Seq::new(
                            (column + 1 - 8 - digit_seq.len()) as nat,
                            |i: int| 32u8,
                        ));
                    }
                    column = column + 1;
                }
                proof {
                    crate::screen::lemma_extends_trans(s0, s1, *screen);
                    assert(text + Seq::new((column - 8 - digit_seq.len()) as nat, |i: int| 32u8)
                        =~= score_line(seq![83u8, 99, 111, 114, 101, 58, 32, 4], old(self).score));
                }
            }
            self.exit_countdown = self.exit_countdown - 1;
            if self.exit_countdown == 0 {
                let ghost s2 = *screen;
                screen.load_character_set(0);
                proof {
                    crate::screen::lemma_extends_trans(s0, s2, *screen);
                }
                return Some(GameMode::Overworld);
            } else {
                return None;
            }
        }
        let ghost g0 = self.state();
        if raw_input[0] == -1 {
            self.use_power_up(screen);
        }
        let ghost s3 = *screen;
        let ghost powered = self.state();
        assert(s3@.cells == if raw_input[0] == -1 {
            g0.powered_up_cells(s0@.cells)
        } else {
            s0@.cells
        });
        self.update_ship_position(screen, raw_input);
        let ghost moved = self.state();
        let ghost c2 = screen@.cells;
        proof {
            crate::screen::lemma_extends_trans(s0, s3, *screen);
            lemma_row_bound(1, self.ship_position.bits());
            assert(c2 == powered.ship_moved_cells(raw_input[1], s3@.cells));
        }
        if raw_input[0] == 1 {
            if self.shoot_released > 2 && self.shoot_cooldown >= 0 {
                let row = self.ship_position.row();
                self.shoot_row = Some(row);
                proof {
                    lemma_small_coordinates(2, row);
                }
                let position = Position::new(2, row);
                if self.shoot_cooldown == 0 && self.index(position).is_none() {
                    let ghost s4 = *screen;
                    screen.set_cursor(position);
                    let ghost a = *screen;
                    screen.write(
                        if self.triple_shot_cooldown == 0 {
                            Object::Projectile.code()
                        } else {
                            Object::TripleProjectile.code()
                        },
                    );
                    proof {
                        crate::screen::lemma_extends_trans(s4, a, *screen);
                        crate::screen::lemma_extends_trans(s0, s4, *screen);
                        assert(moved.cell(2, row as int) == self.obj(2, row as int));
                        assert(screen@.cells =~= moved.queued_cells(raw_input[0], c2));
                    }
                }
            }
            self.shoot_released = 0;
        } else {
            self.shoot_released = self.shoot_released.wrapping_add(1);
        }
        let ghost queued = self.state();
        let ghost c3 = screen@.cells;
        proof {
            if !(raw_input[0] == 1 && moved.shoot_released > 2 && moved.shoot_cooldown == 0 && moved.cell(
                2,
                moved.ship_row as int,
            ) is None) {
                assert(c3 == c2);
            } else {
                lemma_small_coordinates(2, self.ship_position.row_of());
                assert(moved.cell(2, moved.ship_row as int) == self.obj(2, self.ship_position.row_of() as int));
            }
            assert(c3 == moved.queued_cells(raw_input[0], c2));
            assert(queued == moved.shot_queued(raw_input[0]));
        }
        if self.update_cooldown > 0 {
            self.update_cooldown = self.update_cooldown - 1;
        } else {
            let ghost s5 = *screen;
            self.update_ship_shooting(screen, raw_input);
            let ghost fired = self.state();
            let ghost e4 = *screen;
            let ghost c4 = screen@.cells;
            self.update_row(screen, 0);
            let ghost e5 = *screen;
            let ghost c5 = screen@.cells;
            let ghost lane0 = self.state();
            self.update_row(screen, 1);
            let ghost e6 = *screen;
            let ghost c6 = screen@.cells;
            let ghost lanes = self.state();
            assert(c6 == fired.lanes_moved_cells(c4));
            self.spawn_objects(screen, generator);
            let ghost e7 = *screen;
            proof {
                crate::screen::lemma_extends_trans(s5, e4, e5);
                crate::screen::lemma_extends_trans(s5, e5, e6);
                crate::screen::lemma_extends_trans(s5, e6, e7);
            }
            self.update_ship_collision(screen);
            if self.triple_shot_cooldown > 0 {
                self.triple_shot_cooldown = self.triple_shot_cooldown - 1;
            }
            self.update_cooldown = UPDATE_COOLDOWN - 1;
            proof {
                crate::screen::lemma_extends_trans(s5, e7, *screen);
                crate::screen::lemma_extends_trans(s0, s5, *screen);
            }
        }
        proof {
            if old(self).ship_health > 0 && old(self).ship_health_flash_time > 0 {
                lemma_flown_while_flashing(old(self).state(), raw_input, old(generator).state);
                assert(self.state() == old(self).state().flown(raw_input, old(generator).state).0);
            }
        }
        if self.ship_health_flash_time > 0 {
            self.ship_health_flash_time = self.ship_health_flash_time - 1;
            if self.ship_health_flash_time == 0 {
                let ghost s6 = *screen;
                self.draw_player(screen);
                proof {
                    crate::screen::lemma_extends_trans(s0, s6, *screen);
                }
            }
        }
        None
    }

}

/// The cells that the scan past projectiles steps over hold projectiles.
proof fn lemma_projectiles_skipped(lane: Seq<Option<Object>>, k: int)
    requires
        k <= 16,
    ensures
        forall|j: int| k <= j < past_projectiles(lane, k) ==> holds_projectile(#[trigger] lane[j]),
    decreases 16 - k,
{
    if k < 16 && holds_projectile(lane[k]) {
        lemma_projectiles_skipped(lane, k + 1);
    }
}

/// A step of the lane scan at `i`, on a lane without beams before `i`,
/// leaves none before the column where the scan goes on.
proof fn lemma_step_no_beam(lane: Seq<Option<Object>>, i: int)
    requires
        lane.len() == 16,
        0 <= i < 16,
        forall|k: int| 0 <= k < i ==> lane[k] != Some(Object::Beam),
    ensures
        forall|k: int|
            0 <= k < lane_step(lane, i).1 && k < 16 ==> lane_step(lane, i).0[k] != Some(
                Object::Beam,
            ),
{
    lemma_lane_step(lane, i);
    match lane[i] {
        None => {},
        Some(object) => {
            let cleared = lane.update(i, None);
            lemma_past_projectiles(cleared, i + 1);
            lemma_projectiles_skipped(cleared, i + 1);
        },
    }
}

/// The scan from `i` on, of a lane without beams before `i`, leaves no
/// beam anywhere.
proof fn lemma_scan_no_beam(lane: Seq<Option<Object>>, i: int)
    requires
        lane.len() == 16,
        0 <= i <= 17,
        forall|k: int| 0 <= k < i && k < 16 ==> lane[k] != Some(Object::Beam),
    ensures
        forall|k: int| 0 <= k < 16 ==> lane_scan(lane, i)[k] != Some(Object::Beam),
    decreases 17 - i,
{
    if i < 16 {
        lemma_lane_step(lane, i);
        lemma_step_no_beam(lane, i);
        lemma_scan_no_beam(lane_step(lane, i).0, lane_step(lane, i).1);
    }
}

/// A lane move leaves no beam: every beam decays, and nothing else becomes
/// one.
pub proof fn law_lane_move_leaves_no_beam(lane: Seq<Option<Object>>)
    requires
        lane.len() == 16,
    ensures
        forall|k: int| 0 <= k < 16 ==> lane_scan(lane, 0)[k] != Some(Object::Beam),
{
    lemma_scan_no_beam(lane, 0);
}

/// What the ship meets while it flashes costs no health: only a health
/// pick-up changes it, by one, and starts the flashing over.
proof fn lemma_collided_while_flashing(before: ShooterState)
    requires
        before.ship_health_flash_time > 0,
    ensures
        before.collided().ship_row == before.ship_row,
        before.collided().ship_health == before.ship_health ==> before.collided().ship_health_flash_time
            == before.ship_health_flash_time,
        before.collided().ship_health != before.ship_health ==> before.collided().ship_health
            == before.ship_health + 1 && before.collided().ship_health_flash_time
            == SHIP_HEALTH_FLASH_TIME,
{
}

/// Up to the count down, a frame with the ship flashing costs no health:
/// only health pick-ups raise it, each starting the flashing over.
proof fn lemma_flown_while_flashing(before: ShooterState, raw_input: [i8; 2], state: u32)
    requires
        before.ship_health_flash_time > 0,
    ensures
        ({
            let after = before.flown(raw_input, state).0;
            &&& after.ship_health >= before.ship_health
            &&& after.ship_health == before.ship_health ==> after.ship_health_flash_time
                == before.ship_health_flash_time
            &&& after.ship_health > before.ship_health ==> after.ship_health_flash_time
                == SHIP_HEALTH_FLASH_TIME
        }),
{
    let powered = if raw_input[0] == -1 {
        before.powered_up()
    } else {
        before
    };
    assert(powered.ship_health == before.ship_health);
    assert(powered.ship_health_flash_time == before.ship_health_flash_time);
    let moved = powered.ship_moved(raw_input[1]);
    if raw_input[1] == 1 || raw_input[1] == -1 {
        let turned = ShooterState {
            ship_row: if raw_input[1] == 1 {
                1
            } else {
                0
            },
            ..powered
        };
        lemma_collided_while_flashing(turned);
    }
    let queued = moved.shot_queued(raw_input[0]);
    assert(queued.ship_health == moved.ship_health);
    assert(queued.ship_health_flash_time == moved.ship_health_flash_time);
    if queued.update_cooldown == 0 {
        let fired = queued.fired(raw_input[0]);
        assert(fired.ship_health == queued.ship_health);
        assert(fired.ship_health_flash_time == queued.ship_health_flash_time);
        let lanes = fired.lanes_moved();
        let (spawned, next) = lanes.spawned(state);
        assert(spawned.ship_health == queued.ship_health);
        assert(spawned.ship_health_flash_time == queued.ship_health_flash_time);
        lemma_collided_while_flashing(spawned);
    }
}

/// While the ship flashes after a hit it loses no health, and each frame
/// counts the flashing down by one, so the shield lasts
/// `SHIP_HEALTH_FLASH_TIME` frames; only a health pick-up starts it over.
pub proof fn law_flashing_counts_down(before: ShooterState, raw_input: [i8; 2], state: u32)
    requires
        before.ship_health > 0,
        before.ship_health_flash_time > 0,
    ensures
        ({
            let after = before.frame(raw_input, state).0;
            &&& after.ship_health >= before.ship_health
            &&& after.ship_health == before.ship_health ==> after.ship_health_flash_time
                == before.ship_health_flash_time - 1
            &&& after.ship_health > before.ship_health ==> after.ship_health_flash_time
                == SHIP_HEALTH_FLASH_TIME - 1
        }),
{
    lemma_flown_while_flashing(before, raw_input, state);
}

/// An asteroid that reaches the ship while it is not flashing costs a
/// health point and starts the flashing.
pub proof fn law_unshielded_hit(before: ShooterState)
    requires
        before.ship_health > 0,
        before.ship_health_flash_time == 0,
        before.cell(1, before.ship_row as int) == Some(Object::Asteroid) || before.cell(
            1,
            before.ship_row as int,
        ) == Some(Object::Asteroid2X),
    ensures
        before.collided().ship_health == before.ship_health - 1,
        before.collided().ship_health_flash_time == SHIP_HEALTH_FLASH_TIME,
{
}

} // verus!
