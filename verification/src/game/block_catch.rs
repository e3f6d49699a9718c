use vstd::prelude::*;
use crate::game::position::{Position, lemma_small_coordinates, lemma_row_bound, pack, low_mask};
use crate::game::GameMode;
use crate::lcd::format::{num_digits, decimal_digits, lemma_digit_count};
use crate::rng::{Rng, rng, xorshift};
use crate::screen::{Screen, written, score_line, lemma_written_concat};

verus! {

broadcast use crate::screen::lemma_extends_refl;

pub const MAX_BLOCK_MOTION_TIME: u8 = 30;

pub const MAX_DIFFICULTY_TIME: u8 = 60;

pub const INITIAL_MAX_BLOCK_SPAWN_TIME: u8 = 5;

pub const GAME_OVER_TIME: u8 = 240;

pub const PLAYER_CHARACTER: u8 = 0;

#[derive(Copy, Clone, PartialEq, Eq, Debug, Structural)]
pub enum Tile {
    Empty,
    Collectible,
    Wall,
}

impl Tile {
    /// The character that shows the tile: `_`, the collectible's custom
    /// character 2, a full block.
    pub open spec fn code_of(self) -> u8 {
        match self {
            Tile::Empty => 95,
            Tile::Collectible => 0x02,
            Tile::Wall => 0xff,
        }
    }

    pub fn code(self) -> (code: u8)
        ensures
            code == self.code_of(),
    {
        match self {
            Tile::Empty => 95,
            Tile::Collectible => 0x02,
            Tile::Wall => 0xff,
        }
    }

    pub open spec fn marker_of(self) -> u8 {
        match self {
            Tile::Empty => 95,
            Tile::Collectible => 46,
            Tile::Wall => 32,
        }
    }

    /// How the tile shows in the guide of the next block: `_`, `.`, blank.
    pub fn marker_tile(self) -> (marker: u8)
        ensures
            marker == self.marker_of(),
    {
        match self {
            Tile::Empty => 95,
            Tile::Collectible => 46,
            Tile::Wall => 32,
        }
    }

    pub open spec fn of_roll(roll: u32) -> Tile {
        if roll == 0 {
            Tile::Empty
        } else if roll == 1 {
            Tile::Collectible
        } else {
            Tile::Wall
        }
    }

    /// One of the three tiles, each as likely.
    pub fn random(generator: &mut Rng) -> (tile: Tile)
        ensures
            final(generator).state == xorshift(old(generator).state),
            tile == Tile::of_roll(xorshift(old(generator).state) % 3),
    {
        let roll = rng(generator) % 3;
        if roll == 0 {
            Tile::Empty
        } else if roll == 1 {
            Tile::Collectible
        } else {
            Tile::Wall
        }
    }
}

/// A 2x2 block of tiles, `tiles[row][column]`.
#[derive(Copy, Clone, PartialEq, Eq, Debug)]
pub struct Block {
    pub tiles: [[Tile; 2]; 2],
}

/// Whether two optional positions are the same.
fn same_position(a: Option<Position>, b: Option<Position>) -> (same: bool)
    ensures
        same == (a == b),
{
    match (a, b) {
        (Some(x), Some(y)) => x.0 == y.0,
        (None, None) => true,
        _ => false,
    }
}

/// What `Block::draw_with_map_at` shows of each tile.
#[derive(Copy, Clone, Debug)]
pub enum BlockMap {
    /// The tiles, except at the position given.
    Tiles(Option<Position>),
    /// The guide markers that are not blank, except at the position given.
    Guide(Option<Position>),
    /// Blanks, except at the position given.
    Clear(Option<Position>),
}

/// What `map` shows for `tile` at `position`, if anything.
pub open spec fn mapped(map: BlockMap, tile: Tile, position: Position) -> Option<u8> {
    match map {
        BlockMap::Tiles(skip) => if Some(position) != skip {
            Some(tile.code_of())
        } else {
            None
        },
        BlockMap::Guide(skip) => if Some(position) == skip || tile.marker_of() == 32 {
            None
        } else {
            Some(tile.marker_of())
        },
        BlockMap::Clear(skip) => if Some(position) != skip {
            Some(32u8)
        } else {
            None
        },
    }
}

/// The cells after `block` is drawn as columns `2 * index` and
/// `2 * index + 1` with `map`: each tile's cell shows what `map` gives for
/// it, or keeps what it showed.
pub open spec fn block_drawn(block: Block, map: BlockMap, index: int, cells: Seq<u8>) -> Seq<u8> {
    Seq::new(
        cells.len(),
        |k: int|
            {
                let c = k % 16;
                let r = k / 16;
                let shown = mapped(
                    map,
                    block.tiles[r][c - 2 * index],
                    crate::game::position::GenericPosition::<1>::from_bits(pack(1, c as u8, r as u8)),
                );
                if 2 * index <= c < 2 * index + 2 && 0 <= r < 2 && shown is Some {
                    shown.unwrap()
                } else {
                    cells[k]
                }
            },
    )
}

fn map_tile(map: BlockMap, tile: Tile, position: Position) -> (shown: Option<u8>)
    ensures
        shown == mapped(map, tile, position),
{
    match map {
        BlockMap::Tiles(skip) => if !same_position(Some(position), skip) {
            Some(tile.code())
        } else {
            None
        },
        BlockMap::Guide(skip) => {
            let marker = tile.marker_tile();
            if same_position(Some(position), skip) || marker == 32u8 {
                None
            } else {
                Some(marker)
            }
        },
        BlockMap::Clear(skip) => if !same_position(Some(position), skip) {
            Some(32u8)
        } else {
            None
        },
    }
}

/// Number of tiles `t` in `block`.
pub open spec fn count_block(block: Block, t: Tile) -> nat {
    (if block.tiles[0][0] == t {
        1nat
    } else {
        0nat
    }) + (if block.tiles[0][1] == t {
        1nat
    } else {
        0nat
    }) + (if block.tiles[1][0] == t {
        1nat
    } else {
        0nat
    }) + (if block.tiles[1][1] == t {
        1nat
    } else {
        0nat
    })
}

/// The tile of a block with cell number `id`: row `id / 2`, column `id % 2`.
pub open spec fn block_cell(block: Block, id: int) -> Tile {
    block.tiles[id / 2][id % 2]
}

/// The four cells of a block, `2 * row + column`.
pub open spec fn block_cells(block: Block) -> Seq<Tile> {
    Seq::new(4, |id: int| block_cell(block, id))
}

/// One random placement: `tile` goes on the free cell at index
/// `xorshift(state) % free.len()` of `free`, whose place in `free` the last
/// free cell takes. Also the generator's next state.
pub open spec fn scatter_step(cells: Seq<Tile>, free: Seq<u8>, state: u32, tile: Tile) -> (
    Seq<Tile>,
    Seq<u8>,
    u32,
) {
    if free.len() == 0 {
        (cells, free, state)
    } else {
        let next = xorshift(state);
        let i = (next % (free.len() as u32)) as int;
        let last = free.len() - 1;
        (cells.update(free[i] as int, tile), free.update(i, free[last]).take(last), next)
    }
}

/// `n` random placements of `tile`, one after the other.
pub open spec fn scatter(cells: Seq<Tile>, free: Seq<u8>, state: u32, tile: Tile, n: nat) -> (
    Seq<Tile>,
    Seq<u8>,
    u32,
)
    decreases n,
{
    if n == 0 {
        (cells, free, state)
    } else {
        let (c, f, s) = scatter(cells, free, state, tile, (n - 1) as nat);
        scatter_step(c, f, s, tile)
    }
}

/// The cells of a random block and the generator's state after it: from
/// `start` up to (not including) `end` walls, and with chance one in
/// `chance` (none for 0) a collectible, placed one by one on free cells
/// (see `scatter`).
pub open spec fn random_block(state: u32, start: u8, end: u8, chance: u8) -> (Seq<Tile>, u32) {
    let x1 = xorshift(state);
    let walls = start + x1 % ((end - start) as u32);
    let collectible = chance > 0 && xorshift(x1) < 0xffff_ffffu32 / (chance as u32);
    let placing = if chance > 0 {
        xorshift(x1)
    } else {
        x1
    };
    let (cells, free, next) = scatter(
        seq![Tile::Empty, Tile::Empty, Tile::Empty, Tile::Empty],
        seq![0u8, 1, 2, 3],
        placing,
        Tile::Wall,
        walls as nat,
    );
    if collectible {
        let (cells, free, next) = scatter_step(cells, free, next, Tile::Collectible);
        (cells, next)
    } else {
        (cells, next)
    }
}

/// The first slot from `k` on that holds a block.
pub open spec fn first_block_from(blocks: [Option<Block>; 8], k: int) -> Option<int>
    decreases 8 - k,
{
    if k < 0 || k >= 8 {
        None
    } else if blocks[k] is Some {
        Some(k)
    } else {
        first_block_from(blocks, k + 1)
    }
}

proof fn lemma_first_block_from(blocks: [Option<Block>; 8], i: int, k: int)
    requires
        0 <= i <= k <= 8,
        forall|j: int| i <= j < k ==> blocks[j] is None,
    ensures
        k < 8 && blocks[k] is Some ==> first_block_from(blocks, i) == Some(k),
        k == 8 ==> first_block_from(blocks, i) is None,
    decreases k - i,
{
    if i < k {
        lemma_first_block_from(blocks, i + 1, k);
    }
}

impl Block {
    /// The tile at `position` (its column taken modulo 2).
    pub open spec fn at(self, position: Position) -> Tile {
        self.tiles[position.row_of() as int][(position.column_of() % 2) as int]
    }

    pub fn index(&self, position: Position) -> (tile: Tile)
        ensures
            tile == self.at(position),
    {
        proof {
            lemma_row_bound(1, position.bits());
            let c = position.column_of();
            assert(c & 1 == c % 2) by (bit_vector);
        }
        self.tiles[position.row() as usize][(position.column() & 1) as usize]
    }

    pub fn set(&mut self, position: Position, tile: Tile)
        ensures
            final(self).at(position) == tile,
            forall|r: int, c: int|
                0 <= r < 2 && 0 <= c < 2 && (r != position.row_of() || c != position.column_of()
                    % 2) ==> final(self).tiles[r][c] == old(self).tiles[r][c],
    {
        proof {
            lemma_row_bound(1, position.bits());
            let c = position.column_of();
            assert(c & 1 == c % 2) by (bit_vector);
        }
        self.tiles[position.row() as usize][(position.column() & 1) as usize] = tile;
    }

    /// A random block: `max_walls_start` to `max_walls_end - 1` walls, and a
    /// collectible with chance one in `reciprocal_collectible_chance` (none
    /// for 0), each on a different random tile; the rest empty.
    pub fn random(
        generator: &mut Rng,
        max_walls_start: u8,
        max_walls_end: u8,
        reciprocal_collectible_chance: u8,
    ) -> (block: Self)
        requires
            max_walls_start < max_walls_end <= 5,
            max_walls_end == 5 ==> reciprocal_collectible_chance == 0,
        ensures
            ({
                let x1 = xorshift(old(generator).state);
                let walls = max_walls_start + x1 % ((max_walls_end - max_walls_start) as u32);
                let collectible = reciprocal_collectible_chance > 0 && xorshift(x1) < 0xffff_ffffu32
                    / (reciprocal_collectible_chance as u32);
                &&& count_block(block, Tile::Wall) == walls
                &&& max_walls_start <= count_block(block, Tile::Wall) < max_walls_end
                &&& count_block(block, Tile::Collectible) == if collectible {
                    1nat
                } else {
                    0nat
                }
                &&& count_block(block, Tile::Empty) + count_block(block, Tile::Wall) + count_block(
                    block,
                    Tile::Collectible,
                ) == 4
            }),
            (block_cells(block), final(generator).state) == random_block(
                old(generator).state,
                max_walls_start,
                max_walls_end,
                reciprocal_collectible_chance,
            ),
    {
        let mut positions: [u8; 4] = [0, 1, 2, 3];
        let mut length: u8 = 4;
        let mut block = Block { tiles: [[Tile::Empty; 2]; 2] };
        let num_walls = max_walls_start + (rng(generator) % ((max_walls_end - max_walls_start) as u32)) as u8;
        let collectible = reciprocal_collectible_chance > 0 && rng(generator) < 0xffff_ffffu32 / (
        reciprocal_collectible_chance as u32);
        let ghost placing = generator.state;
        let ghost start_cells = block_cells(block);
        let ghost start_free = positions@.take(4);
        assert(start_cells =~= seq![Tile::Empty, Tile::Empty, Tile::Empty, Tile::Empty]);
        assert(start_free =~= seq![0u8, 1, 2, 3]);
        let mut placed: u8 = 0;
        while placed < num_walls
            invariant
                (block_cells(block), positions@.take(length as int), generator.state) == scatter(
                    start_cells,
                    start_free,
                    placing,
                    Tile::Wall,
                    placed as nat,
                ),
                0 <= length <= 4,
                placed <= num_walls <= 4,
                length + placed == 4,
                collectible ==> num_walls < 4,
                forall|k: int| 0 <= k < length ==> positions[k] < 4,
                forall|k: int| 0 <= k < length ==> block_cell(block, positions[k] as int) == Tile::Empty,
                forall|a: int, b: int| 0 <= a < b < length ==> positions[a] != positions[b],
                count_block(block, Tile::Empty) == length,
                count_block(block, Tile::Wall) == placed,
                count_block(block, Tile::Collectible) == 0,
            decreases num_walls - placed,
        {
            Self::insert(&mut block, &mut positions, &mut length, generator, Tile::Wall);
            placed = placed + 1;
        }
        if collectible {
            Self::insert(&mut block, &mut positions, &mut length, generator, Tile::Collectible);
        }
        block
    }

    /// Puts `tile` on one of the `length` empty cells listed in `positions`,
    /// picked at random, and drops that cell from the list.
    #[verifier::spinoff_prover]
    #[verifier::rlimit(30)]
    fn insert(block: &mut Block, positions: &mut [u8; 4], length: &mut u8, generator: &mut Rng, tile: Tile)
        requires
            0 < *old(length) <= 4,
            tile != Tile::Empty,
            forall|k: int| 0 <= k < *old(length) ==> old(positions)[k] < 4,
            forall|k: int|
                0 <= k < *old(length) ==> block_cell(*old(block), old(positions)[k] as int)
                    == Tile::Empty,
            forall|a: int, b: int| 0 <= a < b < *old(length) ==> old(positions)[a] != old(positions)[b],
            count_block(*old(block), Tile::Empty) == *old(length),
        ensures
            *final(length) == *old(length) - 1,
            forall|k: int| 0 <= k < *final(length) ==> final(positions)[k] < 4,
            forall|k: int|
                0 <= k < *final(length) ==> block_cell(*final(block), final(positions)[k] as int)
                    == Tile::Empty,
            forall|a: int, b: int|
                0 <= a < b < *final(length) ==> final(positions)[a] != final(positions)[b],
            count_block(*final(block), Tile::Empty) == *final(length),
            (
                block_cells(*final(block)),
                final(positions)@.take(*final(length) as int),
                final(generator).state,
            ) == scatter_step(
                block_cells(*old(block)),
                old(positions)@.take(*old(length) as int),
                old(generator).state,
                tile,
            ),
            count_block(*final(block), tile) == count_block(*old(block), tile) + 1,
            forall|t: Tile|
                t != tile && t != Tile::Empty ==> count_block(*final(block), t) == count_block(
                    *old(block),
                    t,
                ),
    {
        let ghost free0 = positions@.take(*length as int);
        let ghost cells0 = block_cells(*block);
        let i = (rng(generator) % (*length as u32)) as u8;
        *length = *length - 1;
        let id = positions[i as usize];
        assert(id < 4);
        block.tiles[(id / 2) as usize][(id % 2) as usize] = tile;
        let last = positions[*length as usize];
        positions[i as usize] = last;
        proof {
            assert(block_cells(*block) =~= cells0.update(free0[i as int] as int, tile)) by {
                assert forall|k: int| 0 <= k < 4 implies #[trigger] block_cells(*block)[k] == cells0.update(
                    free0[i as int] as int,
                    tile,
                )[k] by {
                    assert(k == (k / 2) * 2 + k % 2);
                    assert(id == (id / 2) * 2 + id % 2);
                }
            }
            assert(positions@.take(*length as int) =~= free0.update(i as int, free0[*length as int]).take(
                *length as int,
            ));
            assert forall|k: int| 0 <= k < *length implies block_cell(*block, positions[k] as int)
                == Tile::Empty by {
                let other = positions[k];
                assert(other != id || k == i);
                if k == i {
                    assert(old(positions)[*length as int] != old(positions)[i as int]);
                }
            }
            assert forall|a: int, b: int| 0 <= a < b < *length implies positions[a] != positions[b] by {
                if a == i {
                    assert(old(positions)[*length as int] != old(positions)[b]);
                } else if b == i {
                    assert(old(positions)[*length as int] != old(positions)[a]);
                }
            }
        }
    }
}

impl Block {
    /// Draws the block as LCD columns `2 * index` and `2 * index + 1`,
    /// showing for each tile what `map` gives.
    pub fn draw_with_map_at(&self, screen: &mut Screen, map: BlockMap, index: u8)
        requires
            old(screen).wf(),
            index < 8,
        ensures
            final(screen).extends(*old(screen)),
            final(screen)@.character_set == old(screen)@.character_set,
            forall|c: int, r: int|
                0 <= c < 16 && 0 <= r < 2 ==> #[trigger] final(screen).cell(c, r) == if 2 * index
                    <= c < 2 * index + 2 && mapped(
                    map,
                    self.tiles[r][c - 2 * index],
                    crate::game::position::GenericPosition::<1>::from_bits(pack(1, c as u8, r as u8)),
                ) is Some {
                    mapped(
                        map,
                        self.tiles[r][c - 2 * index],
                        crate::game::position::GenericPosition::<1>::from_bits(pack(1, c as u8, r as u8)),
                    ).unwrap()
                } else {
                    old(screen).cell(c, r)
                },
            final(screen)@.cells == block_drawn(*self, map, index as int, old(screen)@.cells),
    {
        let ghost s0 = *screen;
        proof {
            crate::screen::lemma_extends_refl(*screen);
        }
        let start_column = index * 2;
        let mut i: u8 = 0;
        while i < 2
            invariant
                0 <= i <= 2,
                start_column == 2 * index,
                index < 8,
                screen.extends(s0),
                s0.wf(),
                screen@.character_set == s0@.character_set,
                forall|c: int, r: int|
                    0 <= c < 16 && 0 <= r < 2 ==> #[trigger] screen.cell(c, r) == if r < i && 2 * index
                        <= c < 2 * index + 2 && mapped(
                        map,
                        self.tiles[r][c - 2 * index],
                        crate::game::position::GenericPosition::<1>::from_bits(pack(1, c as u8, r as u8)),
                    ) is Some {
                        mapped(
                            map,
                            self.tiles[r][c - 2 * index],
                            crate::game::position::GenericPosition::<1>::from_bits(pack(1, c as u8, r as u8)),
                        ).unwrap()
                    } else {
                        s0.cell(c, r)
                    },
            decreases 2 - i,
        {
            let mut previous = false;
            let mut j: u8 = 0;
            while j < 2
                invariant
                    0 <= i < 2,
                    0 <= j <= 2,
                    start_column == 2 * index,
                    index < 8,
                    screen.extends(s0),
                    s0.wf(),
                    screen@.character_set == s0@.character_set,
                    previous ==> screen@.cursor_column == start_column + j && screen@.cursor_row == i,
                    forall|c: int, r: int|
                        0 <= c < 16 && 0 <= r < 2 ==> #[trigger] screen.cell(c, r) == if (r < i || (r
                            == i && c < 2 * index + j)) && 2 * index <= c < 2 * index + 2 && mapped(
                            map,
                            self.tiles[r][c - 2 * index],
                            crate::game::position::GenericPosition::<1>::from_bits(pack(1, c as u8, r as u8)),
                        ) is Some {
                            mapped(
                                map,
                                self.tiles[r][c - 2 * index],
                                crate::game::position::GenericPosition::<1>::from_bits(pack(1, c as u8, r as u8)),
                            ).unwrap()
                        } else {
                            s0.cell(c, r)
                        },
                decreases 2 - j,
            {
                let column = start_column + j;
                let position = Position::new(column, i);
                proof {
                    lemma_small_coordinates(column, i);
                }
                let tile = self.tiles[i as usize][j as usize];
                let shown = map_tile(map, tile, position);
                let ghost before = *screen;
                match shown {
                    Some(byte) => {
                        if !previous {
                            screen.set_cursor(position);
                        }
                        let ghost middle = *screen;
                        screen.write(byte);
                        proof {
                            crate::screen::lemma_extends_trans(before, middle, *screen);
                        }
                    },
                    None => {
                        proof {
                            crate::screen::lemma_extends_refl(*screen);
                        }
                    },
                }
                previous = shown.is_some();
                proof {
                    crate::screen::lemma_extends_trans(s0, before, *screen);
                    let cc = (start_column + j) as int;
                    assert(cc - 2 * index == j);
                    assert forall|c: int, r: int| 0 <= c < 16 && 0 <= r < 2 implies #[trigger] screen.cell(c, r)
                        == if (r < i || (r == i && c < 2 * index + j + 1)) && 2 * index <= c < 2
                        * index + 2 && mapped(
                        map,
                        self.tiles[r][c - 2 * index],
                        crate::game::position::GenericPosition::<1>::from_bits(pack(1, c as u8, r as u8)),
                    ) is Some {
                        mapped(
                            map,
                            self.tiles[r][c - 2 * index],
                            crate::game::position::GenericPosition::<1>::from_bits(pack(1, c as u8, r as u8)),
                        ).unwrap()
                    } else {
                        s0.cell(c, r)
                    } by {
                        assert(crate::screen::cell_index(c, r) == r * 16 + c);
                        if c == cc && r == i {
                            assert(c as u8 == column && r as u8 == i);
                            position.lemma_bits(position);
                            assert(position == crate::game::position::GenericPosition::<1>::from_bits(
                                pack(1, c as u8, r as u8),
                            ));
                            assert(self.tiles[r][c - 2 * index] == tile);
                        } else {
                            assert(screen.cell(c, r) == before.cell(c, r));
                        }
                    }
                }
                j = j + 1;
            }
            i = i + 1;
        }
        proof {
            assert forall|k: int| 0 <= k < 32 implies #[trigger] screen@.cells[k] == block_drawn(
                *self,
                map,
                index as int,
                s0@.cells,
            )[k] by {
                assert(k == (k / 16) * 16 + k % 16);
                assert(screen.cell(k % 16, k / 16) == screen@.cells[k]);
            }
            assert(screen@.cells =~= block_drawn(*self, map, index as int, s0@.cells));
        }
    }

    /// Draws the block's tiles, except at `skip_position`.
    pub fn draw_at(&self, screen: &mut Screen, index: u8, skip_position: Option<Position>)
        requires
            old(screen).wf(),
            index < 8,
        ensures
            final(screen).extends(*old(screen)),
            final(screen)@.character_set == old(screen)@.character_set,
            final(screen)@.cells == block_drawn(
                *self,
                BlockMap::Tiles(skip_position),
                index as int,
                old(screen)@.cells,
            ),
    {
        self.draw_with_map_at(screen, BlockMap::Tiles(skip_position), index)
    }

    /// Draws the guide markers of the block, except at `skip_position`.
    pub fn draw_guide_at(&self, screen: &mut Screen, index: u8, skip_position: Option<Position>)
        requires
            old(screen).wf(),
            index < 8,
        ensures
            final(screen).extends(*old(screen)),
            final(screen)@.character_set == old(screen)@.character_set,
            final(screen)@.cells == block_drawn(
                *self,
                BlockMap::Guide(skip_position),
                index as int,
                old(screen)@.cells,
            ),
    {
        self.draw_with_map_at(screen, BlockMap::Guide(skip_position), index)
    }

    /// Blanks the block's cells, except at `skip_position`.
    pub fn clear_at(&self, screen: &mut Screen, index: u8, skip_position: Option<Position>)
        requires
            old(screen).wf(),
            index < 8,
        ensures
            final(screen).extends(*old(screen)),
            final(screen)@.character_set == old(screen)@.character_set,
            final(screen)@.cells == block_drawn(
                *self,
                BlockMap::Clear(skip_position),
                index as int,
                old(screen)@.cells,
            ),
    {
        self.draw_with_map_at(screen, BlockMap::Clear(skip_position), index)
    }
}

pub struct BlockCatch {
    pub player_position: Option<Position>,
    pub blocks: [Option<Block>; 8],
    pub block_motion_timer: u8,
    pub block_spawn_timer: u8,
    pub max_block_spawn_time: u8,
    pub difficulty_timer: u8,
    pub score: u32,
}

/// The column that an input moves the player to: right 1, left 0.
pub open spec fn target_column(column: int, input: i8) -> int {
    if input == 1 {
        1
    } else if input == -1 {
        0
    } else {
        column
    }
}

/// The row that an input moves the player to: down 1, up 0.
pub open spec fn target_row(row: int, input: i8) -> int {
    if input == 1 {
        1
    } else if input == -1 {
        0
    } else {
        row
    }
}

/// `after` is `before` with the collectible at column `c`, row `r` (if one is
/// there) taken.
pub open spec fn took(before: Block, after: Block, c: int, r: int) -> bool {
    forall|i: int, j: int|
        0 <= i < 2 && 0 <= j < 2 ==> #[trigger] after.tiles[i][j] == if i == r && j == c
            && before.tiles[i][j] == Tile::Collectible {
            Tile::Empty
        } else {
            before.tiles[i][j]
        }
}

impl BlockCatch {
    pub open spec fn wf(self) -> bool {
        &&& self.player_position matches Some(p) ==> p.column_of() <= 1
        &&& self.block_spawn_timer <= self.max_block_spawn_time + 1
    }

    /// The cell the player would move to, as column and row.
    pub open spec fn target(self, input: [i8; 2]) -> (int, int) {
        let p = self.player_position.unwrap();
        (
            target_column(p.column_of() as int, input[0]),
            target_row(p.row_of() as int, input[1]),
        )
    }

    /// Whether `input` moves the player: it is in play, the input changes
    /// its cell, and no wall of the block it is in stands there.
    pub open spec fn move_allowed(self, input: [i8; 2]) -> bool {
        let p = self.player_position.unwrap();
        let (c, r) = self.target(input);
        &&& self.player_position is Some
        &&& (c != p.column_of() || r != p.row_of())
        &&& !(self.blocks[0] matches Some(b) && b.tiles[r][c] == Tile::Wall)
    }

    /// Block catch as it starts: the player at the top left, no blocks,
    /// the timers at their start, no score.
    pub open spec fn initial(self) -> bool {
        &&& self.wf()
        &&& self.player_position matches Some(p) && p.column_of() == 0 && p.row_of() == 0
        &&& forall|k: int| 0 <= k < 8 ==> self.blocks[k] is None
        &&& self.block_motion_timer == 0
        &&& self.block_spawn_timer == 0
        &&& self.max_block_spawn_time == INITIAL_MAX_BLOCK_SPAWN_TIME
        &&& self.difficulty_timer == MAX_DIFFICULTY_TIME
        &&& self.score == 0
    }

    pub fn default() -> (game: Self)
        ensures
            game.initial(),
    {
        proof {
            lemma_small_coordinates(0, 0);
        }
        BlockCatch {
            player_position: Some(Position::new(0, 0)),
            blocks: [None; 8],
            block_motion_timer: 0,
            block_spawn_timer: 0,
            max_block_spawn_time: INITIAL_MAX_BLOCK_SPAWN_TIME,
            difficulty_timer: MAX_DIFFICULTY_TIME,
            score: 0,
        }
    }

    /// The index of the first block, if any.
    /// What the player's old cell shows once the player leaves it: the
    /// guide marker of the first block there is, or a blank.
    pub open spec fn marker_at(self, position: Position) -> u8 {
        match first_block_from(self.blocks, 0) {
            Some(k) => self.blocks[k].unwrap().at(position).marker_of(),
            None => 32,
        }
    }

    pub fn first_block_index(&self) -> (index: Option<u8>)
        ensures
            match index {
                Some(k) => first_block_from(self.blocks, 0) == Some(k as int),
                None => first_block_from(self.blocks, 0) is None,
            },
            match index {
                Some(k) => k < 8 && self.blocks[k as int] is Some && forall|j: int|
                    0 <= j < k ==> self.blocks[j] is None,
                None => forall|j: int| 0 <= j < 8 ==> self.blocks[j] is None,
            },
    {
        let mut num_empty: u8 = 0;
        while num_empty < 8 && self.blocks[num_empty as usize].is_none()
            invariant
                0 <= num_empty <= 8,
                forall|j: int| 0 <= j < num_empty ==> self.blocks[j] is None,
            decreases 8 - num_empty,
        {
            num_empty = num_empty + 1;
        }
        proof {
            lemma_first_block_from(self.blocks, 0, num_empty as int);
        }
        if num_empty < 8 {
            Some(num_empty)
        } else {
            None
        }
    }

    /// Moves the player to column 1 (right) or 0 (left) and row 1 (down) or
    /// 0 (up) of the block it is in, unless a wall stands there. A
    /// collectible on the way is taken without scoring. Returns whether the
    /// player moved.
    pub fn move_player_by(&mut self, screen: &mut Screen, input: [i8; 2]) -> (moved: bool)
        requires
            old(self).wf(),
            old(screen).wf(),
        ensures
            final(self).wf(),
            final(screen).extends(*old(screen)),
            final(screen)@.character_set == old(screen)@.character_set,
            moved == old(self).move_allowed(input),
            !moved ==> *final(self) == *old(self),
            !moved ==> final(screen)@.cells == old(screen)@.cells,
            moved ==> ({
                let p = old(self).player_position.unwrap();
                let (c, r) = old(self).target(input);
                final(screen)@.cells == old(screen)@.cells.update(
                    crate::screen::cell_index(p.column_of() as int, p.row_of() as int),
                    final(self).marker_at(p),
                ).update(crate::screen::cell_index(c, r), PLAYER_CHARACTER)
            }),
            moved ==> ({
                let (c, r) = old(self).target(input);
                &&& final(self).player_position matches Some(q) && q.column_of() == c
                    && q.row_of() == r
                &&& old(self).blocks[0] is None ==> final(self).blocks[0] is None
                &&& old(self).blocks[0] matches Some(b) ==> final(self).blocks[0] matches Some(nb)
                    && took(b, nb, c, r)
                &&& forall|k: int| 1 <= k < 8 ==> final(self).blocks[k] == old(self).blocks[k]
                &&& final(self).block_motion_timer == old(self).block_motion_timer
                &&& final(self).block_spawn_timer == old(self).block_spawn_timer
                &&& final(self).max_block_spawn_time == old(self).max_block_spawn_time
                &&& final(self).difficulty_timer == old(self).difficulty_timer
                &&& final(self).score == old(self).score
            }),
    {
        proof {
            crate::screen::lemma_extends_refl(*screen);
        }
        let position = match self.player_position {
            Some(position) => position,
            None => {
                return false;
            },
        };
        proof {
            lemma_row_bound(1, position.bits());
            lemma_small_coordinates(0, 0);
            lemma_small_coordinates(1, 1);
        }
        let mut new_position = position;
        if input[0] == 1 {
            new_position = new_position.with_column(1);
        } else if input[0] == -1 {
            new_position = new_position.with_column(0);
        }
        if input[1] == 1 {
            new_position = new_position.with_row(1);
        } else if input[1] == -1 {
            new_position = new_position.with_row(0);
        }
        proof {
            lemma_row_bound(1, new_position.bits());
            let a = position.bits();
            let b = new_position.bits();
            assert((a >> 1u8 == b >> 1u8 && a & 1u8 == b & 1u8) ==> a == b) by (bit_vector);
            assert(new_position.column_of() <= 1);
        }
        if new_position.same_place(position) {
            return false;
        }
        match self.blocks[0] {
            Some(mut block) => {
                let tile = block.index(new_position);
                if tile == Tile::Wall {
                    return false;
                }
                if tile == Tile::Collectible {
                    block.set(new_position, Tile::Empty);
                    self.blocks[0] = Some(block);
                }
            },
            None => {},
        }
        let ghost s0 = *screen;
        screen.set_cursor(position);
        let ghost a = *screen;
        let first = self.first_block_index();
        let marker = match first {
            Some(marker_block) => {
                match self.blocks[marker_block as usize] {
                    Some(b) => b.index(position).marker_tile(),
                    None => 32u8,
                }
            },
            None => 32u8,
        };
        assert(marker == self.marker_at(position));
        let ghost c0 = screen@.cells;
        screen.write(marker);
        proof {
            crate::screen::lemma_written_one(
                c0,
                position.column_of() as int,
                position.row_of() as int,
                marker,
            );
        }
        let ghost s1 = *screen;
        screen.set_cursor(new_position);
        let ghost b = *screen;
        let ghost c1 = screen@.cells;
        screen.write(PLAYER_CHARACTER);
        proof {
            crate::screen::lemma_extends_trans(s0, a, s1);
            crate::screen::lemma_extends_trans(s1, b, *screen);
            crate::screen::lemma_extends_trans(s0, s1, *screen);
            crate::screen::lemma_written_one(
                c1,
                new_position.column_of() as int,
                new_position.row_of() as int,
                PLAYER_CHARACTER,
            );
        }
        self.player_position = Some(new_position);
        true
    }
}

impl BlockCatch {
    /// The player's cell after `move_player_by(input)`, if it is in play.
    pub open spec fn cell_after_move(self, input: [i8; 2]) -> (int, int) {
        let p = self.player_position.unwrap();
        if self.move_allowed(input) {
            self.target(input)
        } else {
            (p.column_of() as int, p.row_of() as int)
        }
    }

    /// No block comes before slot `i`.
    pub open spec fn no_block_before(self, i: int) -> bool {
        forall|j: int| 0 <= j < i ==> #[trigger] self.blocks[j] is None
    }

    /// The cells after the blocks of slots `0..n` are drawn on `cells`: each
    /// block's tiles, the first slot's around the player; the first block
    /// that is not in slot 0 also draws its guide in slot 0.
    pub open spec fn draw_blocks(self, n: int, cells: Seq<u8>) -> Seq<u8>
        decreases n,
    {
        if n <= 0 {
            cells
        } else {
            let before = self.draw_blocks(n - 1, cells);
            let i = n - 1;
            match self.blocks[i] {
                None => before,
                Some(block) => if i == 0 {
                    block_drawn(block, BlockMap::Tiles(self.player_position), 0, before)
                } else {
                    let tiles = block_drawn(block, BlockMap::Tiles(None), i, before);
                    if self.no_block_before(i) {
                        block_drawn(block, BlockMap::Guide(self.player_position), 0, tiles)
                    } else {
                        tiles
                    }
                },
            }
        }
    }

    /// A blank screen with the player on its cell.
    pub open spec fn player_cells(self) -> Seq<u8> {
        let blank = Seq::new(32, |k: int| 32u8);
        match self.player_position {
            Some(p) => blank.update(
                crate::screen::cell_index(p.column_of() as int, p.row_of() as int),
                PLAYER_CHARACTER,
            ),
            None => blank,
        }
    }

    /// What `draw_full_screen` shows: the player and the blocks, and once
    /// the game is over the score on the top row.
    pub open spec fn full_screen_cells(self) -> Seq<u8> {
        if self.player_position is Some {
            self.draw_blocks(8, self.player_cells())
        } else {
            written(
                self.draw_blocks(8, self.player_cells()),
                2,
                0,
                score_line(seq![83u8, 99, 111, 114, 101, 58, 32], self.score),
            )
        }
    }

    /// Draws the player, the blocks (the first one around the player) and
    /// the guide of the first block when it is not yet under the player;
    /// once the game is over, the score.
    pub fn draw_full_screen(&self, screen: &mut Screen)
        requires
            old(screen).wf(),
            self.wf(),
        ensures
            final(screen).extends(*old(screen)),
            final(screen)@.character_set == old(screen)@.character_set,
            final(screen)@.cells == self.full_screen_cells(),
    {
        let ghost s0 = *screen;
        screen.clear();
        let ghost a = *screen;
        match self.player_position {
            Some(position) => {
                screen.set_cursor(position);
                let ghost b = *screen;
                screen.write(PLAYER_CHARACTER);
                proof {
                    lemma_row_bound(1, position.bits());
                    crate::screen::lemma_extends_trans(a, b, *screen);
                }
            },
            None => {
                proof {
                    crate::screen::lemma_extends_refl(a);
                }
            },
        }
        let ghost s1 = *screen;
        proof {
            crate::screen::lemma_extends_trans(s0, a, s1);
            crate::screen::lemma_extends_trans(s0, s1, *screen);
            assert(s1@.cells =~= self.player_cells());
        }
        let mut first = true;
        let mut i: u8 = 0;
        while i < 8
            invariant
                0 <= i <= 8,
                screen.extends(s0),
                screen.wf(),
                screen@.character_set == s0@.character_set,
                screen@.cells == self.draw_blocks(i as int, s1@.cells),
                first == self.no_block_before(i as int),
            decreases 8 - i,
        {
            let ghost before = *screen;
            match self.blocks[i as usize] {
                Some(block) => {
                    if i == 0 {
                        block.draw_at(screen, i, self.player_position);
                    } else {
                        block.draw_at(screen, i, None);
                        if first {
                            let ghost middle = *screen;
                            block.draw_guide_at(screen, 0, self.player_position);
                            proof {
                                crate::screen::lemma_extends_trans(before, middle, *screen);
                            }
                        }
                    }
                    first = false;
                },
                None => {
                    proof {
                        crate::screen::lemma_extends_refl(*screen);
                    }
                },
            }
            proof {
                crate::screen::lemma_extends_trans(s0, before, *screen);
                assert(self.no_block_before(i + 1) == (first && self.blocks[i as int] is None)) by {
                    if self.no_block_before(i as int) && self.blocks[i as int] is None {
                        assert forall|j: int| 0 <= j < i + 1 implies #[trigger] self.blocks[j] is None by {
                            if j < i {
                                assert(self.blocks[j] is None);
                            }
                        }
                    }
                }
            }
            i = i + 1;
        }
        if self.player_position.is_none() {
            let ghost s2 = *screen;
            proof {
                lemma_small_coordinates(2, 0);
                lemma_digit_count(self.score as nat);
            }
            screen.set_cursor(Position::new(2, 0));
            let ghost t0 = *screen;
            let label = [83u8, 99, 111, 114, 101, 58, 32];
            screen.print_bytes(&label);
            let ghost t1 = *screen;
            screen.print(self.score);
            proof {
                crate::screen::lemma_extends_trans(s2, t0, t1);
                crate::screen::lemma_extends_trans(s2, t1, *screen);
            }
            let ghost digits = decimal_digits(self.score as nat);
            let ghost text = label@ + digits;
            proof {
                lemma_written_concat(s2@.cells, 2, 0, label@, digits);
                assert(label@ =~= seq![83u8, 99, 111, 114, 101, 58, 32]);
            }
            let mut column: u8 = 7 + num_digits(self.score);
            while column < 16
                invariant
                    screen.extends(s2),
                    screen.wf(),
                    screen@.character_set == s0@.character_set,
                    7 + digits.len() <= column,
                    column <= 16 || column == 7 + digits.len(),
                    digits.len() <= 10,
                    text.len() == 7 + digits.len(),
                    text == seq![83u8, 99, 111, 114, 101, 58, 32] + digits,
                    screen@.cursor_row == 0,
                    screen@.cursor_column == column + 2,
                    screen@.cells == written(
                        s2@.cells,
                        2,
                        0,
                        text + Seq::new((column - 7 - digits.len()) as nat, |i: int| 32u8),
                    ),
                decreases 16 - column,
            {
                let ghost before = *screen;
                screen.write(32u8);
                proof {
                    crate::screen::lemma_extends_trans(s2, before, *screen);
                    let spaces = Seq::new((column - 7 - digits.len()) as nat, |i: int| 32u8);
                    lemma_written_concat(s2@.cells, 2, 0, text + spaces, seq![32u8]);
                    assert(text + spaces + seq![32u8] =~= text + Seq::new(
                        (column + 1 - 7 - digits.len()) as nat,
                        |i: int| 32u8,
                    ));
                }
                column = column + 1;
            }
            proof {
                crate::screen::lemma_extends_trans(s0, s2, *screen);
                assert(text + Seq::new((column - 7 - digits.len()) as nat, |i: int| 32u8) =~= score_line(
                    seq![83u8, 99, 111, 114, 101, 58, 32],
                    self.score,
                ));
            }
        }
    }

    /// `self` is `before` after a frame of block catch with the pad's axes
    /// `raw_input`, the generator going from `state` to `next`, and `mode`
    /// returned.
    pub open spec fn played(
        self,
        before: BlockCatch,
        raw_input: [i8; 2],
        state: u32,
        next: u32,
        mode: Option<GameMode>,
    ) -> bool {
        let t = if before.block_motion_timer > 0 {
            before.block_motion_timer - 1
        } else {
            0
        };
        let spawn = if before.block_spawn_timer > 0 {
            before.block_spawn_timer - 1
        } else {
            0
        };
        let difficulty = if before.difficulty_timer > 0 {
            before.difficulty_timer - 1
        } else {
            0
        };
        let (c, r) = before.cell_after_move(raw_input);
        &&& mode is Some ==> mode == Some(GameMode::Overworld) && self.score == before.score
        &&& (mode is Some <==> t == 0 && before.player_position is None)
        &&& !(t == 0 && before.player_position is Some) ==> next == state
        &&& t != 0 ==> self.block_motion_timer == t && self.score
            == before.score && self.block_spawn_timer
            == before.block_spawn_timer && (forall|k: int|
            1 <= k < 8 ==> self.blocks[k] == before.blocks[k])
        &&& t != 0 && before.player_position is Some ==> {
            &&& self.player_position matches Some(q) && q.column_of() == c && q.row_of() == r
            &&& before.move_allowed(raw_input) ==> match before.blocks[0] {
                Some(b) => self.blocks[0] matches Some(nb) && took(b, nb, c, r),
                None => self.blocks[0] is None,
            }
            &&& !before.move_allowed(raw_input) ==> self.blocks[0] == before.blocks[0]
        }
        &&& t != 0 && before.player_position is None ==> self.player_position is None
            && self.blocks[0] == before.blocks[0]
        &&& t == 0 && before.player_position is Some ==> {
            &&& self.player_position matches Some(q) ==> q.column_of() == c && q.row_of() == r
            &&& forall|k: int| 1 <= k < 7 ==> self.blocks[k] == before.blocks[k + 1]
            &&& (self.blocks[7] is Some <==> spawn == 0)
            &&& self.block_spawn_timer == if spawn == 0 {
                before.max_block_spawn_time as int
            } else {
                spawn
            }
            &&& self.difficulty_timer == if difficulty == 0
                && self.block_spawn_timer > 2 {
                MAX_DIFFICULTY_TIME as int
            } else {
                difficulty
            }
            &&& self.max_block_spawn_time == if difficulty == 0
                && self.block_spawn_timer > 2 {
                before.max_block_spawn_time - 1
            } else {
                before.max_block_spawn_time as int
            }
            &&& spawn == 0 ==> (self.blocks[7] matches Some(b) && (
                block_cells(b),
                next,
            ) == random_block(state, 1, 4, 2))
            &&& spawn != 0 ==> next == state
            &&& match before.blocks[1] {
                None => self.blocks[0] is None && self.score == before.score
                    && self.player_position is Some && self.block_motion_timer
                    == MAX_BLOCK_MOTION_TIME,
                Some(b) => {
                    &&& self.blocks[0] matches Some(nb) && took(b, nb, c, r)
                    &&& self.score == if b.tiles[r][c] == Tile::Collectible {
                        before.score + 1
                    } else {
                        before.score as int
                    }
                    &&& (self.player_position is None <==> b.tiles[r][c]
                        == Tile::Wall)
                    &&& self.block_motion_timer == if b.tiles[r][c] == Tile::Wall {
                        GAME_OVER_TIME
                    } else {
                        MAX_BLOCK_MOTION_TIME
                    }
                },
            }
        }
    }

    /// What a frame of block catch that takes `before` to `self` draws,
    /// from `earlier` to `later`: the whole screen when the blocks move,
    /// else the player's step (its old cell shows what lies there now).
    pub open spec fn frame_drawn(self, before: BlockCatch, raw_input: [i8; 2], earlier: Seq<u8>, later:
        Seq<u8>) -> bool {
        &&& before.block_motion_timer <= 1 && before.player_position is Some ==> later
            == self.full_screen_cells()
        &&& before.block_motion_timer > 1 || before.player_position is None ==> ({
            let p = before.player_position.unwrap();
            let (c, r) = before.target(raw_input);
            later == if before.move_allowed(raw_input) {
                earlier.update(
                    crate::screen::cell_index(p.column_of() as int, p.row_of() as int),
                    self.marker_at(p),
                ).update(crate::screen::cell_index(c, r), PLAYER_CHARACTER)
            } else {
                earlier
            }
        })
    }

    /// One frame of block catch: moves the player, and every
    /// `MAX_BLOCK_MOTION_TIME` frames moves the blocks one step towards the
    /// player, spawns a new one now and then (more often as time goes on),
    /// and settles what the player's cell holds in the block that reached
    /// it: a collectible scores, a wall ends the game. Returns the overworld
    /// `GAME_OVER_TIME` frames after the game ended.
    pub fn update(&mut self, screen: &mut Screen, generator: &mut Rng, raw_input: [i8; 2]) -> (mode:
        Option<GameMode>)
        requires
            old(self).wf(),
            old(screen).wf(),
            old(self).block_motion_timer <= 1 && old(self).player_position is Some
                && old(self).blocks[1] is Some ==> old(self).score < u32::MAX,
        ensures
            final(screen).extends(*old(screen)),
            mode is None ==> final(self).wf(),
            mode is Some ==> mode == Some(GameMode::Overworld) && final(self).score == old(self).score,
            final(self).played(*old(self), raw_input, old(generator).state, final(generator).state, mode),
            final(self).frame_drawn(*old(self), raw_input, old(screen)@.cells, final(screen)@.cells),
    {
        let ghost s0 = *screen;
        self.move_player_by(screen, raw_input);
        self.block_motion_timer = self.block_motion_timer.saturating_sub(1);
        if self.block_motion_timer == 0 {
            let player_position = match self.player_position {
                Some(p) => p,
                None => {
                    return Some(GameMode::Overworld);
                },
            };
            self.block_motion_timer = MAX_BLOCK_MOTION_TIME;
            self.blocks[0] = self.blocks[1];
            self.blocks[1] = self.blocks[2];
            self.blocks[2] = self.blocks[3];
            self.blocks[3] = self.blocks[4];
            self.blocks[4] = self.blocks[5];
            self.blocks[5] = self.blocks[6];
            self.blocks[6] = self.blocks[7];
            self.blocks[7] = None;
            self.block_spawn_timer = self.block_spawn_timer.saturating_sub(1);
            if self.block_spawn_timer == 0 {
                self.block_spawn_timer = self.max_block_spawn_time;
                self.blocks[7] = Some(Block::random(generator, 1, 4, 2));
            }
            self.difficulty_timer = self.difficulty_timer.saturating_sub(1);
            if self.difficulty_timer == 0 && self.block_spawn_timer > 2 {
                self.difficulty_timer = MAX_DIFFICULTY_TIME;
                self.max_block_spawn_time = self.max_block_spawn_time - 1;
            }
            match self.blocks[0] {
                Some(mut block) => {
                    let tile = block.index(player_position);
                    if tile == Tile::Collectible {
                        block.set(player_position, Tile::Empty);
                        self.blocks[0] = Some(block);
                        self.score = self.score + 1;
                    } else if tile == Tile::Wall {
                        self.player_position = None;
                        self.block_motion_timer = GAME_OVER_TIME;
                    }
                },
                None => {},
            }
            let ghost s1 = *screen;
            self.draw_full_screen(screen);
            proof {
                crate::screen::lemma_extends_trans(s0, s1, *screen);
            }
        }
        None
    }
}

} // verus!
