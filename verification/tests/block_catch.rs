use arduino_arcade::game::block_catch::{Block, BlockCatch, Tile};
use arduino_arcade::game::position::Position;
use arduino_arcade::game::GameMode;
use arduino_arcade::rng::Rng;
use arduino_arcade::screen::Screen;

fn count(block: &Block, tile: Tile) -> usize {
    block.tiles.iter().flatten().filter(|t| **t == tile).count()
}

#[test]
fn tile_codes_and_markers() {
    assert_eq!(Tile::Empty.code(), b'_');
    assert_eq!(Tile::Collectible.code(), 0x02);
    assert_eq!(Tile::Wall.code(), 0xff);
    assert_eq!(Tile::Empty.marker_tile(), b'_');
    assert_eq!(Tile::Collectible.marker_tile(), b'.');
    assert_eq!(Tile::Wall.marker_tile(), b' ');
}

#[test]
fn random_tile_follows_the_generator() {
    let mut generator = Rng::new(1);
    // 270369 % 3 == 0, 67634689 % 3 == 1, 2647435461 % 3 == 0, 307599695 % 3 == 2
    assert!(Tile::random(&mut generator) == Tile::Empty);
    assert!(Tile::random(&mut generator) == Tile::Collectible);
    assert!(Tile::random(&mut generator) == Tile::Empty);
    assert!(Tile::random(&mut generator) == Tile::Wall);
}

#[test]
fn random_block_has_the_rolled_walls() {
    let mut generator = Rng::new(1);
    let block = Block::random(&mut generator, 1, 4, 2);
    assert_eq!(count(&block, Tile::Wall), 1);
    assert_eq!(count(&block, Tile::Collectible), 1);
    assert_eq!(count(&block, Tile::Empty), 2);
    assert!(block.tiles == [[Tile::Empty, Tile::Wall], [Tile::Collectible, Tile::Empty]]);
    assert_eq!(generator.state, 307599695);

    let mut generator = Rng::new(99);
    let block = Block::random(&mut generator, 1, 4, 2);
    assert_eq!(count(&block, Tile::Wall), 3);
    assert_eq!(count(&block, Tile::Collectible), 0);

    let mut generator = Rng::new(5);
    let block = Block::random(&mut generator, 0, 1, 0);
    assert_eq!(count(&block, Tile::Empty), 4);
}

#[test]
fn block_index_uses_the_column_parity() {
    let block = Block { tiles: [[Tile::Empty, Tile::Wall], [Tile::Collectible, Tile::Empty]] };
    assert!(block.index(Position::new(1, 0)) == Tile::Wall);
    assert!(block.index(Position::new(3, 0)) == Tile::Wall);
    assert!(block.index(Position::new(0, 1)) == Tile::Collectible);
}

#[test]
fn first_block_index_skips_empty_slots() {
    let mut game = BlockCatch::default();
    assert_eq!(game.first_block_index(), None);
    game.blocks[3] = Some(Block { tiles: [[Tile::Empty; 2]; 2] });
    assert_eq!(game.first_block_index(), Some(3));
}

#[test]
fn walls_stop_the_player_and_collectibles_are_taken() {
    let mut game = BlockCatch::default();
    let mut screen = Screen::new();
    game.blocks[0] = Some(Block { tiles: [[Tile::Empty, Tile::Wall], [Tile::Collectible, Tile::Empty]] });
    assert!(!game.move_player_by(&mut screen, [1, 0]));
    assert_eq!(game.player_position, Some(Position::new(0, 0)));
    assert!(game.move_player_by(&mut screen, [0, 1]));
    assert_eq!(game.player_position, Some(Position::new(0, 1)));
    assert!(game.blocks[0].unwrap().tiles[1][0] == Tile::Empty);
    assert_eq!(game.score, 0);
    assert!(!game.move_player_by(&mut screen, [0, 0]));
}

#[test]
fn blocks_advance_and_score() {
    let mut game = BlockCatch::default();
    let mut screen = Screen::new();
    let mut generator = Rng::new(1);
    game.block_motion_timer = 1;
    game.block_spawn_timer = 2;
    game.blocks[1] = Some(Block { tiles: [[Tile::Collectible, Tile::Empty], [Tile::Empty, Tile::Empty]] });
    assert!(game.update(&mut screen, &mut generator, [0, 0]).is_none());
    assert_eq!(game.score, 1);
    assert!(game.blocks[0].unwrap().tiles[0][0] == Tile::Empty);
    assert_eq!(game.block_motion_timer, 30);
    assert_eq!(game.block_spawn_timer, 1);
    assert!(game.blocks[7].is_none());
}

#[test]
fn a_wall_ends_the_game() {
    let mut game = BlockCatch::default();
    let mut screen = Screen::new();
    let mut generator = Rng::new(1);
    game.block_motion_timer = 1;
    game.block_spawn_timer = 3;
    game.blocks[1] = Some(Block { tiles: [[Tile::Wall, Tile::Empty], [Tile::Empty, Tile::Empty]] });
    assert!(game.update(&mut screen, &mut generator, [0, 0]).is_none());
    assert!(game.player_position.is_none());
    assert_eq!(game.block_motion_timer, 240);
    assert_eq!(&screen.cells()[2..9], b"Score: ");
    for _ in 0..239 {
        assert!(game.update(&mut screen, &mut generator, [0, 0]).is_none());
    }
    assert!(matches!(game.update(&mut screen, &mut generator, [0, 0]), Some(GameMode::Overworld)));
}

#[test]
fn spawning_speeds_up() {
    let mut game = BlockCatch::default();
    let mut screen = Screen::new();
    let mut generator = Rng::new(3);
    game.block_motion_timer = 1;
    game.block_spawn_timer = 1;
    game.difficulty_timer = 1;
    game.update(&mut screen, &mut generator, [0, 0]);
    assert!(game.blocks[7].is_some());
    assert_eq!(game.block_spawn_timer, 5);
    assert_eq!(game.max_block_spawn_time, 4);
    assert_eq!(game.difficulty_timer, 60);
}
