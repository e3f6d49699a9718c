use arduino_arcade::game::position::Position;
use arduino_arcade::game::sokoban::{
    decode_level, levels_file_valid, parse_levels, Axis, Level, LevelData, LevelPosition, LevelSelect, LevelSelection,
    Sokoban, Tile, TileDisplay,
};
use arduino_arcade::game::GameMode;
use arduino_arcade::screen::Screen;

const ROWS: [&str; 4] = [
    "################",
    "#p x z         #",
    "#        #     #",
    "################",
];

fn level_file(crlf: bool) -> Vec<u8> {
    let end = if crlf { "\r\n" } else { "\n" };
    let mut text = format!("First:{end}");
    for row in ROWS {
        text.push_str(&format!("|{row}|{end}"));
    }
    text.push_str(&format!("Second:{end}"));
    for (i, row) in ROWS.iter().enumerate() {
        let row = row.replace('p', " ").replace("  #     #", " p#     #");
        text.push_str(&format!("|{row}|"));
        if i < 3 {
            text.push_str(end);
        }
    }
    text.into_bytes()
}

fn row_word(row: &str) -> u32 {
    row.bytes().fold(0u32, |word, b| {
        let code = match b {
            b'#' => 1,
            b'x' => 2,
            b'z' => 3,
            _ => 0,
        };
        (word << 2) | code
    })
}

#[test]
fn level_files_are_checked() {
    assert!(levels_file_valid(&level_file(false)));
    assert!(levels_file_valid(&level_file(true)));
    assert!(levels_file_valid(b""));
    let text = String::from_utf8(level_file(false)).unwrap();
    // A label must end in `:`.
    assert!(!levels_file_valid(text.replacen("First:", "First", 1).as_bytes()));
    // A row holds sixteen tiles between bars.
    assert!(!levels_file_valid(text.replacen("|#p x z", "|#p x ", 1).as_bytes()));
    // Only known tiles.
    assert!(!levels_file_valid(text.replacen("#p x z", "#p q z", 1).as_bytes()));
    // Exactly one player per level.
    assert!(!levels_file_valid(text.replacen("#p x z", "#  x z", 1).as_bytes()));
    assert!(!levels_file_valid(text.replacen("#p x z", "#ppx z", 1).as_bytes()));
    // A level needs four rows.
    let cut = text.rfind("\n|").unwrap();
    assert!(!levels_file_valid(&text.as_bytes()[..cut]));
}

#[test]
fn parse_reads_every_level() {
    for crlf in [false, true] {
        let file = level_file(crlf);
        let levels = parse_levels(&file);
        assert_eq!(levels.len(), 2);
        assert_eq!(levels[0].0, LevelPosition::new(1, 1));
        for r in 0..4 {
            assert_eq!(levels[0].1[r], row_word(ROWS[r]));
        }
        assert_eq!(levels[1].0, LevelPosition::new(8, 2));
        assert_eq!(levels[1].1[0], 0x5555_5555);
    }
}

#[test]
fn decoding_gives_back_the_file_law() {
    let file = level_file(false);
    let levels = parse_levels(&file);
    let (start, tiles, boxes) = decode_level(&levels[0]);
    assert_eq!(start, LevelPosition::new(1, 1));
    assert_eq!(boxes, 1);
    for (r, row) in ROWS.iter().enumerate() {
        for (c, b) in row.bytes().enumerate() {
            let expected = match b {
                b'#' => Tile::Wall,
                b'x' => Tile::Box,
                b'z' => Tile::Destination,
                b'p' => Tile::Player,
                _ => Tile::Empty,
            };
            assert_eq!(tiles[c][r], expected);
        }
    }
}

#[test]
fn display_kinds_and_bytes() {
    assert_eq!(Tile::Empty.display_kind(false), TileDisplay::Empty);
    assert_eq!(Tile::Box.display_kind(true), TileDisplay::Dither);
    assert_eq!(Tile::Wall.display_kind(false), TileDisplay::Full);
    assert_eq!(Tile::Destination.display_kind(true), TileDisplay::Full);
    assert_eq!(Tile::Destination.display_kind(false), TileDisplay::Dither);
    assert_eq!(Tile::byte_of_pair(Tile::Empty, Tile::Empty, true), b' ');
    assert_eq!(Tile::byte_of_pair(Tile::Empty, Tile::Box, true), 0);
    assert_eq!(Tile::byte_of_pair(Tile::Wall, Tile::Empty, true), 5);
    assert_eq!(Tile::byte_of_pair(Tile::Box, Tile::Box, true), 3);
    assert_eq!(Tile::byte_of_pair(Tile::Player, Tile::Wall, false), 7);
    assert_eq!(Tile::byte_of_pair(Tile::Destination, Tile::Empty, false), 2);
}

fn first_level() -> (Vec<LevelData>, Level) {
    let file = level_file(false);
    let levels = parse_levels(&file);
    let level = Level::load(&levels, 0);
    (levels, level)
}

#[test]
fn load_past_the_levels_gives_an_empty_level() {
    let (levels, _) = first_level();
    let level = Level::load(&levels, 9);
    assert_eq!(level.player_position, LevelPosition::new(0, 0));
    assert_eq!(level.level[0][0], Tile::Player);
    assert_eq!(level.level[5][2], Tile::Empty);
    assert_eq!(level.num_boxes, 0);
}

#[test]
fn pushing_a_box_onto_its_destination_wins() {
    let (_, mut level) = first_level();
    let mut screen = Screen::new();
    assert_eq!(level.num_boxes, 1);
    assert!(!level.move_player_on_axis(&mut screen, Axis::Row, -1));
    assert!(level.move_player_on_axis(&mut screen, Axis::Column, 1));
    assert_eq!(level.player_position, LevelPosition::new(2, 1));
    assert!(level.move_player_on_axis(&mut screen, Axis::Column, 1));
    assert_eq!(level.level[4][1], Tile::Box);
    assert_eq!(level.level[2][1], Tile::Empty);
    assert_eq!(level.level[3][1], Tile::Player);
    assert_eq!(level.num_boxes, 1);
    assert_eq!(level.update(&mut screen, [1, 0], [1, 0]), Some(true));
    assert_eq!(level.level[5][1], Tile::BoxOnDestination);
    assert_eq!(level.num_boxes, 0);
    assert_eq!(screen.character_set(), 0);
}

#[test]
fn boxes_stop_on_walls_and_boxes() {
    let (_, mut level) = first_level();
    let mut screen = Screen::new();
    level.level[4][1] = Tile::Wall;
    level.move_player_on_axis(&mut screen, Axis::Column, 1);
    assert!(!level.move_player_on_axis(&mut screen, Axis::Column, 1));
    assert_eq!(level.level[3][1], Tile::Box);
    assert!(!level.move_player_on_axis(&mut screen, Axis::Column, 0));
}

#[test]
fn leaving_by_the_left_edge() {
    let (_, mut level) = first_level();
    let mut screen = Screen::new();
    level.level[0][1] = Tile::Empty;
    assert_eq!(level.update(&mut screen, [0, 0], [-1, 0]), None);
    assert_eq!(level.player_position.column(), 0);
    assert_eq!(level.update(&mut screen, [-1, 0], [-1, 0]), Some(false));
}

#[test]
fn holding_down_leaves_after_the_emergency_time() {
    let (_, mut level) = first_level();
    let mut screen = Screen::new();
    for _ in 0..239 {
        assert_eq!(level.update(&mut screen, [0, 1], [0, 0]), None);
    }
    assert_eq!(level.update(&mut screen, [0, 1], [0, 0]), Some(false));
}

#[test]
fn flash_timer_restarts() {
    let (_, mut level) = first_level();
    let mut screen = Screen::new();
    level.update(&mut screen, [0, 0], [0, 0]);
    assert_eq!(level.flash_timer, 70);
    level.update(&mut screen, [0, 0], [0, 0]);
    assert_eq!(level.flash_timer, 69);
}

#[test]
fn draw_shows_tile_pairs() {
    let (_, level) = first_level();
    let mut screen = Screen::new();
    level.draw_full_screen(&mut screen);
    assert_eq!(screen.character_set(), 1);
    // column 1: wall above the player, then empty above wall
    assert_eq!(screen.cells()[1], level.byte_of_tile(Position::new(1, 0)));
    assert_eq!(screen.cells()[1], Tile::byte_of_pair(Tile::Wall, Tile::Player, true));
    assert_eq!(level.pair_of_tile(Position::new(3, 0)), [Tile::Wall, Tile::Box]);
}

#[test]
fn level_select_moves_and_picks() {
    let mut select = LevelSelect::default();
    let mut screen = Screen::new();
    assert_eq!(select.update(&mut screen, [0, 0], [-1, 0]), Some(LevelSelection::Exit));
    assert_eq!(select.update(&mut screen, [0, 0], [1, 0]), None);
    assert_eq!(select.player_position.column(), 1);
    assert_eq!(select.update(&mut screen, [0, 0], [1, -1]), Some(LevelSelection::PlayLevel(1)));
    select.player_position = Position::new(0, 1);
    assert_eq!(select.update(&mut screen, [0, 0], [0, -1]), Some(LevelSelection::Exit));
}

#[test]
fn level_select_waits_out_the_victory_screen() {
    let mut select = LevelSelect::default();
    let mut screen = Screen::new();
    select.draw_victory(&mut screen);
    assert_eq!(&screen.cells()[0..15], b"Level complete!");
    for _ in 0..179 {
        assert_eq!(select.update(&mut screen, [0, 0], [0, -1]), None);
    }
    assert_eq!(select.update(&mut screen, [0, 0], [0, -1]), None);
    assert_eq!(&screen.cells()[0..16], b"\x7fABCDEFGHIJKLMNO");
    assert_eq!(&screen.cells()[18..28], b"level sele");
    assert_eq!(select.update(&mut screen, [0, 0], [0, -1]), Some(LevelSelection::Exit));
}

#[test]
fn sokoban_plays_the_picked_level() {
    let file = level_file(false);
    let levels = parse_levels(&file);
    let mut game = Sokoban::default();
    let mut screen = Screen::new();
    assert!(game.update(&mut screen, &levels, [0, 0], [1, 0]).is_none());
    assert!(game.update(&mut screen, &levels, [0, 0], [0, -1]).is_none());
    assert!(game.level.is_some());
    assert_eq!(game.level.as_ref().unwrap().player_position, LevelPosition::new(1, 1));
    game.level = None;
    game.level_select.player_position = Position::new(0, 1);
    assert!(matches!(game.update(&mut screen, &levels, [0, 0], [-1, 0]), Some(GameMode::Overworld)));
}

#[test]
fn the_screen_keeps_showing_the_level_law() {
    let (_, mut level) = first_level();
    let mut screen = Screen::new();
    level.draw_full_screen(&mut screen);
    let inputs: [[i8; 2]; 8] = [[0, 1], [1, 0], [1, 0], [0, -1], [-1, 0], [-1, 0], [0, -1], [0, 0]];
    for frame in 0..120 {
        let soft = inputs[frame % inputs.len()];
        assert_eq!(level.update(&mut screen, [0, 0], soft), None);
        let mut fresh = Screen::new();
        level.draw_full_screen(&mut fresh);
        assert_eq!(screen.cells(), fresh.cells(), "frame {frame}");
    }
}

#[test]
fn a_file_holds_at_most_fifteen_levels() {
    let mut text = String::new();
    for level in 0..16 {
        text.push_str(&format!("Level {level}:\n"));
        for row in ROWS {
            text.push_str(&format!("|{row}|\n"));
        }
    }
    let sixteen = text.into_bytes();
    assert!(!levels_file_valid(&sixteen));
    let fifteen_end = sixteen.len() - (ROWS.len() * 19 + "Level 15:\n".len());
    assert!(levels_file_valid(&sixteen[..fifteen_end]));
}

#[test]
fn crlf_and_lf_files_parse_alike_law() {
    assert_eq!(parse_levels(&level_file(true)), parse_levels(&level_file(false)));
}

#[test]
fn update_all_tiles_asks_the_condition() {
    let (_, level) = first_level();
    let mut screen = Screen::new();
    level.update_all_tiles(&mut screen, |top: Tile, _bottom: Tile| top == Tile::Wall);
    // Column 0 has a wall on top in both LCD rows; in the lower LCD row,
    // column 2 has none on top and stays blank.
    assert_eq!(screen.cells()[0], Tile::byte_of_pair(Tile::Wall, Tile::Wall, true));
    assert_eq!(screen.cells()[16], Tile::byte_of_pair(Tile::Wall, Tile::Wall, true));
    assert_eq!(screen.cells()[16 + 2], b' ');
}

#[test]
fn a_step_keeps_the_board_law() {
    let (_, mut level) = first_level();
    let mut screen = Screen::new();
    let count = |level: &Level, tile: Tile| level.level.iter().flatten().filter(|t| **t == tile).count();
    let walls = count(&level, Tile::Wall);
    let destinations = count(&level, Tile::Destination) + count(&level, Tile::BoxOnDestination);
    let moves = [(Axis::Column, 1), (Axis::Column, 1), (Axis::Row, 1), (Axis::Column, -1), (Axis::Row, -1)];
    for (axis, input) in moves {
        level.move_player_on_axis(&mut screen, axis, input);
        assert_eq!(count(&level, Tile::Player), 1);
        assert_eq!(level.level[level.player_position.column() as usize][level.player_position.row() as usize], Tile::Player);
        assert_eq!(count(&level, Tile::Wall), walls);
        assert_eq!(count(&level, Tile::Destination) + count(&level, Tile::BoxOnDestination), destinations);
    }
}
