use arduino_arcade::game::overworld::{arcade_line, Overworld};
use arduino_arcade::game::position::Position;
use arduino_arcade::game::GameMode;
use arduino_arcade::screen::Screen;

#[test]
fn arcade_lines() {
    assert_eq!(&arcade_line(0, 0), b"  \x05 [1]     =3= ");
    assert_eq!(&arcade_line(0, 1), b"        \x032\x03    \x7e");
    assert_eq!(&arcade_line(1, 0), b" :4:     <6>    ");
    assert_eq!(&arcade_line(1, 1), b"\x7f    {5}     \xff7\xff");
}

#[test]
fn tiles() {
    let world = Overworld::default();
    assert_eq!(world.get_tile_at(Position::new(5, 0)), b'1');
    assert_eq!(world.get_tile_at(Position::new(15, 1)), 0x7e);
}

#[test]
fn walking_into_a_door_enters_the_game() {
    let mut world = Overworld::default();
    let mut screen = Screen::new();
    let scores = [0u32; 6];
    world.player_position = Position::new(5, 1);
    assert_eq!(world.move_player_by(&mut screen, [0, -1], &scores), Some(b'1'));
    assert_eq!(world.player_position, Position::new(5, 1));
    let mode = world.update(&mut screen, [0, 0], [0, -1], &scores);
    assert!(matches!(mode, Some(GameMode::BlockCatch(_))));
    world.player_position = Position::new(9, 0);
    assert!(matches!(world.update(&mut screen, [0, 0], [0, 1], &scores), Some(GameMode::BlackJack(_))));
    world.player_position = Position::new(13, 1);
    assert!(matches!(world.update(&mut screen, [0, 0], [0, -1], &scores), Some(GameMode::SpaceShooter(_))));
    world.screen = 1;
    world.player_position = Position::new(2, 1);
    assert!(matches!(world.update(&mut screen, [0, 0], [0, -1], &scores), Some(GameMode::Sokoban(_))));
}

#[test]
fn walls_block_and_blanks_let_through() {
    let mut world = Overworld::default();
    let mut screen = Screen::new();
    let scores = [0u32; 6];
    assert_eq!(world.move_player_by(&mut screen, [1, 0], &scores), None);
    assert_eq!(world.player_position, Position::new(1, 0));
    assert_eq!(screen.cells()[1], 0);
    assert_eq!(world.move_player_by(&mut screen, [1, 0], &scores), Some(5));
    assert_eq!(world.player_position, Position::new(1, 0));
}

#[test]
fn edges_switch_screens() {
    let mut world = Overworld::default();
    let mut screen = Screen::new();
    let scores = [0u32; 6];
    world.player_position = Position::new(14, 1);
    assert_eq!(world.move_player_by(&mut screen, [1, 0], &scores), None);
    assert_eq!(world.screen, 1);
    assert_eq!(world.player_position, Position::new(0, 1));
    assert_eq!(screen.cells()[0], b' ');
    assert_eq!(screen.cells()[16 + 0], 0);
    world.player_position = Position::new(1, 0);
    assert_eq!(world.move_player_by(&mut screen, [-1, 0], &scores), None);
    assert_eq!(world.screen, 0);
    assert_eq!(world.player_position, Position::new(15, 0));
}

#[test]
fn high_scores_show_beside_their_door() {
    let mut world = Overworld::default();
    let mut screen = Screen::new();
    let scores = [42u32, 0, 0, 0, 0, 0];
    world.player_position = Position::new(4, 1);
    world.update(&mut screen, [0, 0], [1, 0], &scores);
    assert_eq!(world.player_position, Position::new(5, 1));
    assert_eq!(world.score_length, Some(3));
    assert_eq!(screen.cells()[16 + 2], 0x06);
    assert_eq!(&screen.cells()[16 + 3..16 + 5], b"42");
    world.update(&mut screen, [0, 0], [1, 0], &scores);
    assert_eq!(world.score_length, None);
    assert_eq!(&screen.cells()[16 + 2..16 + 6], b"    ");
}

#[test]
fn the_screen_keeps_showing_the_overworld_law() {
    let mut world = Overworld::default();
    let mut screen = Screen::new();
    let scores = [7u32, 1234, 56, 0, 98765, 3];
    world.draw_full_screen(&mut screen, &scores);
    let inputs: [[i8; 2]; 10] = [[1, 0], [1, 0], [0, 1], [1, 0], [1, 1], [-1, -1], [1, 0], [1, -1], [-1, 1], [0, -1]];
    for frame in 0..200 {
        let soft = inputs[(frame * 7 + frame / 10) % inputs.len()];
        // A door answers with its game and leaves the screen as it is.
        world.update(&mut screen, [0, 0], soft, &scores);
        let mut copy = Overworld {
            screen: world.screen,
            player_position: world.player_position,
            score_length: world.score_length,
        };
        let mut fresh = Screen::new();
        copy.draw_full_screen(&mut fresh, &scores);
        assert_eq!(screen.cells(), fresh.cells(), "frame {frame}");
    }
}

#[test]
fn a_score_at_the_left_edge_shows_its_symbol_alone() {
    let mut world = Overworld::default();
    let mut screen = Screen::new();
    let scores = [123u32, 0, 0, 0, 0, 0];
    world.player_position = Position::new(0, 1);
    world.draw_score(&mut screen, &scores, 0);
    assert_eq!(screen.cells()[16], 0x06);
    assert!(screen.cells()[17..].iter().all(|&b| b == b' '));
    assert_eq!(world.score_length, Some(4));
    world.player_position = Position::new(2, 1);
    world.draw_score(&mut screen, &scores, 0);
    assert_eq!(&screen.cells()[16..18], &[0x06, b'9']);
}

#[test]
fn a_zero_score_draws_nothing() {
    let mut world = Overworld::default();
    let mut screen = Screen::new();
    world.player_position = Position::new(6, 1);
    world.draw_score(&mut screen, &[0u32; 6], 2);
    assert!(screen.commands().is_empty());
    assert_eq!(screen.cells(), vec![b' '; 32]);
    assert_eq!(world.score_length, None);
}
