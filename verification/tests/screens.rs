use arduino_arcade::game::note_beat::NoteBeat;
use arduino_arcade::game::overworld::Overworld;
use arduino_arcade::game::position::Position;
use arduino_arcade::game::sokoban::{LevelSelect, LevelSelection};
use arduino_arcade::rng::Rng;
use arduino_arcade::screen::Screen;

#[test]
fn a_score_too_long_for_its_place_shows_as_nines() {
    let mut world = Overworld::default();
    let mut screen = Screen::new();
    let scores = [123456u32, 0, 0, 0, 0, 0];
    world.player_position = Position::new(5, 1);
    world.draw_score(&mut screen, &scores, 0);
    assert_eq!(world.score_length, Some(7));
    assert_eq!(screen.cells()[16], 0x06);
    assert_eq!(&screen.cells()[17..21], b"9999");
    assert_eq!(screen.cells()[21], b' ');
}

#[test]
fn the_note_row_is_redrawn_on_each_beat() {
    let mut game = NoteBeat::default();
    let mut screen = Screen::new();
    let mut generator = Rng::new(1);
    assert!(game.update(&mut screen, &mut generator, [0, 0], [0, 0]).is_none());
    assert_eq!(game.time, 1);
    assert_eq!(generator.state, 270369);
    assert_eq!(&screen.cells()[0..16], &[b'_'; 16]);
    assert!(game.update(&mut screen, &mut generator, [0, 0], [0, 0]).is_none());
    assert_eq!(game.time, 2);
    assert_eq!(generator.state, 270369);
}

#[test]
fn the_level_select_player_walks_along_the_letters() {
    let mut select = LevelSelect::default();
    let mut screen = Screen::new();
    select.draw_full_screen(&mut screen);
    assert_eq!(select.update(&mut screen, [0, 0], [1, 0]), None);
    assert_eq!(select.player_position, Position::new(1, 1));
    assert_eq!(screen.cells()[16], b' ');
    assert_eq!(screen.cells()[17], 0);
    assert_eq!(screen.cells()[18], b' ');
    assert_eq!(select.update(&mut screen, [0, 0], [0, -1]), Some(LevelSelection::PlayLevel(0)));
}
