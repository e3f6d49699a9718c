use arduino_arcade::game::note_beat::{NoteBeat, Object};
use arduino_arcade::game::GameMode;
use arduino_arcade::rng::Rng;
use arduino_arcade::screen::Screen;

#[test]
fn default_game() {
    let game = NoteBeat::default();
    assert!(game.objects.iter().all(|o| *o == Object::Blank));
    assert_eq!((game.difficulty, game.time, game.time_gap, game.lives, game.combo, game.score), (10, 0, 60, 30, 1, 0));
    assert_eq!((game.player_position.column(), game.player_position.row()), (7, 1));
}

#[test]
fn notes_move_towards_the_middle() {
    let mut game = NoteBeat::default();
    game.objects[0] = Object::Default;
    game.objects[15] = Object::Default;
    game.move_objects();
    assert!(game.objects[0] == Object::Default && game.objects[1] == Object::Default);
    assert!(game.objects[15] == Object::Default && game.objects[14] == Object::Default);
    assert!(!game.player_hit);
    game.objects = [Object::Blank; 16];
    game.objects[6] = Object::Default;
    game.move_objects();
    assert!(game.objects[7] == Object::Default);
    assert!(game.player_hit);
}

#[test]
fn add_to_queue_starts_notes() {
    let mut game = NoteBeat::default();
    let mut generator = Rng::new(1);
    // 270369 % 10 == 9: no new note
    game.add_to_queue(&mut generator);
    assert!(game.objects.iter().all(|o| *o == Object::Blank));
    let mut generator = Rng::new(12345);
    // 3336926330 % 10 == 0: a note on the left
    game.add_to_queue(&mut generator);
    assert!(game.objects[0] == Object::Default);
    assert!(game.objects[15] == Object::Blank);
}

#[test]
fn hitting_notes_builds_the_combo() {
    let mut game = NoteBeat::default();
    game.objects[6] = Object::Default;
    game.hit_object([1, 0]);
    assert!(game.objects[6] == Object::Blank);
    assert_eq!((game.score, game.combo), (1, 2));
    game.objects[9] = Object::Default;
    game.hit_object([-1, 0]);
    assert_eq!((game.score, game.combo), (3, 3));
    game.hit_object([1, 0]);
    assert_eq!((game.score, game.combo), (3, 1));
}

#[test]
fn losing_every_life_ends_the_game() {
    let mut game = NoteBeat::default();
    let mut screen = Screen::new();
    let mut generator = Rng::new(1);
    game.lives = 0;
    game.objects[6] = Object::Default;
    game.time = 5;
    game.move_objects();
    assert!(matches!(game.update(&mut screen, &mut generator, [0, 0], [0, 0]), Some(GameMode::Overworld)));
}

#[test]
fn a_hit_costs_a_life_and_clears_the_row() {
    let mut game = NoteBeat::default();
    let mut screen = Screen::new();
    let mut generator = Rng::new(1);
    game.player_hit = true;
    game.time = 5;
    assert!(game.update(&mut screen, &mut generator, [0, 0], [0, 0]).is_none());
    assert_eq!(game.lives, 29);
    assert!(!game.player_hit);
    assert_eq!(game.time, 6);
}

#[test]
fn moving_right_puts_the_player_right_of_the_middle() {
    let mut game = NoteBeat::default();
    let mut screen = Screen::new();
    let mut generator = Rng::new(1);
    game.time = 5;
    game.update(&mut screen, &mut generator, [1, 0], [0, 0]);
    assert_eq!((game.player_position.column(), game.player_position.row()), (8, 1));
    assert_eq!(screen.cells()[16 + 8], 0);
    game.update(&mut screen, &mut generator, [-1, 0], [0, 0]);
    assert_eq!((game.player_position.column(), game.player_position.row()), (7, 1));
}
