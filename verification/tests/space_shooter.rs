use arduino_arcade::game::position::Position;
use arduino_arcade::game::space_shooter::{Object, SpaceShooter};
use arduino_arcade::game::GameMode;
use arduino_arcade::rng::Rng;
use arduino_arcade::screen::Screen;

#[test]
fn object_kinds() {
    assert!(Object::Projectile.is_projectile());
    assert!(Object::TripleProjectile.is_projectile());
    assert!(!Object::Beam.is_projectile());
    assert_eq!(Object::BeamPowerUpCollectible.into_stored_power_up(), Some(Object::BeamPowerUpStored));
    assert_eq!(Object::TripleShotPowerUpStored.into_stored_power_up(), Some(Object::TripleShotPowerUpStored));
    assert_eq!(Object::Asteroid.into_stored_power_up(), None);
    assert!(Object::BeamPowerUpStored.is_stored_power_up());
    assert!(!Object::BeamPowerUpCollectible.is_stored_power_up());
    assert_eq!(Object::Asteroid2X.code(), 0xff);
    assert_eq!(Object::TripleProjectile.code(), b'>');
}

#[test]
fn random_objects_follow_the_rolls() {
    // rolls 69, 89, 61, 95, 33, 4, 82, 10
    let mut generator = Rng::new(1);
    let expected = [
        Object::Asteroid2X,
        Object::Point,
        Object::Asteroid2X,
        Object::BeamPowerUpCollectible,
        Object::Asteroid2X,
        Object::Asteroid,
        Object::Point,
        Object::Asteroid,
    ];
    for object in expected {
        assert_eq!(Object::random(&mut generator), object);
    }
}

#[test]
fn set_object_rules() {
    let mut game = SpaceShooter::default();
    let mut screen = Screen::new();
    let p = Position::new(5, 0);
    assert!(game.set_object(&mut screen, p, Some(Object::Asteroid2X)));
    assert_eq!(screen.cells()[5], 0xff);
    assert!(!game.set_object(&mut screen, p, Some(Object::Projectile)));
    assert_eq!(game.objects[0][5], Some(Object::Asteroid));
    assert!(!game.set_object(&mut screen, p, None));
    assert_eq!(game.objects[0][5], None);
    assert_eq!(screen.cells()[5], b' ');
    game.objects[0][5] = Some(Object::Projectile);
    assert!(!game.set_object(&mut screen, p, Some(Object::Point)));
    assert_eq!(game.objects[0][5], Some(Object::Projectile));
    assert!(!game.set_object(&mut screen, p, Some(Object::Asteroid2X)));
    assert_eq!(game.objects[0][5], Some(Object::Asteroid));
}

#[test]
fn collisions() {
    let mut game = SpaceShooter::default();
    let mut screen = Screen::new();
    game.objects[0][1] = Some(Object::Asteroid);
    game.update_ship_collision(&mut screen);
    assert_eq!((game.ship_health, game.ship_health_flash_time), (2, 60));
    assert_eq!(game.objects[0][1], None);
    assert_eq!(screen.cells()[1], b'2');
    game.objects[0][1] = Some(Object::Asteroid2X);
    game.update_ship_collision(&mut screen);
    assert_eq!(game.ship_health, 2);
    game.objects[0][1] = Some(Object::Health);
    game.update_ship_collision(&mut screen);
    assert_eq!(game.ship_health, 3);
    game.objects[0][1] = Some(Object::Health);
    game.update_ship_collision(&mut screen);
    assert_eq!((game.ship_health, game.score), (3, 1));
    game.objects[0][1] = Some(Object::Point);
    game.update_ship_collision(&mut screen);
    assert_eq!(game.score, 2);
    game.objects[0][1] = Some(Object::TripleShotPowerUpCollectible);
    game.update_ship_collision(&mut screen);
    assert_eq!(game.objects[0][0], Some(Object::TripleShotPowerUpStored));
}

#[test]
fn power_ups() {
    let mut game = SpaceShooter::default();
    let mut screen = Screen::new();
    game.objects[0][0] = Some(Object::TripleShotPowerUpStored);
    game.use_power_up(&mut screen);
    assert_eq!(game.triple_shot_cooldown, 24);
    assert_eq!(game.objects[0][0], None);
    game.objects[0][0] = Some(Object::BeamPowerUpStored);
    game.use_power_up(&mut screen);
    assert_eq!(game.objects[0][0], None);
    assert!((2..16).all(|c| game.objects[0][c] == Some(Object::Beam)));
    assert_eq!(game.objects[0][1], None);
    assert_eq!(&screen.cells()[2..16], b"--------------");
}

#[test]
fn moving_the_ship() {
    let mut game = SpaceShooter::default();
    let mut screen = Screen::new();
    game.update_ship_position(&mut screen, [0, 1]);
    assert_eq!((game.ship_position.column(), game.ship_position.row()), (1, 1));
    assert_eq!(screen.cells()[16 + 1], 0);
    assert_eq!(screen.cells()[1], b' ');
    game.update_ship_position(&mut screen, [0, 0]);
    assert_eq!(game.ship_position.row(), 1);
}

#[test]
fn shooting() {
    let mut game = SpaceShooter::default();
    let mut screen = Screen::new();
    game.update_ship_shooting(&mut screen, [1, 0]);
    assert_eq!(game.objects[0][2], Some(Object::Projectile));
    assert_eq!(game.shoot_cooldown, 2);
    game.update_ship_shooting(&mut screen, [1, 0]);
    assert_eq!(game.shoot_cooldown, 1);
    let mut game = SpaceShooter::default();
    game.triple_shot_cooldown = 5;
    game.update_ship_shooting(&mut screen, [1, 0]);
    assert_eq!(game.shoot_cooldown, -2);
    assert_eq!(game.objects[0][2], Some(Object::TripleProjectile));
}

#[test]
fn rows_move() {
    let mut game = SpaceShooter::default();
    let mut screen = Screen::new();
    game.objects[0][2] = Some(Object::Projectile);
    game.objects[0][3] = Some(Object::Projectile);
    game.objects[0][10] = Some(Object::Asteroid);
    game.objects[0][12] = Some(Object::Beam);
    game.objects[0][13] = Some(Object::BeamDecay);
    game.objects[0][0] = Some(Object::BeamPowerUpStored);
    game.update_row(&mut screen, 0);
    assert_eq!(game.objects[0][0], Some(Object::BeamPowerUpStored));
    assert_eq!(game.objects[0][3], Some(Object::Projectile));
    assert_eq!(game.objects[0][4], Some(Object::Projectile));
    assert_eq!(game.objects[0][9], Some(Object::Asteroid));
    assert_eq!(game.objects[0][12], Some(Object::BeamDecay));
    assert_eq!(game.objects[0][13], None);
}

#[test]
fn spawning() {
    let mut game = SpaceShooter::default();
    let mut screen = Screen::new();
    let mut generator = Rng::new(1);
    // 270369 % 4 == 1, row 67634689 & 1 == 1, roll 61: double asteroid,
    // 307599695 as u8 == 79 < 204: a second object, roll 33
    game.spawn_objects(&mut screen, &mut generator);
    assert_eq!(game.spawn_cooldown, 2);
    assert_eq!(game.objects[1][15], Some(Object::Asteroid2X));
    assert!(game.objects[0][15].is_some());
    game.spawn_objects(&mut screen, &mut generator);
    assert_eq!(game.spawn_cooldown, 1);
}

#[test]
fn the_game_ends_after_the_exit_countdown() {
    let mut game = SpaceShooter::default();
    let mut screen = Screen::new();
    let mut generator = Rng::new(1);
    game.ship_health = 0;
    game.score = 7;
    assert!(game.update(&mut screen, &mut generator, [0, 0]).is_none());
    assert_eq!(&screen.cells()[2..11], b"Score: \x047");
    for _ in 0..238 {
        assert!(game.update(&mut screen, &mut generator, [0, 0]).is_none());
    }
    assert!(matches!(game.update(&mut screen, &mut generator, [0, 0]), Some(GameMode::Overworld)));
    assert_eq!(screen.character_set(), 0);
}

#[test]
fn a_frame_of_play() {
    let mut game = SpaceShooter::default();
    let mut screen = Screen::new();
    let mut generator = Rng::new(1);
    game.draw_full_screen(&mut screen);
    assert_eq!(screen.character_set(), 2);
    assert!(game.update(&mut screen, &mut generator, [1, 0]).is_none());
    assert_eq!(game.shoot_released, 0);
    assert_eq!(game.update_cooldown, 19);
    assert!(game.update(&mut screen, &mut generator, [0, 0]).is_none());
    assert_eq!(game.shoot_released, 1);
    assert_eq!(game.update_cooldown, 18);
}

#[test]
fn a_lane_move_leaves_no_beam_law() {
    let mut game = SpaceShooter::default();
    let mut screen = Screen::new();
    for column in 2..16 {
        game.objects[1][column] = Some(Object::Beam);
    }
    game.objects[1][2] = Some(Object::Projectile);
    game.objects[1][3] = Some(Object::TripleProjectile);
    game.update_row(&mut screen, 1);
    assert!(game.objects[1].iter().all(|cell| *cell != Some(Object::Beam)));
    assert!(game.objects[1].iter().any(|cell| *cell == Some(Object::BeamDecay)));
}
