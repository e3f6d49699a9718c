use arduino_arcade::display::{
    character_writes, cursor_advance_command, display_command, font_cursor_command,
    function_command, shift_screen_command, text_cursor_command, Register as DisplayRegister,
    ShiftDirection as DisplayShift,
};
use arduino_arcade::game::{Debouncer, Game, GameMode, FALLING_EDGE_TIME, REPEAT_DELAY_FRAMES};
use arduino_arcade::game::position::Position;
use arduino_arcade::lcd::options::{
    BlinkEnabled, CursorEnabled, DisplayEnabled, FontSize, NumLines, Register,
};
use arduino_arcade::lcd::{
    create_character_command, entry_mode_command, nibble_levels, nibbles, register_level, LCDInfo,
    StartupStep,
};
use arduino_arcade::frame::{frame_time, FPS};
use arduino_arcade::screen::{LcdCommand, Screen};

#[test]
fn debouncer_counts_frames_since_release() {
    let mut pad = Debouncer::new();
    assert_eq!(pad.time_since_release, 255);
    assert!(!pad.is_held());
    assert!(pad.update(true));
    assert_eq!(pad.time_since_release, 0);
    assert!(pad.is_held());
    for _ in 0..FALLING_EDGE_TIME - 1 {
        assert!(!pad.update(false));
    }
    assert!(pad.is_held());
    pad.update(false);
    assert!(!pad.is_held());
    pad.time_since_release = 255;
    pad.update(false);
    assert_eq!(pad.time_since_release, 255);
}

#[test]
fn new_game_starts_in_the_space_shooter() {
    let game = Game::new(7, Vec::new());
    assert!(matches!(game.game_mode, GameMode::SpaceShooter(_)));
    assert_eq!(game.high_scores, [0; 6]);
    assert_eq!(game.repeat_time, [0, 0]);
    assert_eq!(game.rng.state, 7);
    assert_eq!(game.score(), 0);
}

#[test]
fn high_score_slots() {
    let game = Game::new(1, Vec::new());
    assert_eq!(game.game_mode.high_score_slot(), Some(2));
    assert_eq!(GameMode::Overworld.high_score_slot(), None);
}

#[test]
fn raw_input_is_right_minus_left_and_down_minus_up() {
    let mut game = Game::new(1, Vec::new());
    assert_eq!(game.update_raw_input([true, false, false, false]), [1, 0]);
    assert_eq!(game.update_raw_input([true, false, true, false]), [0, 0]);
    assert_eq!(game.update_raw_input([false, true, false, false]), [0, -1]);
    assert_eq!(game.update_raw_input([false, false, false, true]), [0, 1]);
    assert_eq!(game.get_debounced_input(), [true, true]);
}

#[test]
fn soft_input_repeats_while_held() {
    let mut game = Game::new(1, Vec::new());
    assert_eq!(game.update_soft_input([1, 0]), [1, 0]);
    assert_eq!(game.repeat_time[0], REPEAT_DELAY_FRAMES);
    for _ in 0..REPEAT_DELAY_FRAMES {
        assert_eq!(game.update_soft_input([1, 0]), [0, 0]);
    }
    assert_eq!(game.update_soft_input([1, 0]), [1, 0]);
    assert_eq!(game.update_soft_input([0, -1]), [0, -1]);
    assert_eq!(game.repeat_time[1], -REPEAT_DELAY_FRAMES);
    // Nothing pressed lately: the timers reset.
    assert_eq!(game.update_soft_input([0, 0]), [0, 0]);
    assert_eq!(game.repeat_time, [0, 0]);
}

#[test]
fn a_frame_keeps_the_high_scores() {
    let mut game = Game::new(1, Vec::new());
    let mut screen = Screen::new();
    game.draw_full_screen(&mut screen);
    for _ in 0..10 {
        game.update(&mut screen, [false, false, false, false]);
    }
    assert_eq!(game.high_scores, [0; 6]);
    assert!(!screen.commands().is_empty());
}

#[test]
fn lcd_info_row_offsets() {
    let info = LCDInfo::new(16, NumLines::Two, FontSize::Dots5x8);
    assert_eq!(info.row_offsets, [0x00, 0x40, 0x10, 0x50]);
    assert_eq!(info.function_set_command(), 0x28);
    assert_eq!(info.display_control_command(), 0x0c);
    assert_eq!(info.set_cursor_command(3, 1), 0x80 | 0x43);
    // Rows past the last line land on the last line.
    assert_eq!(info.set_cursor_command(0, 3), 0x80 | 0x40);
    let one = LCDInfo::new(20, NumLines::One, FontSize::Dots5x10);
    assert_eq!(one.function_set_command(), 0x24);
    assert_eq!(one.set_cursor_command(5, 1), 0x85);
}

#[test]
fn display_control_settings() {
    let mut info = LCDInfo::new(16, NumLines::Two, FontSize::Dots5x8);
    info.set_display_control(DisplayEnabled::On, CursorEnabled::On, BlinkEnabled::On);
    assert_eq!(info.display_control_command(), 0x0f);
    info.set_display_control(DisplayEnabled::Off, CursorEnabled::Off, BlinkEnabled::Off);
    assert_eq!(info.display_control_command(), 0x08);
}

#[test]
fn lcd_commands_and_pins() {
    assert_eq!(entry_mode_command(), 0x06);
    assert_eq!(create_character_command(3), 0x58);
    assert_eq!(create_character_command(9), 0x48);
    assert_eq!(nibbles(0xa5), [0x0a, 0xa5]);
    assert_eq!(nibble_levels(0b1010), [false, true, false, true]);
    assert!(register_level(Register::Data));
    assert!(!register_level(Register::Instruction));
    assert_eq!(NumLines::Two.as_count(), 2);
    assert_eq!(NumLines::One.as_count(), 1);
}

#[test]
fn display_driver_commands() {
    assert_eq!(cursor_advance_command(DisplayShift::Right, false), 0b0000_0110);
    assert_eq!(cursor_advance_command(DisplayShift::Left, true), 0b0000_0101);
    assert_eq!(display_command(true, false, true), 0b0000_1101);
    assert_eq!(shift_screen_command(true, DisplayShift::Left), 0b0001_1000);
    assert_eq!(shift_screen_command(false, DisplayShift::Right), 0b0001_0100);
    assert_eq!(function_command(true, false), 0b0010_1000);
    assert_eq!(font_cursor_command(0xff), 0b0111_1111);
    assert_eq!(text_cursor_command(0xff), 0xff);
    assert!(bool::from(DisplayShift::Right));
    assert!(!bool::from(DisplayShift::Left));
    assert!(DisplayRegister::Data.level());
}

#[test]
fn character_writes_address_each_character() {
    let mut characters = [[0u8; 8]; 8];
    for (i, character) in characters.iter_mut().enumerate() {
        for (j, row) in character.iter_mut().enumerate() {
            *row = (i * 8 + j) as u8;
        }
    }
    let writes = character_writes(&characters);
    assert_eq!(writes.len(), 72);
    assert_eq!(writes[0], (DisplayRegister::Instruction, 0x40));
    assert_eq!(writes[9], (DisplayRegister::Instruction, 0x48));
    assert_eq!(writes[10], (DisplayRegister::Data, 8));
    assert_eq!(writes[71], (DisplayRegister::Data, 63));
}

#[test]
fn a_door_starts_its_game_drawn_whole() {
    let mut game = Game::new(11, Vec::new());
    game.game_mode = GameMode::Overworld;
    game.overworld.player_position = Position::new(13, 1);
    let mut screen = Screen::new();
    game.draw_full_screen(&mut screen);
    assert_eq!(screen.cells()[16 + 13], 0);
    // Up, into door 3: the space shooter starts, drawn in its own
    // characters with the ship at the top left.
    game.update(&mut screen, [false, true, false, false]);
    match &game.game_mode {
        GameMode::SpaceShooter(shooter) => {
            assert_eq!(shooter.score, 0);
            assert_eq!(shooter.ship_position, Position::new(1, 0));
        }
        _ => panic!("the space shooter did not start"),
    }
    assert_eq!(screen.character_set(), 2);
    assert_eq!(screen.cells()[1], 0);
    assert!(screen.cells().iter().enumerate().all(|(k, &b)| k == 1 || b == b' '));
}

#[test]
fn frames_fill_a_second_law() {
    let mut deficit = 0u8;
    let mut total = 0u32;
    let mut lengths = Vec::new();
    for _ in 0..FPS {
        let (length, next) = frame_time(deficit);
        lengths.push(length);
        total += length;
        deficit = next;
    }
    assert_eq!(total, 1000);
    assert_eq!(&lengths[..3], &[17, 17, 16]);
    assert_eq!(deficit, 0);
}

#[test]
fn startup_brings_the_lcd_up() {
    let info = LCDInfo::new(16, NumLines::Two, FontSize::Dots5x8);
    let steps = info.startup_steps();
    assert_eq!(steps.len(), 13);
    assert_eq!(steps[0], StartupStep::Wait(50000));
    assert_eq!(&steps[1..8], &[
        StartupStep::Nibble(3),
        StartupStep::Wait(4500),
        StartupStep::Nibble(3),
        StartupStep::Wait(4500),
        StartupStep::Nibble(3),
        StartupStep::Wait(150),
        StartupStep::Nibble(2),
    ]);
    assert_eq!(steps[8], StartupStep::Command(0x28));
    assert_eq!(steps[9], StartupStep::Command(0x0c));
    assert_eq!(steps[10], StartupStep::Command(0x01));
    assert_eq!(steps[12], StartupStep::Command(0x06));
}

fn rebuilt(commands: &[LcdCommand]) -> Screen {
    let mut copy = Screen::new();
    for command in commands {
        match *command {
            LcdCommand::Clear => copy.clear(),
            LcdCommand::SetCursor(column, row) => copy.set_cursor(Position::new(column, row)),
            LcdCommand::Write(byte) => copy.write(byte),
            LcdCommand::LoadCharacterSet(set) => copy.load_character_set(set),
        }
    }
    copy
}

#[test]
fn the_commands_rebuild_what_is_shown_law() {
    let mut game = Game::new(11, Vec::new());
    let mut screen = Screen::new();
    game.draw_full_screen(&mut screen);
    let inputs: [[bool; 4]; 6] = [
        [false, false, false, false],
        [true, false, false, false],
        [false, true, false, false],
        [false, false, true, false],
        [false, false, false, true],
        [true, false, true, false],
    ];
    for frame in 0..300usize {
        let pressed = inputs[(frame * 5 + frame / 7) % inputs.len()];
        game.update(&mut screen, pressed);
        let copy = rebuilt(screen.commands());
        assert_eq!(copy.cells(), screen.cells(), "frame {frame}");
        assert_eq!(copy.character_set(), screen.character_set(), "frame {frame}");
        assert_eq!(
            (copy.cursor_column(), copy.cursor_row()),
            (screen.cursor_column(), screen.cursor_row()),
            "frame {frame}"
        );
    }
}

#[test]
fn taking_the_commands_keeps_what_is_shown() {
    let mut screen = Screen::new();
    screen.set_cursor(Position::new(2, 1));
    screen.print_bytes(b"hi");
    let taken = screen.take_commands();
    assert_eq!(
        taken,
        vec![LcdCommand::SetCursor(2, 1), LcdCommand::Write(b'h'), LcdCommand::Write(b'i')]
    );
    assert!(screen.commands().is_empty());
    assert_eq!(&screen.cells()[18..20], b"hi");
    assert_eq!((screen.cursor_column(), screen.cursor_row()), (4, 1));
}
