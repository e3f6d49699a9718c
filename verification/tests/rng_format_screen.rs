use arduino_arcade::game::position::Position;
use arduino_arcade::lcd::format::{num_digits, FnWriter};
use arduino_arcade::rng::{rng, set_seed, Rng};
use arduino_arcade::screen::{LcdCommand, Screen};

#[test]
fn xorshift_steps() {
    let mut generator = Rng::new(1);
    assert_eq!(rng(&mut generator), 270369);
    assert_eq!(rng(&mut generator), 67634689);
    assert_eq!(rng(&mut generator), 2647435461);
    assert_eq!(generator.state, 2647435461);
}

#[test]
fn set_seed_replaces_state() {
    let mut generator = Rng::new(7);
    set_seed(&mut generator, 12345);
    assert_eq!(generator.state, 12345);
    assert_eq!(rng(&mut generator), 3336926330);
}

#[test]
fn zero_seed_stays_zero_law() {
    let mut generator = Rng::new(0);
    for _ in 0..10 {
        assert_eq!(rng(&mut generator), 0);
    }
    let mut generator = Rng::new(0x8000_0000);
    for _ in 0..1000 {
        assert_ne!(rng(&mut generator), 0);
    }
}

#[test]
fn num_digits_counts_decimal_digits() {
    assert_eq!(num_digits(0), 1);
    assert_eq!(num_digits(9), 1);
    assert_eq!(num_digits(10), 2);
    assert_eq!(num_digits(999), 3);
    assert_eq!(num_digits(1000), 4);
    assert_eq!(num_digits(u32::MAX), 10);
}

#[test]
fn fn_writer_keeps_its_function() {
    let mut seen: Vec<u8> = Vec::new();
    let mut writer = FnWriter::new(|byte: u8| seen.push(byte));
    (writer.function)(4);
    (writer.function)(2);
    drop(writer);
    assert_eq!(seen, vec![4, 2]);
}

#[test]
fn new_screen_is_blank() {
    let screen = Screen::new();
    assert_eq!(screen.cells(), vec![b' '; 32]);
    assert_eq!((screen.cursor_column(), screen.cursor_row(), screen.character_set()), (0, 0, 0));
    assert!(screen.commands().is_empty());
}

#[test]
fn write_advances_cursor_and_records_command() {
    let mut screen = Screen::new();
    screen.set_cursor(Position::new(3, 1));
    screen.write(b'x');
    screen.write(b'y');
    assert_eq!(screen.cells()[16 + 3], b'x');
    assert_eq!(screen.cells()[16 + 4], b'y');
    assert_eq!(screen.cursor_column(), 5);
    assert_eq!(
        screen.commands(),
        vec![LcdCommand::SetCursor(3, 1), LcdCommand::Write(b'x'), LcdCommand::Write(b'y')]
    );
}

#[test]
fn writes_past_the_last_column_are_not_shown() {
    let mut screen = Screen::new();
    screen.set_cursor(Position::new(15, 0));
    screen.print_bytes(b"ab");
    assert_eq!(screen.cells()[15], b'a');
    assert_eq!(screen.cells()[16], b' ');
    assert_eq!(screen.cursor_column(), 17);
}

#[test]
fn print_shows_decimal_digits() {
    let mut screen = Screen::new();
    screen.set_cursor(Position::new(2, 0));
    screen.print(40960);
    assert_eq!(&screen.cells()[2..7], b"40960");
    assert_eq!(screen.cursor_column(), 7);
    let mut screen = Screen::new();
    screen.print(0);
    assert_eq!(screen.cells()[0], b'0');
    assert_eq!(screen.commands(), vec![LcdCommand::Write(b'0')]);
}

#[test]
fn clear_blanks_and_homes() {
    let mut screen = Screen::new();
    screen.set_cursor(Position::new(4, 1));
    screen.print_bytes(b"abc");
    screen.load_character_set(2);
    screen.clear();
    assert_eq!(screen.cells(), vec![b' '; 32]);
    assert_eq!((screen.cursor_column(), screen.cursor_row()), (0, 0));
    assert_eq!(screen.character_set(), 2);
    assert_eq!(screen.commands().last(), Some(&LcdCommand::Clear));
}

#[test]
fn print_multiline_starts_each_line_at_the_same_column() {
    let mut screen = Screen::new();
    screen.print_multiline(Position::new(4, 0), b"Player\nwon!");
    assert_eq!(&screen.cells()[4..10], b"Player");
    assert_eq!(&screen.cells()[20..24], b"won!");
}
