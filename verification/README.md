arduino_arcade
==============

A small arcade for an Arduino Uno with a 16x2 character LCD and a direction
pad: an overworld with doors into block catch, black jack, a space shooter
and sokoban, plus the beginnings of a rhythm game and a moon lander.

The games are verified with Verus. They draw on a `Screen`, a model of the
LCD that holds the visible cells, the cursor, the character set and every
command issued. The contracts state what each frame shows, and
`Screen::extends` ties that to the commands: what a screen shows is what
replaying its new commands (`replay`) makes of what it showed before. The
program hands those commands to the hardware; the pin-level driver in
`app/` is ordinary Rust and is not verified.

Layout:

- `src/` – the verified library.
  - `screen.rs` – the LCD model and its drawing operations.
  - `rng.rs` – the xorshift generator the games share.
  - `lcd.rs`, `lcd/` – the HD44780 settings, its start-up sequence,
    command bytes, pin levels and decimal formatting (through `ufmt`).
  - `frame.rs` – frame pacing: 60 frames in a second of whole milliseconds.
  - `display.rs` – command bytes of the second, flag-based display driver.
  - `game.rs` – the arcade: input debouncing and repeat, dispatch to the
    overworld and the games, high scores.
  - `game/` – the overworld and each game, and packed grid positions.
- `tests/` – tests of the library on concrete values.
- `app/` – the firmware around the library: pins, timer, frame loop, the
  heap, and the glyphs loaded into the LCD. The firmware embeds the sokoban level file
  from `app/sokoban.txt` (one label line and four rows of sixteen tiles per
  level), which is not part of this tree and must be supplied to build it.
