[package]
name = "arduino_arcade"
version = "0.1.0"
edition = "2021"
publish = false

[dependencies]
ufmt = { version = "0.2", features = ["std"] }
embedded-hal = "1"
avr-device = { version = "0.5", features = ["atmega328p"] }
panic-halt = "0.2"
