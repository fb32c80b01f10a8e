//! Keyboard backlight, in order of how much of the world each path covers.

pub mod leds;

pub mod upower;
