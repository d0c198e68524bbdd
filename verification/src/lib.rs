//! Chat plays the game: lines of chat become button presses on a virtual
//! gamepad, and commands for those who keep order.
//!
//! - [`parsing`] reads a line of chat as a [`command::Command`];
//!   [`round_trip`] shows that a command which is written back reads as
//!   itself.
//! - [`arbiter`] takes each command with its sender, keeps the state store
//!   of [`database`], and decides what is answered and what is sent on;
//!   [`arbiter_laws`] holds what is true of every message.
//! - [`gamepad`] schedules the button presses on a clock tick;
//!   [`gamepad_laws`] holds what is true of every trace.
//! - [`game_runner`] decides for the game process and the sound effects.
//! - [`config`] holds what the configuration file says, [`twitch`] what the
//!   chat transport hands over, and [`table`] and [`text`] serve the rest.
//!
//! Nothing here touches a device, a process or the network: every step
//! takes plain values and hands back what is to be done. All that is read
//! from the machine is the clock and the time zone.

pub mod arbiter;
pub mod arbiter_laws;
pub mod command;
pub mod config;
pub mod database;
pub mod game_runner;
pub mod gamepad;
pub mod gamepad_laws;
pub mod parsing;
pub mod round_trip;
pub mod table;
pub mod text;
pub mod twitch;
