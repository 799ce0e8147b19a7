//! The logic of a monitor for Elegoo Centauri Carbon 2 printers: the stored
//! configuration and how the API edits it, which printer events reach which
//! notification destinations, the Telegram bot's commands, first-run setup
//! and network scans, and the checks of the printer control API.
pub mod config;
pub mod destinations;
pub mod error;
pub mod events;
pub mod keyed;
pub mod notify;
pub mod text;
pub mod telegram;
pub mod commands;
pub mod settings;
pub mod printer_api;
pub mod setup;
pub mod camera;
pub mod debug;
pub mod host_subnets;
