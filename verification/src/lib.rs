//! Verified core of a small Bluetooth manager built around `bluetoothctl`.

pub mod text;
pub mod ansi;
pub mod mac;
pub mod scan;
pub mod known;
pub mod service;
pub mod pairing;
pub mod state;
pub mod persist;
pub mod ui;
