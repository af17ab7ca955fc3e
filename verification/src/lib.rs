//! The logic of a terminal manager for `socat` relays.

pub mod app;
pub mod app_laws;
pub mod config;
pub mod decimal;
pub mod effects;
pub mod form;
pub mod input;
pub mod key_laws;
pub mod keys;
pub mod ledger;
pub mod options;
pub mod procs;
pub mod schedule;
pub mod screen_laws;
pub mod stats;
pub mod stopping;
pub mod text;
pub mod tunnel;
pub mod tunnel_laws;
pub mod ui;
pub mod units;
