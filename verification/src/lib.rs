//! Cross-venue perpetual spread arbitrage: pricing, sizing, position books and
//! the decisions of the trading loop, as verified functions.

pub mod app;
pub mod clock;
pub mod config;
pub mod decimal;
pub mod domain;
pub mod exchange;
pub mod keymap;
pub mod ranking;
pub mod text;
