//! A chess rules engine, game lifecycle, compact game archive and event
//! subscription registry, with machine-checked contracts.

pub mod api;
pub mod export;
pub mod game;
pub mod hub;
pub mod i18n;
pub mod ident;
pub mod invariants;
pub mod json;
pub mod manager;
pub mod movegen;
pub mod movement;
pub mod storage;
pub mod terminal;
pub mod text;
pub mod types;
pub mod update;
