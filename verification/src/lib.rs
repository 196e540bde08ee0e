//! Time tracking against issue trackers: connections, tickets and work slots,
//! with the rules that decide what is started, stopped, listed and published.

pub mod api;
pub mod cli;
pub mod domain;
pub mod errors;
pub mod gui;
pub mod integration;
pub mod laws;
pub mod sort;
pub mod storage;
pub mod table;
pub mod text;
pub mod time;
