//! Core of a small two-process tic-tac-toe web system: a hand-written HTTP
//! request parser and response builder, a URL-encoded parameter codec, a
//! multi-user game-board registry with its move rules, and the framing logic
//! of the private wire protocol between the web front-end and the game
//! back-end. All I/O (sockets, files, threads) lives outside this crate; the
//! functions here work on plain values and carry verified contracts.

pub mod game;
pub mod params;
pub mod request;
pub mod response;
pub mod strutil;
pub mod web;
pub mod wire;
