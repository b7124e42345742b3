//! Core library of a game-asset backend: an opaque short-identifier codec
//! built on positional numeral systems over custom alphabets, together with
//! the plain data types and decision rules that the backend's I/O layers use.

pub mod database;
pub mod id_converter;
pub mod luau;
pub mod numeral;
pub mod rbxm;
pub mod roblox;
pub mod utils;
