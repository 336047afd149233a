//! Battle-roster monitor core: decoding of pipe-delimited character records
//! read from a game client's memory, grid-position mapping, roster assembly,
//! and change detection against the previously published roster.

pub mod character;
pub mod fields;
pub mod grid;
pub mod hex;
pub mod roster;
pub mod session;
