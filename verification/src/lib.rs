//! Readers for World of Warships game data and the rules behind its exports.
pub mod arith;
pub mod build_info;
pub mod bytes;
pub mod capabilities;
pub mod exact;
pub mod export;
pub mod game_params;
pub mod models;
pub mod order;
pub mod rounding;
pub mod single;
pub mod slots;
pub mod text;
pub mod text_laws;
