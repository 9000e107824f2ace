//! A chess rules engine: board representation, threat maps, move generation,
//! move legality, check, checkmate and stalemate detection.
#![allow(non_snake_case, non_camel_case_types)]

pub mod board_coords;
pub mod chess_api;
pub mod symbols;
