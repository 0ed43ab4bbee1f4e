//! Packed-bit boards for square-grid tile games, with the piece geometry of
//! Blokus: shapes parsed from text and the corner cells where a piece may
//! touch another one diagonally.
mod bitarray;
mod bitboard;
mod coordinates;
mod geometry;
mod ruleset;

pub use bitarray::BitArray;
pub use bitboard::BitBoard;
pub use coordinates::{Coordinates, Direction, DirectionSet};
pub use geometry::{BoardGeometry, DynGeometry, StaticGeometry};
pub use ruleset::{
    corner_count, corner_offsets, corner_table, BlokusPiece, BlokusPieceSet, BlokusRuleset,
    StandardBlokusPieceSet,
};
