//! Procedural placement of trees on a grid.
//!
//! A grid is walked cell by cell, a scalar field is sampled at each cell, the
//! sample picks one of a fixed number of tree sizes, and a tree of that size
//! is placed on the cell.
//!
//! - [`scalar`] holds the fixed-point numbers that everything is measured in.
//! - [`map::grid`] says which cells the walk stops at.
//! - [`map::trees`] holds the shape of the trees and the table of their sizes.
//! - [`map::trees::generators`] holds the fields.
//! - [`map`] plants a whole map.
//!
//! Nothing here draws. The boxes and surfaces of the trees are registered in
//! plain lists and the trees are handed out as a list of placements, for the
//! caller to give to whatever draws them.

pub mod map;
pub mod scalar;
