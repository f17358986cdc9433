//! Authoring library for circuits of discrete parts.
//!
//! A [`Circuit`] collects motors, resistors and junctions, places them on a
//! grid, and assigns every connection between parts to one of the three
//! terminal levels that each part offers. [`Circuit::to_save_file`] turns the
//! result into the document that the simulator reads.

pub mod circuit;
pub mod layout;
pub mod model;
pub mod save_file;

pub use circuit::{
    ChainIndex, ChainLevel, Circuit, Component, ConnectError, Part, PartIndex, Rotation,
};
pub use save_file::{Chain, Connection, Dimensions, SaveFile};
