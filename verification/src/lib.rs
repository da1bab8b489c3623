//! A small text-adventure world model: a player stands in one of a fixed set
//! of locations, moves along labelled paths, picks up objects from the floor,
//! and inspects an inventory. Every operation returns a description string
//! whose exact contents are specified and verified.

pub mod command;
pub mod game;
pub mod laws;
pub mod text;
pub mod world;
