//! The yearly evolution of tribal populations.
//!
//! Agents hold genetic alleles and learnt memes, compete for a yearly pool of
//! resources, reproduce, migrate and die; groups of agents split when they
//! are crowded and end when they are down to one member. One seeded generator
//! drives every phase of a year.
//!
//! Every real quantity is a signed count of millionths (see [`fixed`]), so
//! that what the phases do is stated exactly and proved: the memory
//! accounting of every agent stays sound through every phase, what is shared
//! adds up to what there was to share, and nobody is lost or made up when
//! groups split or members migrate.

pub mod agent;
pub mod api;
pub mod cli;
pub mod config;
pub mod culture;
pub mod db;
pub mod distribution;
pub mod fixed;
pub mod group;
pub mod memetics;
pub mod population;
pub mod random;
pub mod reproduction;
pub mod run;
pub mod selection;
pub mod statistics;
