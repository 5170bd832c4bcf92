//! A bounded two-dimensional ecosystem: organisms forage, flee, chase and
//! eat each other and food pellets, tick by tick.
//!
//! Lengths are fixed-point integers: `geometry::UNIT` sub-units make one
//! length unit, so that a radius of `sqrt(mass)` units is compared exactly as
//! `distance² <= mass * UNIT²`.
pub mod geometry;
pub mod invariants;
pub mod config;
pub mod entities;
pub mod index;
pub mod biome;
pub mod util;

pub use biome::Microbiome;
pub use entities::{Food, Frame, NPCKind, QTIndexMassItem, WeightedPoint, NPC};
pub use config::{BiomeConfig, Config, ConfigError};
pub use geometry::{Pos, Shape, Vec2};
