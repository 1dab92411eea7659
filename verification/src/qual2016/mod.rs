//! The drone-delivery simulation engine.

pub mod accounting;
pub mod command;
pub mod drone;
pub mod error;
pub mod geometry;
pub mod interaction;
pub mod laws;
pub mod model;
pub mod order;
pub mod parsing;
pub mod registry;
pub mod routing;
pub mod simulation;
pub mod warehouse;
pub mod world;

pub use command::Command;
pub use drone::{Drone, DroneEarthInteraction, ExecutedCommand};
pub use error::Qual2016ScoringError;
pub use geometry::{Location, MapSize};
pub use order::Order;
pub use warehouse::Warehouse;
pub use world::{Case, Earth, Product};
pub use registry::CaseRegistry;
pub use simulation::{score, score_commands, Simulation};
pub use parsing::{parse_submission, ParseError};
