//! Server-side engine for a multiplayer dice round: admission of players,
//! an append-only log of rolls, and the analysis that picks the winners.

pub mod capability;
pub mod conflict;
pub mod model;
pub mod names;
pub mod registry;
