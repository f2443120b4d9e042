//! A ledger of arbitration conflicts: an authority opens conflicts, voters cast
//! one ballot each, and the authority resolves each conflict exactly once.

pub mod laws;
pub mod model;
pub mod registry;
