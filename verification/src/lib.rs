//! Stat aggregation for a character build planner: summing contributions,
//! applying percent multipliers, folding tree-node modifiers and conversions.
pub mod ranged;
pub mod keymap;
pub mod stat_map;
pub mod types;
pub mod text;
pub mod aggregate;
pub mod engine;
pub mod sources;
pub mod finalize;
pub mod stat_defs;
pub mod breakdown;
pub mod damage;
pub mod skill_damage;
pub mod inventory;
pub mod laws;
pub mod value_laws;
