//! A data-driven skill/progression engine for a survival-style action game.
//!
//! Skills are described by versioned numeric specifications loaded from an
//! external catalog; the engine applies those specifications onto live
//! behavior components, tracks experience-driven leveling, generates bounded
//! random upgrade offers, commits player choices, and survives hot reloads of
//! the catalog without resetting progression.
//!
//! Continuous quantities are held in fixed-point thousandths (see [`fixed`]),
//! so every numeric rule of the engine is stated and proved exactly.

pub mod assoc;
pub mod catalog;
pub mod components;
pub mod display;
pub mod equipped;
pub mod fields;
pub mod fixed;
pub mod progression;
pub mod reconcile;
pub mod skill;
pub mod skill_spec;
pub mod upgrade;
pub mod values;
