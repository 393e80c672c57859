//! Verified core of the entity-simulation and scripted-behaviour library.
//!
//! * `dod`: the struct-of-arrays byte storage that simulated archetypes are
//!   converted into.
//! * `dod_store`: which archetypes are simulated, and the storage kept per
//!   archetype from frame to frame.
//! * `events`: the queue that the script API functions fill and the engine
//!   drains once per frame.
//! * `behavior`: the registry of loaded behaviour scripts, hot reload and the
//!   per-instance decision of which code an instance runs.

pub mod behavior;
pub mod dod;
pub mod dod_store;
pub mod events;
