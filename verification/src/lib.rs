//! Geofence reconciliation: parses city region rings, tests point
//! containment, and flags users whose recorded locations fall outside the
//! region they are assigned to.

pub mod coord;
pub mod extract;
pub mod reconcile;
pub mod registry;
pub mod ring;
