//! Devices and confinement.

pub mod confinement;
pub mod devices;
