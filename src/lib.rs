//! Trajectories of satellites and massive perturbers around a rotating central
//! body, integrated step by step.
//!
//! The verified core holds what decides the shape of a run: which force law acts
//! and which terms it adds up (`gravity`), the schedule and seeds of the
//! normalized Legendre recurrence (`legendre`), the reading of spherical-harmonic
//! coefficient records (`coefficients`), and the multi-body integration loop with
//! its perturber snapshots and histories (`system`). The numeric values (states,
//! coefficients, table cells) are a type parameter, and the arithmetic on them is
//! handed in by the caller.
pub mod coefficients;
pub mod gravity;
pub mod legendre;
pub mod system;
