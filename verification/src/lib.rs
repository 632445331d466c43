//! A discrete-event simulator for networks of small logic components
//! (gates, forks, constants, probes) wired into directed graphs.
//!
//! The heart of the crate is the component graph and its propagation
//! engine: a generation-checked arena stores components together with
//! their slot wiring, and a worklist algorithm re-evaluates affected
//! components until the circuit reaches a stable state or a step
//! ceiling is hit.

pub mod actions;
pub mod bits;
pub mod components;
pub mod cpu;
pub mod graph;
pub mod modes;
pub mod nodegraph;
pub mod propagate;
pub mod selection;
pub mod signals;
pub mod util;
