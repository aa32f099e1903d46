//! Simulation: the layered view the handlers act on, and what a pass
//! changed, the diff between a transient layer and the layers beneath it,
//! built entry by entry from what the layer walk observes.

pub mod diff;
pub mod resolver;
