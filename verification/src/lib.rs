//! The discrete core of an ice-fracture simulation on a triangular lattice.
//!
//! The lattice is a brick-like unrolling of a triangular mesh: nodes sit on a
//! `rows` x `cols` grid whose odd rows are shifted half a step to the right,
//! and every node owns up to three edges (horizontal, "/" and "\").  The
//! crate keeps the topology, the work queue and the fracture bookkeeping of
//! that lattice.  Stress magnitudes and directions are real-valued and stay
//! with the caller, who tells the engine only what follows from them: whether
//! an edge is loaded, and which neighbours received a share.
//!
//! * [`lattice`]: the geometry as mathematics, and its laws.
//! * [`node`], [`edge`], [`matrix`], [`edge_update_list`]: the data.
//! * [`model`]: the simulation state as mathematics, its steps and their laws.
//! * [`graph`]: the lattice with its queue; construction and single steps.
//! * [`phases`]: the two phases of a tick, driven by the caller's stress model.
//! * [`picker`]: picking an edge at random.
//! * [`render`]: the lattice as text.

pub mod edge;
pub mod edge_update_list;
pub mod graph;
pub mod lattice;
pub mod matrix;
pub mod model;
pub mod node;
pub mod phases;
pub mod picker;
pub mod render;
