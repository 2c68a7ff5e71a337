//! Verified core of a small offline ray tracer.
//!
//! The library holds the parts of the renderer that can be stated and proved
//! exactly: the mesh description grammar and triangle assembly, the
//! nearest-hit selection policy, occlusion-sample counting, the recursion
//! cutoff, and the row-task partitioning of the output framebuffer.
//! Floating-point geometry (vector arithmetic, intersection formulas,
//! shading) lives with the binary around the library.

pub mod math3d;
pub mod mesh;
pub mod sched;
pub mod trace;
