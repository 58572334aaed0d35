//! A two-dimensional mass-spring engine on fixed-point numbers: Verlet
//! integration, iterative relaxation of breakable links, walls, and
//! radius-based interaction.
pub mod scalar;
pub mod vector;
pub mod model;
pub mod dynamics;
pub mod simulation;
pub mod laws;
