//! A parameterized benchmark execution engine.
//!
//! A benchmark case names one state-transition operation together with its
//! complexity parameters, each ranging over `[low, high)`. The engine sweeps
//! each parameter independently while freezing the others at the midpoint of
//! their range, isolates the backing store around every timed run, and
//! returns one `(assignment, elapsed)` row per run, in execution order.

pub mod account;
pub mod decl;
pub mod engine;
pub mod model;
pub mod params;

pub use account::account;
pub use decl::{resolve, CommonPool, ComponentDecl};
pub use engine::{
    BenchmarkError, BenchmarkResult, BenchmarkingSetup, Case, Environment, Registry,
};
pub use model::{assignment_value, components_valid, Component, ParameterId};
pub use params::SharedParams;
