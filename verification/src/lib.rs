//! Two small, composable control-flow primitives: a scoped try/catch
//! expression that recovers from failure locally without unwinding the
//! enclosing function, and a lifecycle controller that sequences an install
//! phase and a main phase with uniform error-transform and exit-hook
//! behavior around them.

pub mod fault;
pub mod terminate;
pub mod try_catch;

pub use try_catch::try_;
