//! The execution engine: a variable store, scripts of commands and the
//! instances that run them.

pub mod context;
pub mod func;
pub mod script;
pub mod trap;
