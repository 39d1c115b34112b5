//! Rewrites TypeScript `enum` declarations into plain JavaScript, and accesses to enum
//! members into their constant values.
//!
//! [`typescript_enum::TypeScriptEnum`] is the transform. What it builds is stated in
//! [`model`], as a function of the declaration and of the tables of the program.

pub mod admitted;
pub mod ast;
pub mod laws;
pub mod model;
pub mod number;
pub mod outcome;
pub mod references;
pub mod rename;
pub mod scoping;
pub mod typescript_enum;
