//! Reads what compilers print and turns it into one schema of diagnostics.

pub mod diagnostic;
pub mod fpc;
pub mod gcc;
pub mod java;
pub mod java_build;
pub mod javac;
pub mod laws;
pub mod mcs;
pub mod pattern;
pub mod run;
pub mod rustc;
pub mod source;
pub mod text;
