//! What the functions of the library promise, in the terms of what goes into them
//! and what comes out: each law is about the result of a call, or about how the
//! results of several calls relate.

pub mod diagnostic;
pub mod fpc;
pub mod gcc;
pub mod inputs;
pub mod java;
pub mod java_build;
pub mod javac;
pub mod mcs;
pub mod order;
pub mod printed;
pub mod run;
pub mod rustc;
pub mod source;
pub mod text;
