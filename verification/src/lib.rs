//! Contracts for GPU kernels: what a kernel computes, whether it can go out of bounds, what
//! identifies it, and the code that is generated beside it.

pub mod agreement;
pub mod artifacts;
pub mod bits;
pub mod casework;
pub mod config;
pub mod conformance;
pub mod contract;
pub mod convert;
pub mod coop;
pub mod cube_struct;
pub mod decl;
pub mod fault;
pub mod float;
pub mod flow;
pub mod frame;
pub mod fuzz;
pub mod grammar;
pub mod hash;
pub mod ieee;
pub mod interp;
pub mod ir;
pub mod kernel;
pub mod locs;
pub mod lowering;
pub mod model;
pub mod monotone;
pub mod numbers;
pub mod operators;
pub mod parser;
pub mod precision;
pub mod prover;
pub mod reading;
pub mod records;
pub mod refutation;
pub mod roster;
pub mod sampling;
pub mod schedule;
pub mod semantics;
pub mod soundness;
pub mod source;
pub mod suite;
pub mod symbolic;
pub mod syntax;
pub mod template;
pub mod text;
pub mod tokens;
pub mod twin;
pub mod value;
pub mod words;
