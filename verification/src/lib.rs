//! A proving service and benchmark-harness library around an opaque STARK
//! prover: field-element modelling, the wire codec for witnesses and proofs,
//! execution-trace generation for a linear-recurrence circuit, the circuit's
//! constraint declaration, HTTP request dispatch, and the harness's
//! length-prefixed pipe protocol.

pub mod codec;
pub mod fib;
pub mod field;
pub mod harness;
pub mod keccak;
pub mod matrix;
pub mod service;
