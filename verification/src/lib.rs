//! A bounded-concurrency network probe engine, verified with Verus.
//!
//! The engine fans a large, enumerable set of independent probes (one HTTP
//! request per word of a list, or one TCP connection per port of a range) out
//! under a fixed cap on the number in flight, classifies each outcome and
//! gathers the interesting ones. Everything in this crate is pure: the network
//! calls themselves are made by the program that drives the engine.

pub mod config;
pub mod decimal;
pub mod outcome;
pub mod classify;
pub mod ports;
pub mod target;
pub mod executor;
pub mod report;
pub mod render;
pub mod scan;
pub mod tcp_scan;
pub mod wide;
