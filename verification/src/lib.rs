//! Decision core of a differential tester for solution binaries.
//!
//! The crate holds the rules by which captured program outputs are compared,
//! by which cases are paired with their expected outputs, and by which a run
//! over many cases is stopped at its first failure. Spawning programs and
//! touching the file system are left to the caller.

pub mod bytes;
pub mod outcome;
pub mod normalize;
pub mod comparator;
pub mod stop;
pub mod orchestrator;
pub mod trace;
pub mod naming;
pub mod order;
pub mod pairing;
pub mod runner;
pub mod config;
pub mod report;
pub mod generate;
