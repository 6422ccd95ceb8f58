//! Verified core of the Anecho audio analyzer backend.

pub mod le;
pub mod wire;
pub mod text;
pub mod types;
pub mod blocker;
pub mod rng;
pub mod error;
pub mod device;
pub mod engine;
pub mod dsp;
pub mod analyzers;
pub mod routing;
pub mod loopback;
pub mod syntax;
pub mod cli;
pub mod requests;
pub mod connection;
