//! A client-side runtime for the Container Network Interface (CNI): validated
//! configuration values, a plugin-list codec, and an invocation engine that
//! walks a plugin chain, deriving each plugin's environment and stdin document
//! and classifying its output.

pub mod invocation;
pub mod json;
pub mod net;
pub mod plugins;
pub mod runtime;
pub mod schema;
pub mod strutil;
pub mod types;
