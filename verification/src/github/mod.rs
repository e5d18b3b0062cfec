//! The GitHub resources the tool reads and writes, and the requests it builds.
pub mod model;
pub mod client;
