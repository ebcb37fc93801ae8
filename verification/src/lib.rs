//! Detection of gRPC servers and of the services that they list.
//!
//! The library holds what a scan decides and reads: which endpoints are to be
//! scanned (`plan`), how the scan of one goes on from step to step (`scanner`),
//! what is noted of it (`result`), how the names of services are read out of a
//! reply (`wire`, `reflection`), and what is told of a run (`report`). Network
//! and files are left to its caller.
pub mod encoding;
pub mod outside;
pub mod plan;
pub mod properties;
pub mod reading;
pub mod reflection;
pub mod report;
pub mod result;
pub mod scanner;
pub mod steps;
pub mod text;
pub mod wire;
