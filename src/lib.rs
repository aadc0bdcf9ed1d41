//! A build engine for C and C++ targets: dependency-graph construction and
//! validation, incremental rebuild decisions over content fingerprints and
//! include closures, and compile and link command synthesis.
pub mod compdb;
pub mod compile;
pub mod config;
pub mod features;
pub mod fingerprint;
pub mod includes;
pub mod link;
pub mod source;
pub mod target;
pub mod text;
