//! Token matching: aligning command line tokens to the configured options and arguments.
pub mod api;
pub mod model;
pub mod token_matcher;
