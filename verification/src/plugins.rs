//! The built-in output plugins.
pub mod actionable;
pub mod default;
pub mod debug;
pub mod context;
pub mod dense;
pub mod forked;
pub mod counter;
pub mod minimal;
pub mod junit;
pub mod json;
pub mod logstash;
pub mod logfile;
pub mod full_skip;
