pub mod alan;
pub mod circuit;
pub mod cli;
pub mod clock;
pub mod config;
pub mod executor;
pub mod meta;
pub mod pattern;
pub mod serve;
pub mod text;
