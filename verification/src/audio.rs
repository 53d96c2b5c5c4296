pub mod args;
pub mod config;
pub mod env;
pub mod sink;
pub mod startup;
pub mod supervisor;
