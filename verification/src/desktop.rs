pub mod backend;
pub mod device;
