pub mod audio;
pub mod bytes;
pub mod desktop;
pub mod docs;
pub mod lines;
pub mod numbers;
pub mod paths;
pub mod proot;
pub mod text;
