pub mod files;
pub mod kv;
pub mod machine_id;
pub mod pacman;
pub mod setup;
pub mod xkb;
