pub mod assets;
pub mod callgraph;
pub mod clean;
pub mod escape;
pub mod images;
pub mod index;
pub mod items;
pub mod manual;
pub mod markdown;
pub mod options;
pub mod patterns;
pub mod report;
pub mod snippets;
pub mod source;
