//! graph-specs: reads markdown specifications and the code they describe
//! (Rust sources, PHP `#[Spec(...)]` attributes, or a code-facts keyspace)
//! into graphs of the same shape, and renders what a check finds as text or
//! as one JSON record per line.
pub mod anchors;
pub mod assembly;
pub mod check;
pub mod graph;
pub mod keyspace;
pub mod keyspace_reader;
pub mod markdown;
pub mod model;
pub mod order;
pub mod outcome;
pub mod paths;
pub mod php;
pub mod php_grammar;
pub mod php_keyspace;
pub mod php_syntax;
pub mod records;
pub mod render;
pub mod rust_keyspace;
pub mod rust_reader;
pub mod rust_signature;
pub mod rust_syntax;
pub mod report;
pub mod report_records;
pub mod surface;
pub mod text;
