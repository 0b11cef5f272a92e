//! Crate-wide import resolution: computes, for every module of a crate, the
//! names visible in it by iterating import resolution to a fixed point. Also
//! holds the text-level editor assists that work on `use` items and item
//! headers.

pub mod defs;
pub mod docs;
pub mod input;
pub mod laws;
pub mod module_tree;
pub mod path_resolution;
pub mod per_ns;
pub mod resolver;
pub mod scope;

pub mod add_derive;
pub mod auto_import;
pub mod flip_comma;
pub mod text_edit;
pub mod use_syntax;
