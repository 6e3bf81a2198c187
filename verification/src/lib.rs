//! Decomposition of ideographic characters into composition trees.
//!
//! A raw description string (an Ideographic Description Sequence) is parsed
//! into a tree of composition operators whose leaves are either references to
//! other characters or irreducible stroke primitives.  Given a variant table
//! mapping each character to its description strings, the expansion engine
//! recursively replaces unresolved character leaves by their own parsed
//! descriptions, propagating variant preference down the tree.

pub mod expand;
pub mod laws;
pub mod io;
pub mod node;
pub mod parser;

pub use crate::parser::IDSError;
pub use crate::parser::IDSParser;

pub use crate::node::IDS;
pub use crate::node::IDSExpr;
pub use crate::node::IDSNode;

pub use crate::expand::create_node;
pub use crate::expand::create_tree;
pub use crate::expand::extend_node;
pub use crate::expand::extend_var_list;

pub use crate::io::add_ids_file;
pub use crate::io::load;
pub use crate::io::query;
pub use crate::io::set_ids_file_list;
pub use crate::io::IdsFileList;
pub use crate::io::VariantTable;
