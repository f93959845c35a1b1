//! Grafting a directory tree: the destination mirrors the source's
//! directories, and every leaf becomes a symbolic link back into the source.

mod error;
mod laws;
mod path;
mod preflight;
mod tree;

pub use error::{message_of, CliError};
pub use laws::{
    expected_step, lemma_graft_copies_links, lemma_graft_fills_destination, lemma_graft_links_files,
    lemma_graft_mirrors_structure, lemma_graft_parents_first, located, parent_made_before, traced,
};
pub use path::{join, join_path, path_of};
pub use preflight::{
    accepted_as, check_dir, dir_check_outcome, dir_is_empty, emptiness_outcome, preflight,
    refused_as_not_dir,
};
pub use tree::{graft_entries, graft_plan, node_steps, nodes_steps, steps_of, GraftOp, Node, Step};
