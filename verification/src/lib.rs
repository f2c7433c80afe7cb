//! A static-site generator's core: the markup parser, the cross-reference map and the
//! document tree, with the page and link builders around them.

pub mod build;
pub mod constants;
pub mod root;
pub mod section;
pub mod text;
