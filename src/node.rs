//! The virtual node tree that rendering produces.
use vstd::prelude::*;

verus! {

/// One node of a rendered frame.
#[derive(Debug, PartialEq, Eq)]
pub enum Node {
    /// A tagged node with attributes and an ordered list of children.
    Tag { tag: String, attributes: Vec<(String, String)>, children: Vec<Node> },
    /// A run of text.
    Text(String),
}

} // verus!
