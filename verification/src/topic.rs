//! The parent of a topic.
use vstd::prelude::*;

use crate::topic_logic::spec_parent;

verus! {

/// Returns the parent of a topic (everything before its last `/`), or
/// `None` when the topic has no `/`.
pub fn get_parent(topic: &str) -> (parent: Option<&str>)
    ensures
        parent is None <==> spec_parent(topic@) is None,
        parent matches Some(p) ==> spec_parent(topic@) == Some(p@),
{
    crate::topic_logic::get_parent(topic)
}

} // verus!
