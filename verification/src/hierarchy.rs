//! Parent-child rules of the issue type hierarchy.

use vstd::prelude::*;
use vstd::string::*;

use crate::error::TaskulusError;
use crate::models::ProjectConfiguration;
use crate::text::{contains_str, copy_strings, index_in, join3, lemma_index_in, owned, position};

verus! {

/// The types a child of `parent_type` may have: the next level of the
/// hierarchy followed by every non-hierarchical type; none when the parent
/// type is not in the hierarchy or is its last level.
pub open spec fn allowed_child_types(
    hierarchy: Seq<Seq<char>>,
    types: Seq<Seq<char>>,
    parent_type: Seq<char>,
) -> Seq<Seq<char>> {
    let i = index_in(hierarchy, parent_type);
    if i < 0 || i >= hierarchy.len() - 1 {
        seq![]
    } else {
        seq![hierarchy[i + 1]] + types
    }
}

/// Return the allowed child types for a parent issue type.
pub fn get_allowed_child_types(configuration: &ProjectConfiguration, parent_type: &str) -> (r: Vec<String>)
    ensures
        r.deep_view() == allowed_child_types(
            configuration.hierarchy.deep_view(),
            configuration.types.deep_view(),
            parent_type@,
        ),
{
    proof {
        lemma_index_in(configuration.hierarchy.deep_view(), parent_type@);
    }
    let parent_index = match position(&configuration.hierarchy, parent_type) {
        Some(i) => i,
        None => {
            return Vec::new();
        },
    };
    if parent_index >= configuration.hierarchy.len() - 1 {
        return Vec::new();
    }
    let mut allowed: Vec<String> = Vec::new();
    allowed.push(configuration.hierarchy[parent_index + 1].clone());
    let mut rest = copy_strings(&configuration.types);
    let ghost first = allowed.deep_view();
    allowed.append(&mut rest);
    assert(allowed.deep_view() =~= first + configuration.types.deep_view());
    allowed
}

/// The message of a refused parent-child relationship.
pub open spec fn hierarchy_message(parent_type: Seq<char>, child_type: Seq<char>) -> Seq<char> {
    "invalid parent-child relationship: '"@ + parent_type + "' cannot have child '"@ + child_type + "'"@
}

/// Validate that a parent-child relationship is permitted.
pub fn validate_parent_child_relationship(
    configuration: &ProjectConfiguration,
    parent_type: &str,
    child_type: &str,
) -> (r: Result<(), TaskulusError>)
    ensures
        r is Ok <==> allowed_child_types(
            configuration.hierarchy.deep_view(),
            configuration.types.deep_view(),
            parent_type@,
        ).contains(child_type@),
        r matches Err(e) ==> e == TaskulusError::InvalidHierarchy(e->InvalidHierarchy_0)
            && e->InvalidHierarchy_0@ == hierarchy_message(parent_type@, child_type@),
{
    let allowed = get_allowed_child_types(configuration, parent_type);
    if !contains_str(&allowed, child_type) {
        let mut message = join3("invalid parent-child relationship: '", parent_type, "' cannot have child '");
        message.append(child_type);
        message.append("'");
        return Err(TaskulusError::InvalidHierarchy(message));
    }
    Ok(())
}

} // verus!
