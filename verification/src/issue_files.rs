//! Where issue files lie.

use vstd::prelude::*;
use vstd::string::*;

use crate::event_history::issue_file_name;
use crate::paths::{join_path, path_join};
use crate::text::owned;

verus! {

/// Build the file path for an issue identifier: `{identifier}.json` in the
/// issues directory.
pub fn issue_path_for_identifier(issues_directory: &str, identifier: &str) -> (r: String)
    ensures
        r@ == path_join(issues_directory@, issue_file_name(identifier@)),
{
    let mut name = owned(identifier);
    name.append(".json");
    join_path(issues_directory, &name)
}

} // verus!
