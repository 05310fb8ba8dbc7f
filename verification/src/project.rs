//! Starting points for new project content: the frontmatter text of a
//! fresh page and the file name it is stored under.  All file creation
//! happens outside the library.

use vstd::prelude::*;

verus! {

use crate::utils::{slugify, spec_slugify};
use vstd::string::StringExecFns;

/// How project manipulation can fail: a path that is missing or already
/// taken, reported by the surrounding file system code.
#[derive(Clone, Copy, Debug, PartialEq, Eq, Structural)]
pub enum ProjectError {
    InitializationError,
}

/// The frontmatter text a new page starts with: a fenced section holding
/// its title and its creation timestamp.
pub fn new_page_frontmatter(title: &str, timestamp_rfc3339: &str) -> (r: String)
    ensures
        r@ == "---\ntitle: "@ + title@ + "\ntimestamp: "@ + timestamp_rfc3339@ + "\n---"@,
{
    let mut r = "---\ntitle: ".to_owned();
    r.append(title);
    r.append("\ntimestamp: ");
    r.append(timestamp_rfc3339);
    r.append("\n---");
    r
}

/// The file a new page is stored under: its slugified title with the
/// markdown extension.
pub fn new_page_filename(title: &str) -> (r: String)
    ensures
        r@ == spec_slugify(title@) + ".md"@,
{
    let mut r = slugify(title);
    r.append(".md");
    r
}

} // verus!
