//! Which changes on disk the project reacts to: writes (modifications,
//! creations, removals) to paths outside build output, version control,
//! tool state and installed packages; and the `file://` URL of a path of
//! the project.

use crate::text::str_eq;
use vstd::prelude::*;
use vstd::string::{StrSliceExecFns, StringExecFns};

verus! {

/// Whether a path component names a directory whose changes are ignored:
/// `target`, `.git`, `.gemini` or `node_modules`.
pub open spec fn is_ignored_component(name: Seq<char>) -> bool {
    name == "target"@ || name == ".git"@ || name == ".gemini"@ || name == "node_modules"@
}

/// Whether a change reaches the project: it is a write (a modification, a
/// creation or a removal; reads and other events are not), and no component
/// of its path is ignored.
pub open spec fn watched_change(is_write: bool, components: Seq<Seq<char>>) -> bool {
    is_write && forall|i: int| 0 <= i < components.len() ==> !is_ignored_component(#[trigger] components[i])
}

fn is_ignored_component_exec(name: &str) -> (r: bool)
    ensures
        r == is_ignored_component(name@),
{
    str_eq(name, "target") || str_eq(name, ".git") || str_eq(name, ".gemini") || str_eq(name, "node_modules")
}

/// Whether a change of the kind `is_write` to the path with these components
/// reaches the project (see [`watched_change`]).
pub fn is_watched_change(is_write: bool, components: &Vec<String>) -> (r: bool)
    ensures
        r == watched_change(is_write, components@.map_values(|c: String| c@)),
{
    let ghost names = components@.map_values(|c: String| c@);
    if !is_write {
        return false;
    }
    let n = components.len();
    let mut i: usize = 0;
    while i < n
        invariant
            n == components@.len(),
            names == components@.map_values(|c: String| c@),
            i <= n,
            forall|k: int| 0 <= k < i ==> !is_ignored_component(#[trigger] names[k]),
        decreases n - i,
    {
        if is_ignored_component_exec(components[i].as_str()) {
            assert(names[i as int] == components@[i as int]@);
            return false;
        }
        i = i + 1;
    }
    true
}

/// What `url::Url::parse` makes of `text`: the URL's serialization, or
/// `None` when the text is no valid URL.
pub uninterp spec fn parsed_url(text: Seq<char>) -> Option<Seq<char>>;

/// Parses `text` with `url::Url::parse` and gives back the URL's
/// serialization (`String::from` the `Url`), or `None` on a parse error.
/// Claimed: the result is the named [`parsed_url`] of the text; what that is
/// for a given text is not stated.
#[verifier::external_body]
fn url_parse(text: &str) -> (r: Option<String>)
    ensures
        match r {
            Some(u) => parsed_url(text@) == Some(u@),
            None => parsed_url(text@) is None,
        },
{
    match url::Url::parse(text) {
        Ok(u) => Some(String::from(u)),
        Err(_) => None,
    }
}

/// A path of the project as the root sees it: an absolute path (starting
/// with `/`) stands for itself; any other is taken relative to the root.
pub open spec fn joined_path(root: Seq<char>, path: Seq<char>) -> Seq<char> {
    if path.len() > 0 && path[0] == '/' {
        path
    } else {
        root + seq!['/'] + path
    }
}

/// The text `file://` followed by the path.
pub open spec fn file_url_text(root: Seq<char>, path: Seq<char>) -> Seq<char> {
    seq!['f', 'i', 'l', 'e', ':', '/', '/'] + joined_path(root, path)
}

/// The `file://` URL of `path`, taken relative to the project root `root`
/// unless it is absolute; `None` when that text is no valid URL.
pub fn file_url(root: &str, path: &str) -> (r: Option<String>)
    ensures
        match r {
            Some(u) => parsed_url(file_url_text(root@, path@)) == Some(u@),
            None => parsed_url(file_url_text(root@, path@)) is None,
        },
{
    proof {
        reveal_strlit("file://");
        reveal_strlit("/");
    }
    let mut text = "file://".to_owned();
    if path.unicode_len() > 0 && path.get_char(0) == '/' {
        text.append(path);
    } else {
        text.append(root);
        text.append("/");
        text.append(path);
    }
    assert(text@ =~= file_url_text(root@, path@));
    url_parse(text.as_str())
}

} // verus!
