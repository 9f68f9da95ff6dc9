//! Decisions of the publishing tools that work on a finished `output/`
//! tree: the preview server's routing under a base path, and the upload's
//! repository naming and safety check.
use vstd::prelude::*;
use crate::text::{has_prefix, is_prefix};

verus! {

/// The request path with the site's base path taken off its front: either
/// the base path itself, or the base path after a leading `/`.
pub open spec fn routed_path(path: Seq<char>, base: Seq<char>) -> Seq<char> {
    if is_prefix(base, path) {
        path.subrange(base.len() as int, path.len() as int)
    } else if is_prefix(seq!['/'] + base, path) {
        path.subrange(base.len() as int + 1, path.len() as int)
    } else {
        path
    }
}

/// Maps a request path to the path served from `output/`, taking off the
/// configured base path.
pub fn strip_base_path(path: &str, base: &str) -> (r: String)
    ensures
        r@ == routed_path(path@, base@),
{
    let n = path.unicode_len();
    let m = base.unicode_len();
    if has_prefix(path, base) {
        return String::from_str(path.substring_char(m, n));
    }
    let mut slashed = String::from_str("/");
    slashed.append(base);
    proof {
        reveal_strlit("/");
        assert(slashed@ =~= seq!['/'] + base@);
    }
    if has_prefix(path, slashed.as_str()) {
        return String::from_str(path.substring_char(m + 1, n));
    }
    String::from_str(path)
}

/// The description that marks a repository as this tool's upload target.
pub open spec fn description_for(title: Seq<char>) -> Seq<char> {
    title + ", published with comic-publisher, do not edit manually."@
}

/// The description given to the upload repository of the site `title`.
pub fn repository_description(title: &str) -> (r: String)
    ensures
        r@ == description_for(title@),
{
    let mut r = String::from_str(title);
    r.append(", published with comic-publisher, do not edit manually.");
    r
}

/// Whether an existing repository must not be overwritten: it holds
/// something and its description is not the expected one.
pub fn repository_conflicts(size: usize, found: &Option<String>, expected: &str) -> (r: bool)
    ensures
        r == (size != 0 && !(found matches Some(d) && d@ == expected@)),
{
    if size == 0 {
        return false;
    }
    match found {
        Some(d) => {
            let n = d.as_str().unicode_len();
            let same = n == expected.unicode_len() && has_prefix(d.as_str(), expected);
            proof {
                if d@ == expected@ || same {
                    assert(d@.subrange(0, expected@.len() as int) =~= d@);
                }
            }
            !same
        },
        None => true,
    }
}

/// The repository's address in the hosting API.
pub open spec fn api_url_for(user: Seq<char>, repository: Seq<char>) -> Seq<char> {
    "https://api.github.com/repos/"@ + user + "/"@ + repository
}

/// The API address of `user`'s repository `repository`.
pub fn repository_api_url(user: &str, repository: &str) -> (r: String)
    ensures
        r@ == api_url_for(user@, repository@),
{
    let mut r = String::from_str("https://api.github.com/repos/");
    r.append(user);
    r.append("/");
    r.append(repository);
    r
}

/// The authenticated address that the upload pushes to.
pub open spec fn push_url_for(user: Seq<char>, token: Seq<char>, repository: Seq<char>) -> Seq<char> {
    "https://"@ + user + ":"@ + token + "@github.com/"@ + user + "/"@ + repository + ".git"@
}

/// The authenticated push address of `user`'s repository `repository`.
pub fn push_url(user: &str, token: &str, repository: &str) -> (r: String)
    ensures
        r@ == push_url_for(user@, token@, repository@),
{
    let mut r = String::from_str("https://");
    r.append(user);
    r.append(":");
    r.append(token);
    r.append("@github.com/");
    r.append(user);
    r.append("/");
    r.append(repository);
    r.append(".git");
    r
}

} // verus!
