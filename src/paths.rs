//! Path rewriting between the input tree, the `images/` output namespace and
//! the output tree. Every URL built here uses forward slashes.
use vstd::prelude::*;
use crate::text::{char_at, has_prefix, is_prefix};

verus! {

/// `images/`: the output namespace of every comic image.
pub open spec fn image_root() -> Seq<char> {
    seq!['i', 'm', 'a', 'g', 'e', 's', '/']
}

/// `input/`: the input root.
pub open spec fn input_root() -> Seq<char> {
    seq!['i', 'n', 'p', 'u', 't', '/']
}

/// `output/`: the output root.
pub open spec fn output_root() -> Seq<char> {
    seq!['o', 'u', 't', 'p', 'u', 't', '/']
}

/// The path with every backslash turned into a forward slash.
pub open spec fn slashed(s: Seq<char>) -> Seq<char> {
    s.map_values(|c: char| if c == '\\' { '/' } else { c })
}

/// The output-relative URL of an input-root-relative path.
pub open spec fn image_url_of(rel: Seq<char>) -> Seq<char> {
    image_root() + slashed(rel)
}

/// Index of the last `/` in `s`, or -1 when there is none.
pub open spec fn last_slash(s: Seq<char>) -> int
    decreases s.len(),
{
    if s.len() == 0 {
        -1
    } else if s.last() == '/' {
        s.len() - 1
    } else {
        last_slash(s.drop_last())
    }
}

/// The directory part of a slash-separated path (empty when there is none).
pub open spec fn parent_of(s: Seq<char>) -> Seq<char> {
    if last_slash(s) < 0 {
        Seq::empty()
    } else {
        s.subrange(0, last_slash(s))
    }
}

proof fn lemma_last_slash_bounds(s: Seq<char>)
    ensures
        -1 <= last_slash(s) < s.len(),
        last_slash(s) >= 0 ==> s[last_slash(s)] == '/',
    decreases s.len(),
{
    if s.len() > 0 && s.last() != '/' {
        lemma_last_slash_bounds(s.drop_last());
    }
}

/// Rewrites backslashes in a path to forward slashes.
pub fn to_forward_slashes(s: &str) -> (r: String)
    ensures
        r@ == slashed(s@),
{
    let n = s.unicode_len();
    let mut out = String::new();
    let mut i: usize = 0;
    while i < n
        invariant
            n == s@.len(),
            i <= n,
            out@ == slashed(s@.subrange(0, i as int)),
        decreases n - i,
    {
        let c = s.get_char(i);
        if c == '\\' {
            proof {
                reveal_strlit("/");
                assert("/"@ =~= seq!['/']);
            }
            out.append("/");
        } else {
            out.append(char_at(s, i));
        }
        assert(s@.subrange(0, i + 1) =~= s@.subrange(0, i as int).push(c));
        assert(slashed(s@.subrange(0, i + 1)) =~= slashed(s@.subrange(0, i as int)).push(
            if c == '\\' { '/' } else { c },
        ));
        i = i + 1;
    }
    assert(s@.subrange(0, n as int) =~= s@);
    out
}

/// The URL under `images/` of a path relative to the input root.
pub fn image_url(rel: &str) -> (r: String)
    ensures
        r@ == image_url_of(rel@),
{
    let mut out = String::from_str("images/");
    proof {
        reveal_strlit("images/");
        assert("images/"@ =~= image_root());
    }
    let tail = to_forward_slashes(rel);
    out.append(tail.as_str());
    assert(out@ =~= image_url_of(rel@));
    out
}

/// The directory part of a slash-separated path.
pub fn parent_dir(s: &str) -> (r: String)
    ensures
        r@ == parent_of(s@),
{
    let n = s.unicode_len();
    let mut i: usize = n;
    assert(s@.subrange(0, n as int) =~= s@);
    while i > 0 && s.get_char(i - 1) != '/'
        invariant
            n == s@.len(),
            i <= n,
            last_slash(s@) == last_slash(s@.subrange(0, i as int)),
        decreases i,
    {
        assert(s@.subrange(0, i - 1) =~= s@.subrange(0, i as int).drop_last());
        i = i - 1;
    }
    proof {
        lemma_last_slash_bounds(s@);
    }
    if i == 0 {
        assert(last_slash(s@.subrange(0, 0)) == -1);
        String::new()
    } else {
        assert(last_slash(s@.subrange(0, i as int)) == i - 1);
        let r = s.substring_char(0, i - 1);
        String::from_str(r)
    }
}

/// Where a copy of one image reads and writes, and the directory it needs.
#[derive(Clone, Debug, PartialEq, Eq)]
pub struct ImageCopy {
    pub source: String,
    pub destination: String,
    pub directory: String,
}

/// For an output-relative URL under `images/`: its source under `input/`
/// (the namespace prefix stripped), its destination under `output/`, and the
/// destination's directory. `None` for a URL outside the namespace.
pub fn image_copy(url: &str) -> (r: Option<ImageCopy>)
    ensures
        r is None <==> !is_prefix(image_root(), url@),
        r matches Some(c) ==> {
            &&& c.source@ == input_root() + url@.subrange(image_root().len() as int, url@.len() as int)
            &&& c.destination@ == output_root() + url@
            &&& c.directory@ == parent_of(output_root() + url@)
        },
{
    proof {
        reveal_strlit("images/");
        reveal_strlit("input/");
        reveal_strlit("output/");
        assert("images/"@ =~= image_root());
        assert("input/"@ =~= input_root());
        assert("output/"@ =~= output_root());
    }
    if !has_prefix(url, "images/") {
        return None;
    }
    let n = url.unicode_len();
    let skip = "images/".unicode_len();
    let mut source = String::from_str("input/");
    source.append(url.substring_char(skip, n));
    let mut destination = String::from_str("output/");
    destination.append(url);
    let directory = parent_dir(destination.as_str());
    assert(source@ =~= input_root() + url@.subrange(image_root().len() as int, url@.len() as int));
    assert(destination@ =~= output_root() + url@);
    Some(ImageCopy { source, destination, directory })
}

} // verus!
