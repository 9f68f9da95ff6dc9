//! Content discovery: each declared comic against what was found at its folder.
use vstd::prelude::*;
use crate::model::{Comic, ComicModel, ComicSpec, Listing, comics_view};
use crate::paths::{image_url, image_url_of, input_root};
use crate::text::{sort_texts, sorted_texts};

verus! {

/// The file names among a folder's entries, in listing order.
pub open spec fn entry_names(e: Seq<Result<String, String>>) -> Seq<Seq<char>>
    decreases e.len(),
{
    if e.len() == 0 {
        Seq::empty()
    } else {
        let prev = entry_names(e.drop_last());
        match e.last() {
            Ok(name) => prev.push(name@),
            Err(_) => prev,
        }
    }
}

/// The diagnostic for an entry that could not be read.
pub open spec fn unreadable_entry_message(err: Seq<char>) -> Seq<char> {
    "Error reading page "@ + err
}

/// The diagnostics for a folder's unreadable entries, in listing order.
pub open spec fn entry_errors(e: Seq<Result<String, String>>) -> Seq<Seq<char>>
    decreases e.len(),
{
    if e.len() == 0 {
        Seq::empty()
    } else {
        let prev = entry_errors(e.drop_last());
        match e.last() {
            Ok(_) => prev,
            Err(err) => prev.push(unreadable_entry_message(err@)),
        }
    }
}

/// The input path of a comic's folder.
pub open spec fn folder_path(folder: Seq<char>) -> Seq<char> {
    input_root() + folder
}

/// The diagnostic for a comic whose folder is not a directory; it names the folder.
pub open spec fn missing_folder_message(folder: Seq<char>) -> Seq<char> {
    "Comic folder "@ + folder_path(folder) + " is not a directory"@
}

/// The URL of an image file in a comic's folder.
pub open spec fn page_url_of(folder: Seq<char>, name: Seq<char>) -> Seq<char> {
    image_url_of(folder + seq!['/'] + name)
}

/// The comic that a declared comic resolves to, given its folder's entries:
/// page URLs sorted by their text, whatever the listing order.
pub open spec fn resolved_comic(spec: ComicSpec, e: Seq<Result<String, String>>) -> ComicModel {
    ComicModel {
        title: spec.title@,
        url: spec.folder@,
        thumbnail: image_url_of(spec.thumbnail@),
        description: spec.description@,
        pages: sorted_texts(entry_names(e).map_values(|n: Seq<char>| page_url_of(spec.folder@, n))),
    }
}

/// The comics that resolve, in declared order: those whose folder is missing
/// are left out.
pub open spec fn discovered(specs: Seq<ComicSpec>, found: Seq<Listing>) -> Seq<ComicModel>
    decreases specs.len(),
{
    if specs.len() == 0 {
        Seq::empty()
    } else {
        let prev = discovered(specs.drop_last(), found.drop_last());
        match found.last() {
            Listing::Missing => prev,
            Listing::Entries(e) => prev.push(resolved_comic(specs.last(), e@)),
        }
    }
}

/// The diagnostics of one comic's discovery.
pub open spec fn comic_notes(spec: ComicSpec, found: Listing) -> Seq<Seq<char>> {
    match found {
        Listing::Missing => seq![missing_folder_message(spec.folder@)],
        Listing::Entries(e) => entry_errors(e@),
    }
}

/// The diagnostics of discovery, comic by comic in declared order.
pub open spec fn discovery_notes(specs: Seq<ComicSpec>, found: Seq<Listing>) -> Seq<Seq<char>>
    decreases specs.len(),
{
    if specs.len() == 0 {
        Seq::empty()
    } else {
        discovery_notes(specs.drop_last(), found.drop_last()) + comic_notes(specs.last(), found.last())
    }
}

proof fn lemma_discovery_concat(s1: Seq<ComicSpec>, f1: Seq<Listing>, s2: Seq<ComicSpec>, f2: Seq<Listing>)
    requires
        s1.len() == f1.len(),
        s2.len() == f2.len(),
    ensures
        discovered(s1 + s2, f1 + f2) == discovered(s1, f1) + discovered(s2, f2),
        discovery_notes(s1 + s2, f1 + f2) == discovery_notes(s1, f1) + discovery_notes(s2, f2),
    decreases s2.len(),
{
    if s2.len() == 0 {
        assert(s1 + s2 =~= s1);
        assert(f1 + f2 =~= f1);
        assert(discovered(s1, f1) + discovered(s2, f2) =~= discovered(s1, f1));
        assert(discovery_notes(s1, f1) + discovery_notes(s2, f2) =~= discovery_notes(s1, f1));
    } else {
        assert((s1 + s2).drop_last() =~= s1 + s2.drop_last());
        assert((f1 + f2).drop_last() =~= f1 + f2.drop_last());
        lemma_discovery_concat(s1, f1, s2.drop_last(), f2.drop_last());
        assert((s1 + s2).last() == s2.last());
        assert((f1 + f2).last() == f2.last());
        assert(discovery_notes(s1 + s2, f1 + f2) =~= discovery_notes(s1, f1) + discovery_notes(s2, f2));
        match f2.last() {
            Listing::Missing => {},
            Listing::Entries(e) => {
                assert(discovered(s1 + s2, f1 + f2) =~= discovered(s1, f1) + discovered(s2, f2));
            },
        }
    }
}

/// A comic whose folder is missing gets exactly one diagnostic, which names
/// its folder, and no resolved comic; the comics before and after it are
/// discovered exactly as they would be without it.
pub proof fn lemma_missing_folder_skipped(specs: Seq<ComicSpec>, found: Seq<Listing>, i: int)
    requires
        specs.len() == found.len(),
        0 <= i < specs.len(),
        found[i] is Missing,
    ensures
        discovered(specs, found) == discovered(specs.take(i), found.take(i)) + discovered(
            specs.skip(i + 1),
            found.skip(i + 1),
        ),
        discovery_notes(specs, found) == discovery_notes(specs.take(i), found.take(i)) + seq![
            missing_folder_message(specs[i].folder@),
        ] + discovery_notes(specs.skip(i + 1), found.skip(i + 1)),
{
    let one_s = seq![specs[i]];
    let one_f = seq![found[i]];
    assert(specs =~= specs.take(i) + one_s + specs.skip(i + 1));
    assert(found =~= found.take(i) + one_f + found.skip(i + 1));
    lemma_discovery_concat(specs.take(i), found.take(i), one_s, one_f);
    lemma_discovery_concat(specs.take(i) + one_s, found.take(i) + one_f, specs.skip(i + 1), found.skip(i + 1));
    assert(one_s.drop_last() =~= Seq::<ComicSpec>::empty());
    assert(one_f.drop_last() =~= Seq::<Listing>::empty());
    assert(discovered(one_s.drop_last(), one_f.drop_last()) =~= Seq::<ComicModel>::empty());
    assert(discovery_notes(one_s.drop_last(), one_f.drop_last()) =~= Seq::<Seq<char>>::empty());
    assert(one_f.last() == found[i]);
    assert(one_s.last() == specs[i]);
    assert(discovered(one_s, one_f) =~= Seq::<ComicModel>::empty());
    assert(discovery_notes(one_s, one_f) =~= seq![missing_folder_message(specs[i].folder@)]);
    assert(discovered(specs.take(i), found.take(i)) + discovered(one_s, one_f) =~= discovered(specs.take(i), found.take(i)));
}

/// The diagnostic for a missing comic folder.
pub fn missing_folder(folder: &str) -> (r: String)
    ensures
        r@ == missing_folder_message(folder@),
{
    proof {
        reveal_strlit("input/");
        assert("input/"@ =~= input_root());
    }
    let mut r = String::from_str("Comic folder ");
    r.append("input/");
    r.append(folder);
    r.append(" is not a directory");
    assert(r@ =~= missing_folder_message(folder@));
    r
}

/// The URL of the image file `name` in the comic folder `folder`.
pub fn page_url(folder: &str, name: &str) -> (r: String)
    ensures
        r@ == page_url_of(folder@, name@),
{
    proof {
        reveal_strlit("/");
    }
    let mut rel = String::from_str(folder);
    rel.append("/");
    rel.append(name);
    assert(rel@ =~= folder@ + seq!['/'] + name@);
    image_url(rel.as_str())
}

/// Resolves a comic whose folder was listed: the file entries become URLs
/// under `images/`, sorted by text; the unreadable ones are reported.
pub fn resolve_comic(spec: &ComicSpec, entries: &Vec<Result<String, String>>) -> (r: (
    Comic,
    Vec<String>,
))
    ensures
        r.0@ == resolved_comic(*spec, entries@),
        r.1.deep_view() == entry_errors(entries@),
{
    let mut urls: Vec<String> = Vec::new();
    let mut notes: Vec<String> = Vec::new();
    let mut i: usize = 0;
    while i < entries.len()
        invariant
            i <= entries@.len(),
            urls.deep_view() == entry_names(entries@.subrange(0, i as int)).map_values(
                |n: Seq<char>| page_url_of(spec.folder@, n),
            ),
            notes.deep_view() == entry_errors(entries@.subrange(0, i as int)),
        decreases entries@.len() - i,
    {
        let ghost prefix = entries@.subrange(0, i + 1);
        assert(prefix.drop_last() =~= entries@.subrange(0, i as int));
        let ghost before = urls.deep_view();
        match &entries[i] {
            Ok(name) => {
                let u = page_url(spec.folder.as_str(), name.as_str());
                let ghost uv = u@;
                urls.push(u);
                assert(entry_names(prefix) == entry_names(prefix.drop_last()).push(name@));
                assert(urls.deep_view() =~= before.push(uv));
            },
            Err(err) => {
                let mut m = String::from_str("Error reading page ");
                m.append(err.as_str());
                notes.push(m);
            },
        }
        assert(urls.deep_view() =~= entry_names(prefix).map_values(
            |n: Seq<char>| page_url_of(spec.folder@, n),
        ));
        assert(notes.deep_view() =~= entry_errors(prefix));
        i = i + 1;
    }
    assert(entries@.subrange(0, i as int) =~= entries@);
    let pages = sort_texts(&urls);
    let comic = Comic {
        title: spec.title.clone(),
        url: spec.folder.clone(),
        thumbnail: image_url(spec.thumbnail.as_str()),
        description: spec.description.clone(),
        pages,
    };
    (comic, notes)
}

/// Discovers every comic against what was found at its folder, in declared
/// order: a comic whose folder is missing is reported once and left out.
pub fn discover(specs: &Vec<ComicSpec>, found: &Vec<Listing>) -> (r: (Vec<Comic>, Vec<String>))
    requires
        specs@.len() == found@.len(),
    ensures
        comics_view(r.0@) == discovered(specs@, found@),
        r.1.deep_view() == discovery_notes(specs@, found@),
{
    let mut comics: Vec<Comic> = Vec::new();
    let mut notes: Vec<String> = Vec::new();
    let mut i: usize = 0;
    while i < specs.len()
        invariant
            i <= specs@.len() == found@.len(),
            comics_view(comics@) == discovered(specs@.subrange(0, i as int), found@.subrange(0, i as int)),
            notes.deep_view() == discovery_notes(specs@.subrange(0, i as int), found@.subrange(0, i as int)),
        decreases specs@.len() - i,
    {
        let ghost sp = specs@.subrange(0, i + 1);
        let ghost fp = found@.subrange(0, i + 1);
        assert(sp.drop_last() =~= specs@.subrange(0, i as int));
        assert(fp.drop_last() =~= found@.subrange(0, i as int));
        let ghost before_c = comics@;
        let ghost before_n = notes.deep_view();
        match &found[i] {
            Listing::Missing => {
                let m = missing_folder(specs[i].folder.as_str());
                notes.push(m);
                assert(notes.deep_view() =~= before_n.push(m@));
            },
            Listing::Entries(entries) => {
                let (comic, mut more) = resolve_comic(&specs[i], entries);
                let ghost cv = comic@;
                let ghost mv = more.deep_view();
                comics.push(comic);
                assert(comics_view(comics@) =~= comics_view(before_c).push(cv));
                notes.append(&mut more);
                assert(notes.deep_view() =~= before_n + mv);
            },
        }
        assert(comics_view(comics@) =~= discovered(sp, fp));
        assert(notes.deep_view() =~= discovery_notes(sp, fp));
        i = i + 1;
    }
    assert(specs@.subrange(0, i as int) =~= specs@);
    assert(found@.subrange(0, i as int) =~= found@);
    (comics, notes)
}

} // verus!
