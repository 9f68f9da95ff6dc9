//! The build plan: every copy and render of a run, in the fixed order
//! discovery notes, static assets, index, pages, comics (each comic's images
//! copied right before it is rendered).
use vstd::prelude::*;
use crate::discovery::{discover, discovered, discovery_notes, resolved_comic, entry_names, page_url_of};
use crate::model::{AnthologyConfig, Comic, ComicModel, ComicSpec, Listing, Page, PageModel, PageSpec, comics_view, pages_view, resolve_pages, resolved_page};
use crate::paths::{image_copy, image_root, image_url_of, input_root, output_root, parent_of, slashed};
use crate::text::{is_prefix, text_order};

verus! {

/// What a render step produces.
#[derive(Clone, Copy, PartialEq, Eq, Structural, Debug)]
pub enum Subject {
    Index,
    /// The standalone page at this position.
    Page(usize),
    /// The resolved comic at this position.
    Comic(usize),
}

/// One step of a run. A failing step records its `failure` text followed by
/// the error's text.
#[derive(Clone, Debug, PartialEq, Eq)]
pub enum Step {
    /// Record this diagnostic.
    Note(String),
    /// Create this directory and its missing parents.
    MakeDir { path: String, failure: String },
    /// Copy a file byte for byte.
    Copy { from: String, to: String, failure: String },
    /// Render `template` for `subject` and write the result to `target`,
    /// creating `directory` first.
    Render { template: String, subject: Subject, directory: String, target: String, failure: String },
}

pub enum StepModel {
    Note(Seq<char>),
    MakeDir { path: Seq<char>, failure: Seq<char> },
    Copy { from: Seq<char>, to: Seq<char>, failure: Seq<char> },
    Render {
        template: Seq<char>,
        subject: Subject,
        directory: Seq<char>,
        target: Seq<char>,
        failure: Seq<char>,
    },
}

impl View for Step {
    type V = StepModel;

    open spec fn view(&self) -> StepModel {
        match self {
            Step::Note(m) => StepModel::Note(m@),
            Step::MakeDir { path, failure } => StepModel::MakeDir { path: path@, failure: failure@ },
            Step::Copy { from, to, failure } => StepModel::Copy { from: from@, to: to@, failure: failure@ },
            Step::Render { template, subject, directory, target, failure } => StepModel::Render {
                template: template@,
                subject: *subject,
                directory: directory@,
                target: target@,
                failure: failure@,
            },
        }
    }
}

/// Views of a sequence of steps.
pub open spec fn steps_view(s: Seq<Step>) -> Seq<StepModel> {
    s.map_values(|x: Step| x@)
}

/// The failure text of a directory creation.
pub open spec fn dir_failure(dir: Seq<char>) -> Seq<char> {
    "Couldn't create directory "@ + dir + ": "@
}

/// The failure text of a copy.
pub open spec fn copy_failure(from: Seq<char>, to: Seq<char>) -> Seq<char> {
    "Failed to copy "@ + from + " to "@ + to + ": "@
}

/// The steps that copy the image at an `images/` URL: create the
/// destination's directory, then copy from the input tree.
pub open spec fn image_copy_steps(url: Seq<char>) -> Seq<StepModel> {
    let from = input_root() + url.subrange(image_root().len() as int, url.len() as int);
    let to = output_root() + url;
    seq![
        StepModel::MakeDir { path: parent_of(to), failure: dir_failure(parent_of(to)) },
        StepModel::Copy { from, to, failure: copy_failure(from, to) },
    ]
}

/// The copy steps of several images, in order.
pub open spec fn images_steps(urls: Seq<Seq<char>>) -> Seq<StepModel>
    decreases urls.len(),
{
    if urls.len() == 0 {
        Seq::empty()
    } else {
        images_steps(urls.drop_last()) + image_copy_steps(urls.last())
    }
}

/// The diagnostic for a static asset entry that could not be read.
pub open spec fn unreadable_asset_message(err: Seq<char>) -> Seq<char> {
    "Error trying to copy: "@ + err
}

/// The steps for the static assets' entries: each file is copied from
/// `static/` to the same name under `output/`; each unreadable entry is noted.
pub open spec fn static_steps(e: Seq<Result<String, String>>) -> Seq<StepModel>
    decreases e.len(),
{
    if e.len() == 0 {
        Seq::empty()
    } else {
        let prev = static_steps(e.drop_last());
        match e.last() {
            Ok(name) => {
                let from = "static/"@ + name@;
                let to = output_root() + name@;
                prev.push(StepModel::Copy { from, to, failure: copy_failure(from, to) })
            },
            Err(err) => prev.push(StepModel::Note(unreadable_asset_message(err@))),
        }
    }
}

/// The index render.
pub open spec fn index_step() -> StepModel {
    StepModel::Render {
        template: "index.html"@,
        subject: Subject::Index,
        directory: "output"@,
        target: "output/index.html"@,
        failure: "Couldn't render index: "@,
    }
}

/// The render of the standalone page at position `i`, to `output/<slug>/index.html`.
pub open spec fn page_step(i: int, p: PageModel) -> StepModel {
    StepModel::Render {
        template: "page.html"@,
        subject: Subject::Page(i as usize),
        directory: output_root() + p.slug,
        target: output_root() + p.slug + "/index.html"@,
        failure: "Couldn't render page "@ + p.title + ": "@,
    }
}

/// The renders of the standalone pages, in order.
pub open spec fn page_steps(ps: Seq<PageModel>) -> Seq<StepModel>
    decreases ps.len(),
{
    if ps.len() == 0 {
        Seq::empty()
    } else {
        page_steps(ps.drop_last()).push(page_step(ps.len() - 1, ps.last()))
    }
}

/// The render of the comic at position `i`, to `output/<folder>/index.html`.
pub open spec fn comic_step(i: int, c: ComicModel) -> StepModel {
    StepModel::Render {
        template: "comic.html"@,
        subject: Subject::Comic(i as usize),
        directory: output_root() + c.url,
        target: output_root() + c.url + "/index.html"@,
        failure: "Couldn't render comic "@ + c.title + ": "@,
    }
}

/// Each comic in order: its thumbnail and page images copied, then its render.
pub open spec fn comic_steps(cs: Seq<ComicModel>) -> Seq<StepModel>
    decreases cs.len(),
{
    if cs.len() == 0 {
        Seq::empty()
    } else {
        let c = cs.last();
        comic_steps(cs.drop_last()) + image_copy_steps(c.thumbnail) + images_steps(c.pages).push(
            comic_step(cs.len() - 1, c),
        )
    }
}

/// Diagnostics as steps that record them.
pub open spec fn note_steps(ns: Seq<Seq<char>>) -> Seq<StepModel> {
    ns.map_values(|m: Seq<char>| StepModel::Note(m))
}

/// The pages of a run.
pub open spec fn planned_pages(config: AnthologyConfig) -> Seq<PageModel> {
    config.pages@.map_values(|p: PageSpec| resolved_page(p))
}

/// Every step of a run, in order.
pub open spec fn planned_steps(
    config: AnthologyConfig,
    found: Seq<Listing>,
    statics: Seq<Result<String, String>>,
) -> Seq<StepModel> {
    note_steps(discovery_notes(config.comics@, found)) + static_steps(statics) + seq![index_step()]
        + page_steps(planned_pages(config)) + comic_steps(discovered(config.comics@, found))
}

/// A URL of the output image namespace: under `images/`, forward slashes only.
pub open spec fn is_image_url(u: Seq<char>) -> bool {
    is_prefix(image_root(), u) && forall|i: int| 0 <= i < u.len() ==> u[i] != '\\'
}

/// Every URL of a comic is an image URL.
pub open spec fn comic_urls_ok(c: ComicModel) -> bool {
    is_image_url(c.thumbnail) && forall|i: int| 0 <= i < c.pages.len() ==> is_image_url(#[trigger] c.pages[i])
}

proof fn lemma_image_url_of(rel: Seq<char>)
    ensures
        is_image_url(image_url_of(rel)),
{
    let u = image_url_of(rel);
    assert(u.subrange(0, 7) =~= image_root());
    assert forall|i: int| 0 <= i < u.len() implies u[i] != '\\' by {
        if i >= 7 {
            assert(u[i] == slashed(rel)[i - 7]);
        }
    }
}

/// Every URL in a resolved comic lies under `images/` and uses forward slashes.
pub proof fn lemma_resolved_comic_urls(spec: ComicSpec, e: Seq<Result<String, String>>)
    ensures
        comic_urls_ok(resolved_comic(spec, e)),
{
    let c = resolved_comic(spec, e);
    let raw = entry_names(e).map_values(|n: Seq<char>| page_url_of(spec.folder@, n));
    lemma_image_url_of(spec.thumbnail@);
    crate::text::lemma_text_leq_total();
    raw.lemma_sort_by_ensures(text_order());
    assert forall|i: int| 0 <= i < c.pages.len() implies is_image_url(#[trigger] c.pages[i]) by {
        assert(c.pages.contains(c.pages[i]));
        assert(raw.contains(c.pages[i]));
        let j = choose|j: int| 0 <= j < raw.len() && raw[j] == c.pages[i];
        lemma_image_url_of(spec.folder@ + seq!['/'] + entry_names(e)[j]);
    }
}

/// Every URL in every discovered comic lies under `images/` and uses forward slashes.
pub proof fn lemma_discovered_urls(specs: Seq<ComicSpec>, found: Seq<Listing>)
    ensures
        forall|i: int| 0 <= i < discovered(specs, found).len() ==> comic_urls_ok(#[trigger] discovered(specs, found)[i]),
    decreases specs.len(),
{
    if specs.len() > 0 {
        lemma_discovered_urls(specs.drop_last(), found.drop_last());
        match found.last() {
            Listing::Missing => {
                assert(discovered(specs, found) == discovered(specs.drop_last(), found.drop_last()));
            },
            Listing::Entries(e) => {
                lemma_resolved_comic_urls(specs.last(), e@);
                let prev = discovered(specs.drop_last(), found.drop_last());
                let d = discovered(specs, found);
                assert(d == prev.push(resolved_comic(specs.last(), e@)));
                assert forall|i: int| 0 <= i < d.len() implies comic_urls_ok(#[trigger] d[i]) by {
                    if i < prev.len() {
                        assert(d[i] == prev[i]);
                    }
                }
            },
        }
    }
}

proof fn lemma_map_multiset(a: Seq<Seq<char>>, b: Seq<Seq<char>>, f: spec_fn(Seq<char>) -> Seq<char>)
    requires
        a.to_multiset() == b.to_multiset(),
    ensures
        a.map_values(f).to_multiset() == b.map_values(f).to_multiset(),
    decreases a.len(),
{
    broadcast use vstd::seq_lib::group_to_multiset_ensures;
    broadcast use vstd::multiset::group_multiset_axioms;

    if a.len() == 0 {
        assert(b.to_multiset().len() == 0);
        assert(b.len() == 0);
        assert(a.map_values(f) =~= b.map_values(f));
    } else {
        let x = a[0];
        assert(a.contains(x));
        assert(b.to_multiset().count(x) > 0);
        assert(b.contains(x));
        let j = choose|j: int| 0 <= j < b.len() && b[j] == x;
        let b2 = b.remove(j);
        let a2 = a.drop_first();
        assert(a2 =~= a.remove(0));
        assert(a2.to_multiset() =~= a.to_multiset().remove(x));
        assert(b2.to_multiset() =~= b.to_multiset().remove(x));
        lemma_map_multiset(a2, b2, f);
        let ma = a.map_values(f);
        let mb = b.map_values(f);
        assert(a2.map_values(f) =~= ma.remove(0));
        assert(b2.map_values(f) =~= mb.remove(j));
        assert(ma.remove(0).to_multiset() =~= ma.to_multiset().remove(f(x)));
        assert(mb.remove(j).to_multiset() =~= mb.to_multiset().remove(f(x)));
        assert(ma.contains(f(x)));
        assert(mb[j] == f(x));
        assert(mb.contains(f(x)));
        assert(ma.to_multiset() =~= ma.to_multiset().remove(f(x)).insert(f(x)));
        assert(mb.to_multiset() =~= mb.to_multiset().remove(f(x)).insert(f(x)));
    }
}

/// A comic's page list depends only on which files its folder holds, not on
/// the order in which they were listed.
pub proof fn lemma_pages_independent_of_listing_order(
    spec: ComicSpec,
    e1: Seq<Result<String, String>>,
    e2: Seq<Result<String, String>>,
)
    requires
        entry_names(e1).to_multiset() == entry_names(e2).to_multiset(),
    ensures
        resolved_comic(spec, e1) == resolved_comic(spec, e2),
{
    let f = |n: Seq<char>| page_url_of(spec.folder@, n);
    lemma_map_multiset(entry_names(e1), entry_names(e2), f);
    crate::text::lemma_sorted_texts_order_independent(
        entry_names(e1).map_values(f),
        entry_names(e2).map_values(f),
    );
}

/// Two listings of the same folder contents: the same kind, the same files
/// in any order, and the same read failures.
pub open spec fn same_contents(a: Listing, b: Listing) -> bool {
    match (a, b) {
        (Listing::Missing, Listing::Missing) => true,
        (Listing::Entries(x), Listing::Entries(y)) => {
            &&& entry_names(x@).to_multiset() == entry_names(y@).to_multiset()
            &&& crate::discovery::entry_errors(x@) == crate::discovery::entry_errors(y@)
        },
        _ => false,
    }
}

proof fn lemma_discovery_same(specs: Seq<ComicSpec>, f1: Seq<Listing>, f2: Seq<Listing>)
    requires
        specs.len() == f1.len() == f2.len(),
        forall|i: int| 0 <= i < f1.len() ==> same_contents(#[trigger] f1[i], f2[i]),
    ensures
        discovered(specs, f1) == discovered(specs, f2),
        discovery_notes(specs, f1) == discovery_notes(specs, f2),
    decreases specs.len(),
{
    if specs.len() > 0 {
        let n = f1.len() - 1;
        assert(same_contents(f1[n], f2[n]));
        assert forall|i: int| 0 <= i < f1.drop_last().len() implies same_contents(
            #[trigger] f1.drop_last()[i],
            f2.drop_last()[i],
        ) by {
            assert(same_contents(f1[i], f2[i]));
        }
        lemma_discovery_same(specs.drop_last(), f1.drop_last(), f2.drop_last());
        match (f1.last(), f2.last()) {
            (Listing::Entries(x), Listing::Entries(y)) => {
                lemma_pages_independent_of_listing_order(specs.last(), x@, y@);
            },
            _ => {},
        }
    }
}

/// Planning a run twice over the same configuration and the same input tree
/// gives the same comics, pages and steps, whatever order each folder's
/// files were listed in.
pub proof fn lemma_plan_reproducible(
    config: AnthologyConfig,
    f1: Seq<Listing>,
    f2: Seq<Listing>,
    statics: Seq<Result<String, String>>,
)
    requires
        f1.len() == f2.len() == config.comics@.len(),
        forall|i: int| 0 <= i < f1.len() ==> same_contents(#[trigger] f1[i], f2[i]),
    ensures
        discovered(config.comics@, f1) == discovered(config.comics@, f2),
        planned_steps(config, f1, statics) == planned_steps(config, f2, statics),
{
    lemma_discovery_same(config.comics@, f1, f2);
}

/// The steps of a run.
#[derive(Clone, Debug, PartialEq, Eq)]
pub struct BuildPlan {
    /// The resolved comics; `Subject::Comic(i)` renders `comics[i]`.
    pub comics: Vec<Comic>,
    /// The resolved pages; `Subject::Page(i)` renders `pages[i]`.
    pub pages: Vec<Page>,
    pub steps: Vec<Step>,
}

fn push_step(steps: &mut Vec<Step>, step: Step)
    ensures
        steps_view(final(steps)@) == steps_view(old(steps)@).push(step@),
{
    let ghost sv = step@;
    steps.push(step);
    assert(steps_view(steps@) =~= steps_view(old(steps)@).push(sv));
}

/// The failure text of a directory creation.
pub fn dir_failure_text(dir: &str) -> (r: String)
    ensures
        r@ == dir_failure(dir@),
{
    let mut r = String::from_str("Couldn't create directory ");
    r.append(dir);
    r.append(": ");
    r
}

/// The failure text of a copy.
pub fn copy_failure_text(from: &str, to: &str) -> (r: String)
    ensures
        r@ == copy_failure(from@, to@),
{
    let mut r = String::from_str("Failed to copy ");
    r.append(from);
    r.append(" to ");
    r.append(to);
    r.append(": ");
    r
}

fn push_image_copy(steps: &mut Vec<Step>, url: &str)
    requires
        is_prefix(image_root(), url@),
    ensures
        steps_view(final(steps)@) == steps_view(old(steps)@) + image_copy_steps(url@),
{
    match image_copy(url) {
        Some(c) => {
            let ghost before = steps_view(steps@);
            let df = dir_failure_text(c.directory.as_str());
            let cf = copy_failure_text(c.source.as_str(), c.destination.as_str());
            push_step(steps, Step::MakeDir { path: c.directory, failure: df });
            push_step(steps, Step::Copy { from: c.source, to: c.destination, failure: cf });
            assert(steps_view(steps@) =~= before + image_copy_steps(url@));
        },
        None => {},
    }
}

fn push_images(steps: &mut Vec<Step>, urls: &Vec<String>)
    requires
        forall|i: int| 0 <= i < urls@.len() ==> is_image_url(#[trigger] urls.deep_view()[i]),
    ensures
        steps_view(final(steps)@) == steps_view(old(steps)@) + images_steps(urls.deep_view()),
{
    let ghost start = steps_view(steps@);
    let mut i: usize = 0;
    while i < urls.len()
        invariant
            i <= urls@.len(),
            forall|k: int| 0 <= k < urls@.len() ==> is_image_url(#[trigger] urls.deep_view()[k]),
            steps_view(steps@) == start + images_steps(urls.deep_view().subrange(0, i as int)),
        decreases urls@.len() - i,
    {
        let ghost before = steps_view(steps@);
        let ghost pre = urls.deep_view().subrange(0, i + 1);
        assert(urls.deep_view()[i as int] == urls@[i as int]@);
        assert(is_image_url(urls.deep_view()[i as int]));
        push_image_copy(steps, urls[i].as_str());
        assert(pre.drop_last() =~= urls.deep_view().subrange(0, i as int));
        assert(steps_view(steps@) =~= start + images_steps(pre));
        i = i + 1;
    }
    assert(urls.deep_view().subrange(0, i as int) =~= urls.deep_view());
}

fn push_statics(steps: &mut Vec<Step>, statics: &Vec<Result<String, String>>)
    ensures
        steps_view(final(steps)@) == steps_view(old(steps)@) + static_steps(statics@),
{
    proof {
        reveal_strlit("output/");
        assert("output/"@ =~= output_root());
    }
    let ghost start = steps_view(steps@);
    let mut i: usize = 0;
    assert(start + static_steps(statics@.subrange(0, 0)) =~= start);
    while i < statics.len()
        invariant
            i <= statics@.len(),
            "output/"@ == output_root(),
            steps_view(steps@) == start + static_steps(statics@.subrange(0, i as int)),
        decreases statics@.len() - i,
    {
        let ghost pre = statics@.subrange(0, i + 1);
        assert(pre.drop_last() =~= statics@.subrange(0, i as int));
        let ghost before = steps_view(steps@);
        match &statics[i] {
            Ok(name) => {
                let mut from = String::from_str("static/");
                from.append(name.as_str());
                let mut to = String::from_str("output/");
                to.append(name.as_str());
                let failure = copy_failure_text(from.as_str(), to.as_str());
                push_step(steps, Step::Copy { from, to, failure });
            },
            Err(err) => {
                let mut m = String::from_str("Error trying to copy: ");
                m.append(err.as_str());
                push_step(steps, Step::Note(m));
            },
        }
        assert(steps_view(steps@) =~= start + static_steps(pre));
        i = i + 1;
    }
    assert(statics@.subrange(0, i as int) =~= statics@);
}

/// The target directory and file of a render under `output/`.
fn output_target(segment: &str) -> (r: (String, String))
    ensures
        r.0@ == output_root() + segment@,
        r.1@ == output_root() + segment@ + "/index.html"@,
{
    proof {
        reveal_strlit("output/");
        assert("output/"@ =~= output_root());
    }
    let mut dir = String::from_str("output/");
    dir.append(segment);
    let mut target = dir.clone();
    target.append("/index.html");
    (dir, target)
}

fn push_pages(steps: &mut Vec<Step>, pages: &Vec<Page>)
    ensures
        steps_view(final(steps)@) == steps_view(old(steps)@) + page_steps(pages_view(pages@)),
{
    let ghost start = steps_view(steps@);
    let mut i: usize = 0;
    assert(start + page_steps(pages_view(pages@).subrange(0, 0)) =~= start);
    while i < pages.len()
        invariant
            i <= pages@.len(),
            steps_view(steps@) == start + page_steps(pages_view(pages@).subrange(0, i as int)),
        decreases pages@.len() - i,
    {
        let ghost pre = pages_view(pages@).subrange(0, i + 1);
        assert(pre.drop_last() =~= pages_view(pages@).subrange(0, i as int));
        let p = &pages[i];
        let (directory, target) = output_target(p.slug.as_str());
        let mut failure = String::from_str("Couldn't render page ");
        failure.append(p.title.as_str());
        failure.append(": ");
        let template = String::from_str("page.html");
        push_step(steps, Step::Render { template, subject: Subject::Page(i), directory, target, failure });
        assert(pre.last() == p@);
        assert(steps_view(steps@) =~= start + page_steps(pre));
        i = i + 1;
    }
    assert(pages_view(pages@).subrange(0, i as int) =~= pages_view(pages@));
}

fn push_comics(steps: &mut Vec<Step>, comics: &Vec<Comic>)
    requires
        forall|i: int| 0 <= i < comics@.len() ==> comic_urls_ok(#[trigger] comics_view(comics@)[i]),
    ensures
        steps_view(final(steps)@) == steps_view(old(steps)@) + comic_steps(comics_view(comics@)),
{
    let ghost start = steps_view(steps@);
    let mut i: usize = 0;
    assert(start + comic_steps(comics_view(comics@).subrange(0, 0)) =~= start);
    while i < comics.len()
        invariant
            i <= comics@.len(),
            forall|k: int| 0 <= k < comics@.len() ==> comic_urls_ok(#[trigger] comics_view(comics@)[k]),
            steps_view(steps@) == start + comic_steps(comics_view(comics@).subrange(0, i as int)),
        decreases comics@.len() - i,
    {
        let ghost pre = comics_view(comics@).subrange(0, i + 1);
        assert(pre.drop_last() =~= comics_view(comics@).subrange(0, i as int));
        let ghost before = steps_view(steps@);
        let c = &comics[i];
        assert(comic_urls_ok(comics_view(comics@)[i as int]));
        assert(comics_view(comics@)[i as int] == c@);
        push_image_copy(steps, c.thumbnail.as_str());
        proof {
            assert forall|k: int| 0 <= k < c.pages@.len() implies is_image_url(#[trigger] c.pages.deep_view()[k]) by {
                assert(c@.pages[k] == c.pages.deep_view()[k]);
            }
        }
        push_images(steps, &c.pages);
        let (directory, target) = output_target(c.url.as_str());
        let mut failure = String::from_str("Couldn't render comic ");
        failure.append(c.title.as_str());
        failure.append(": ");
        let template = String::from_str("comic.html");
        push_step(steps, Step::Render { template, subject: Subject::Comic(i), directory, target, failure });
        assert(pre.last() == c@);
        assert(steps_view(steps@) =~= start + comic_steps(pre));
        i = i + 1;
    }
    assert(comics_view(comics@).subrange(0, i as int) =~= comics_view(comics@));
}

/// Plans a run: discovers the comics against what was found at their
/// folders, resolves the pages, and lays out every step in the fixed order.
/// `found[i]` is what was found at the folder of `config.comics[i]`;
/// `statics` are the entries of the static assets folder.
pub fn plan_build(
    config: &AnthologyConfig,
    found: &Vec<Listing>,
    statics: &Vec<Result<String, String>>,
) -> (r: BuildPlan)
    requires
        found@.len() == config.comics@.len(),
    ensures
        comics_view(r.comics@) == discovered(config.comics@, found@),
        pages_view(r.pages@) == planned_pages(*config),
        steps_view(r.steps@) == planned_steps(*config, found@, statics@),
{
    let (comics, notes) = discover(&config.comics, found);
    let pages = resolve_pages(&config.pages);
    let mut steps: Vec<Step> = Vec::new();
    let mut i: usize = 0;
    assert(steps_view(steps@) =~= note_steps(notes.deep_view().subrange(0, 0)));
    while i < notes.len()
        invariant
            i <= notes@.len(),
            steps_view(steps@) == note_steps(notes.deep_view().subrange(0, i as int)),
        decreases notes@.len() - i,
    {
        let m = notes[i].clone();
        push_step(&mut steps, Step::Note(m));
        assert(note_steps(notes.deep_view().subrange(0, i + 1)) =~= note_steps(
            notes.deep_view().subrange(0, i as int),
        ).push(StepModel::Note(notes.deep_view()[i as int])));
        i = i + 1;
    }
    assert(notes.deep_view().subrange(0, i as int) =~= notes.deep_view());
    push_statics(&mut steps, statics);
    let template = String::from_str("index.html");
    let directory = String::from_str("output");
    let target = String::from_str("output/index.html");
    let failure = String::from_str("Couldn't render index: ");
    push_step(&mut steps, Step::Render { template, subject: Subject::Index, directory, target, failure });
    push_pages(&mut steps, &pages);
    proof {
        lemma_discovered_urls(config.comics@, found@);
    }
    push_comics(&mut steps, &comics);
    BuildPlan { comics, pages, steps }
}

} // verus!
