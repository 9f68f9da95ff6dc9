//! The content model: the declared anthology and what is resolved from it.
use vstd::prelude::*;

verus! {

/// A standalone page as declared.
#[derive(Clone, Debug, PartialEq, Eq)]
pub struct PageSpec {
    /// The output URL segment.
    pub slug: String,
    pub title: String,
    /// Raw markup, passed through to rendering verbatim.
    pub content: String,
}

/// A comic as declared.
#[derive(Clone, Debug, PartialEq, Eq)]
pub struct ComicSpec {
    /// The URL segment and the input subdirectory that holds the pages.
    pub folder: String,
    /// Path of the thumbnail image, relative to the input root.
    pub thumbnail: String,
    pub title: String,
    pub description: String,
}

/// The declared anthology. Order of pages and comics is display order.
#[derive(Clone, Debug, PartialEq, Eq)]
pub struct AnthologyConfig {
    pub title: String,
    pub copyright: Option<String>,
    pub pages: Vec<PageSpec>,
    pub comics: Vec<ComicSpec>,
}

/// A standalone page ready for rendering.
#[derive(Clone, Debug, PartialEq, Eq)]
pub struct Page {
    pub slug: String,
    pub title: String,
    pub content: String,
}

/// A comic ready for rendering: every URL in it lies under `images/`.
#[derive(Clone, Debug, PartialEq, Eq)]
pub struct Comic {
    pub title: String,
    /// The comic's folder, used as its URL segment.
    pub url: String,
    pub thumbnail: String,
    pub description: String,
    /// Image URLs in reading order.
    pub pages: Vec<String>,
}

/// What was found at a comic's folder: no directory, or the entries read
/// from it, each a file name or the text of the failure to read it.
#[derive(Clone, Debug, PartialEq, Eq)]
pub enum Listing {
    Missing,
    Entries(Vec<Result<String, String>>),
}

pub struct PageModel {
    pub slug: Seq<char>,
    pub title: Seq<char>,
    pub content: Seq<char>,
}

pub struct ComicModel {
    pub title: Seq<char>,
    pub url: Seq<char>,
    pub thumbnail: Seq<char>,
    pub description: Seq<char>,
    pub pages: Seq<Seq<char>>,
}

impl View for Page {
    type V = PageModel;

    open spec fn view(&self) -> PageModel {
        PageModel { slug: self.slug@, title: self.title@, content: self.content@ }
    }
}

impl View for Comic {
    type V = ComicModel;

    open spec fn view(&self) -> ComicModel {
        ComicModel {
            title: self.title@,
            url: self.url@,
            thumbnail: self.thumbnail@,
            description: self.description@,
            pages: self.pages.deep_view(),
        }
    }
}

/// Views of a sequence of pages.
pub open spec fn pages_view(s: Seq<Page>) -> Seq<PageModel> {
    s.map_values(|p: Page| p@)
}

/// Views of a sequence of comics.
pub open spec fn comics_view(s: Seq<Comic>) -> Seq<ComicModel> {
    s.map_values(|c: Comic| c@)
}

/// The page that a declared page resolves to.
pub open spec fn resolved_page(p: PageSpec) -> PageModel {
    PageModel { slug: p.slug@, title: p.title@, content: p.content@ }
}

impl Page {
    /// Resolves a declared page: the fields carry over unchanged.
    pub fn resolve(spec: &PageSpec) -> (r: Page)
        ensures
            r@ == resolved_page(*spec),
    {
        Page { slug: spec.slug.clone(), title: spec.title.clone(), content: spec.content.clone() }
    }
}

/// Resolves every declared page, in order.
pub fn resolve_pages(specs: &Vec<PageSpec>) -> (r: Vec<Page>)
    ensures
        pages_view(r@) == specs@.map_values(|p: PageSpec| resolved_page(p)),
{
    let mut out: Vec<Page> = Vec::new();
    let mut i: usize = 0;
    while i < specs.len()
        invariant
            i <= specs@.len(),
            pages_view(out@) == specs@.subrange(0, i as int).map_values(|p: PageSpec| resolved_page(p)),
        decreases specs@.len() - i,
    {
        let p = Page::resolve(&specs[i]);
        let ghost before = out@;
        let ghost pv = p@;
        out.push(p);
        assert(pages_view(out@) =~= pages_view(before).push(pv));
        assert(pages_view(out@) =~= specs@.subrange(0, i + 1).map_values(|p: PageSpec| resolved_page(p)));
        i = i + 1;
    }
    assert(specs@.subrange(0, i as int) =~= specs@);
    out
}

} // verus!
