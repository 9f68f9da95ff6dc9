use comic_publisher::discovery::{discover, missing_folder, page_url, resolve_comic};
use comic_publisher::log::{ErrorLog, Outcome};
use comic_publisher::model::{AnthologyConfig, ComicSpec, Listing, PageSpec};
use comic_publisher::plan::{plan_build, BuildPlan, Step, Subject};

fn s(x: &str) -> String {
    x.to_string()
}

fn demo_config() -> AnthologyConfig {
    AnthologyConfig {
        title: s("Demo"),
        copyright: None,
        pages: vec![PageSpec { slug: s("about"), title: s("About"), content: s("<p>Hi</p>") }],
        comics: vec![ComicSpec {
            folder: s("strip"),
            thumbnail: s("strip/01.png"),
            title: s("Strip"),
            description: s("d"),
        }],
    }
}

fn strip_listing(names: &[&str]) -> Listing {
    Listing::Entries(names.iter().map(|n| Ok(s(n))).collect())
}

fn render(template: &str, subject: Subject, directory: &str, target: &str, failure: &str) -> Step {
    Step::Render {
        template: s(template),
        subject,
        directory: s(directory),
        target: s(target),
        failure: s(failure),
    }
}

fn image_steps(url: &str) -> Vec<Step> {
    let rest = &url["images/".len()..];
    let from = format!("input/{}", rest);
    let to = format!("output/{}", url);
    let dir = to[..to.rfind('/').unwrap()].to_string();
    vec![
        Step::MakeDir { path: dir.clone(), failure: format!("Couldn't create directory {}: ", dir) },
        Step::Copy { from: from.clone(), to: to.clone(), failure: format!("Failed to copy {} to {}: ", from, to) },
    ]
}

/// Records what every `Note` step says, as a run that meets no failure would.
fn run_without_failures(plan: &BuildPlan) -> ErrorLog {
    let mut log = ErrorLog::new();
    for step in &plan.steps {
        if let Step::Note(m) = step {
            log.record(m);
        }
    }
    log
}

#[test]
fn demo_site_builds_cleanly() {
    let config = demo_config();
    let plan = plan_build(&config, &vec![strip_listing(&["02.png", "01.png"])], &vec![]);
    assert_eq!(plan.pages.len(), 1);
    assert_eq!(plan.pages[0].slug, "about");
    assert_eq!(plan.pages[0].content, "<p>Hi</p>");
    assert_eq!(plan.comics.len(), 1);
    let strip = &plan.comics[0];
    assert_eq!(strip.url, "strip");
    assert_eq!(strip.thumbnail, "images/strip/01.png");
    assert_eq!(strip.pages, vec![s("images/strip/01.png"), s("images/strip/02.png")]);

    let mut expected = vec![
        render("index.html", Subject::Index, "output", "output/index.html", "Couldn't render index: "),
        render("page.html", Subject::Page(0), "output/about", "output/about/index.html", "Couldn't render page About: "),
    ];
    expected.extend(image_steps("images/strip/01.png"));
    expected.extend(image_steps("images/strip/01.png"));
    expected.extend(image_steps("images/strip/02.png"));
    expected.push(render("comic.html", Subject::Comic(0), "output/strip", "output/strip/index.html", "Couldn't render comic Strip: "));
    assert_eq!(plan.steps, expected);

    let log = run_without_failures(&plan);
    assert_eq!(log.finish(), Outcome::Clean);
}

#[test]
fn demo_site_with_missing_folder_fails() {
    let config = demo_config();
    let plan = plan_build(&config, &vec![Listing::Missing], &vec![]);
    assert!(plan.comics.is_empty());
    assert_eq!(
        plan.steps,
        vec![
            Step::Note(s("Comic folder input/strip is not a directory")),
            render("index.html", Subject::Index, "output", "output/index.html", "Couldn't render index: "),
            render("page.html", Subject::Page(0), "output/about", "output/about/index.html", "Couldn't render page About: "),
        ]
    );
    assert!(!plan.steps.iter().any(|st| matches!(st, Step::Render { target, .. } if target == "output/strip/index.html")));
    let log = run_without_failures(&plan);
    assert_eq!(log.finish(), Outcome::Failed(s("Comic folder input/strip is not a directory\n")));
}

#[test]
fn page_order_ignores_listing_order() {
    let spec = demo_config().comics[0].clone();
    let a = vec![Ok(s("c.png")), Ok(s("a.png")), Ok(s("b.png"))];
    let b = vec![Ok(s("b.png")), Ok(s("c.png")), Ok(s("a.png"))];
    let (ca, _) = resolve_comic(&spec, &a);
    let (cb, _) = resolve_comic(&spec, &b);
    assert_eq!(ca.pages, cb.pages);
    assert_eq!(ca.pages, vec![s("images/strip/a.png"), s("images/strip/b.png"), s("images/strip/c.png")]);
}

#[test]
fn pages_sort_by_text_not_by_number() {
    let spec = demo_config().comics[0].clone();
    let e = vec![Ok(s("10.png")), Ok(s("9.png")), Ok(s("1.png")), Ok(s("B.png")), Ok(s("a.png"))];
    let (c, notes) = resolve_comic(&spec, &e);
    assert!(notes.is_empty());
    assert_eq!(
        c.pages,
        vec![
            s("images/strip/1.png"),
            s("images/strip/10.png"),
            s("images/strip/9.png"),
            s("images/strip/B.png"),
            s("images/strip/a.png"),
        ]
    );
}

#[test]
fn unreadable_entry_is_reported_and_left_out() {
    let spec = demo_config().comics[0].clone();
    let e = vec![Ok(s("01.png")), Err(s("permission denied")), Ok(s("02.png"))];
    let (c, notes) = resolve_comic(&spec, &e);
    assert_eq!(c.pages, vec![s("images/strip/01.png"), s("images/strip/02.png")]);
    assert_eq!(notes, vec![s("Error reading page permission denied")]);
}

#[test]
fn empty_folder_gives_comic_without_pages() {
    let spec = demo_config().comics[0].clone();
    let (c, notes) = resolve_comic(&spec, &vec![]);
    assert!(c.pages.is_empty());
    assert!(notes.is_empty());
    assert_eq!(c.title, "Strip");
    assert_eq!(c.description, "d");
}

#[test]
fn missing_folder_is_skipped_others_kept() {
    let mut specs = demo_config().comics;
    specs.push(ComicSpec { folder: s("gone"), thumbnail: s("t.png"), title: s("Gone"), description: s("") });
    specs.push(ComicSpec { folder: s("two"), thumbnail: s("two/a.png"), title: s("Two"), description: s("x") });
    let found = vec![strip_listing(&["01.png"]), Listing::Missing, strip_listing(&["a.png"])];
    let (comics, notes) = discover(&specs, &found);
    assert_eq!(comics.len(), 2);
    assert_eq!(comics[0].url, "strip");
    assert_eq!(comics[1].url, "two");
    assert_eq!(comics[1].pages, vec![s("images/two/a.png")]);
    assert_eq!(notes, vec![s("Comic folder input/gone is not a directory")]);
}

#[test]
fn missing_folder_message_names_folder() {
    assert_eq!(missing_folder("strip"), "Comic folder input/strip is not a directory");
}

#[test]
fn page_url_uses_forward_slashes() {
    assert_eq!(page_url("a\\b", "c.png"), "images/a/b/c.png");
    assert_eq!(page_url("strip", "01.png"), "images/strip/01.png");
}

#[test]
fn static_assets_are_copied_and_failures_noted() {
    let config = AnthologyConfig { title: s("T"), copyright: Some(s("c")), pages: vec![], comics: vec![] };
    let statics = vec![Ok(s("style.css")), Err(s("bad entry"))];
    let plan = plan_build(&config, &vec![], &statics);
    assert_eq!(
        plan.steps,
        vec![
            Step::Copy {
                from: s("static/style.css"),
                to: s("output/style.css"),
                failure: s("Failed to copy static/style.css to output/style.css: "),
            },
            Step::Note(s("Error trying to copy: bad entry")),
            render("index.html", Subject::Index, "output", "output/index.html", "Couldn't render index: "),
        ]
    );
}

#[test]
fn plans_are_reproducible() {
    let config = demo_config();
    let a = plan_build(&config, &vec![strip_listing(&["01.png", "02.png"])], &vec![]);
    let b = plan_build(&config, &vec![strip_listing(&["02.png", "01.png"])], &vec![]);
    assert_eq!(a, b);
}
