use stalagmite::cache::Cache;
use stalagmite::common::{CachedPageData, FrontMatter, Markdown, PageData, SiteEntry};
use stalagmite::generator::{
    compute_force_render, generate_listing_pages, get_latest_modified, listing_out_path,
    listing_page_count, page_links, parse_page_data, route_entry, should_regenerate,
    RouteDecision,
};

fn entry(rel: &str, contents: &str) -> SiteEntry {
    let abs = format!("proj/pages/{}", rel);
    SiteEntry::try_new("proj/pages", &abs, contents.to_string()).unwrap()
}

fn markdown(title: &str, timestamp: i64) -> Markdown {
    Markdown {
        frontmatter: FrontMatter {
            title: title.to_string(),
            timestamp,
            slug: title.to_string(),
        },
        blocks: vec![],
    }
}

#[test]
fn test_force_render_flag() {
    assert!(!compute_force_render(false, false, false));
    assert!(compute_force_render(true, false, false));
    assert!(compute_force_render(false, true, false));
    assert!(compute_force_render(false, false, true));
}

#[test]
fn test_route_entry_decisions() {
    let hit = || Some(CachedPageData::Html(1, "cached".to_string()));
    // A hit with a successful copy is restored with the cached bytes.
    match route_entry(false, hit(), true) {
        RouteDecision::Restore(CachedPageData::Html(_, rendered)) => {
            assert_eq!(rendered, "cached")
        }
        _ => panic!("expected a restore"),
    }
    // A miss renders.
    assert!(matches!(route_entry(false, None, true), RouteDecision::Render));
    // A failed copy renders even on a hit.
    assert!(matches!(route_entry(false, hit(), false), RouteDecision::Render));
    // A forced run renders whatever the cache said.
    assert!(matches!(route_entry(true, hit(), true), RouteDecision::Render));
}

#[test]
fn test_second_run_restores_everything() {
    // A committed artifact, unchanged, is restored on the next run.
    let mut cache = Cache::new();
    let e = entry("blog/post.html", "source");
    cache.cache(
        CachedPageData::Html(e.file.hash, "out".to_string()),
        entry("blog/post.html", "source"),
    );
    let force = compute_force_render(false, false, false);
    let restored = cache.restore_cached(&e);
    assert!(restored.is_some());
    match route_entry(force, restored, true) {
        RouteDecision::Restore(c) => assert_eq!(c.get_rendered(), "out"),
        RouteDecision::Render => panic!("a clean second run must not re-render"),
    }
}

#[test]
fn test_template_change_forces_render() {
    // Touching a template bypasses the digest check for every artifact.
    let mut cache = Cache::new();
    let e = entry("blog/post.html", "source");
    cache.cache(
        CachedPageData::Html(e.file.hash, "out".to_string()),
        entry("blog/post.html", "source"),
    );
    cache.check_latest_modified_template(100);
    let templates_changed = cache.check_latest_modified_template(200);
    assert!(templates_changed);
    let force = compute_force_render(false, false, templates_changed);
    let restored = cache.restore_cached(&e);
    assert!(matches!(
        route_entry(force, restored, true),
        RouteDecision::Render
    ));
}

#[test]
fn test_asset_change_forces_render() {
    // A changed asset digest forces a full re-render.
    let mut cache = Cache::new();
    let e = entry("blog/post.html", "source");
    cache.cache(
        CachedPageData::Html(e.file.hash, "out".to_string()),
        entry("blog/post.html", "source"),
    );
    cache.check_asset_changed("logo.png", 1);
    let assets_changed = cache.check_asset_changed("logo.png", 2);
    assert!(assets_changed);
    let force = compute_force_render(false, assets_changed, false);
    let restored = cache.restore_cached(&e);
    assert!(matches!(
        route_entry(force, restored, true),
        RouteDecision::Render
    ));
}

#[test]
fn test_latest_modified() {
    assert_eq!(get_latest_modified(&vec![]), None);
    assert_eq!(get_latest_modified(&vec![5, 9, 3]), Some(9));
}

#[test]
fn test_pagination_math() {
    assert_eq!(listing_page_count(5, 2), 3);
    assert_eq!(listing_page_count(4, 2), 2);
    assert_eq!(listing_page_count(0, 2), 0);
    assert_eq!(listing_page_count(1, 100), 1);
}

#[test]
fn test_page_links() {
    let (prev, next) = page_links("blog", 0, 3);
    assert_eq!(prev, None);
    assert_eq!(next, Some("/blog/1/".to_string()));
    let (prev, next) = page_links("blog", 1, 3);
    assert_eq!(prev, Some("/blog/0/".to_string()));
    assert_eq!(next, Some("/blog/2/".to_string()));
    let (prev, next) = page_links("blog", 2, 3);
    assert_eq!(prev, Some("/blog/1/".to_string()));
    assert_eq!(next, None);
}

#[test]
fn test_listing_out_path() {
    assert_eq!(listing_out_path("blog", 0), "blog/0/index.html");
    assert_eq!(listing_out_path("blog", 12), "blog/12/index.html");
}

#[test]
fn three_pages_from_five_entries() {
    // Five markdown entries with page_size 2 produce ceil(5/2) = 3 pages:
    // two entries, two entries, one entry; no previous link on page 0 and
    // no next link on page 2.
    let mut cache = Cache::new();
    for (name, ts) in [("ant", 1), ("bee", 2), ("cat", 3), ("dog", 4), ("elk", 5)] {
        let rel = format!("blog/{}.md", name);
        let e = entry(&rel, name);
        cache.cache(
            CachedPageData::Markdown(e.file.hash, markdown(name, ts), name.to_string()),
            entry(&rel, name),
        );
    }
    let pages = generate_listing_pages(&cache, "blog", 2);
    assert_eq!(pages.len(), 3);
    let lens: Vec<usize> = pages
        .iter()
        .map(|p| match p {
            PageData::Listing(group, entries, idx) => {
                assert_eq!(group, "blog");
                assert_eq!(idx.1, 3);
                entries.len()
            }
            _ => panic!("expected listing pages"),
        })
        .collect();
    assert_eq!(lens, vec![2, 2, 1]);
    match &pages[0] {
        PageData::Listing(_, entries, idx) => {
            assert_eq!(idx.0, 0);
            let urls: Vec<&str> = entries.iter().map(|p| p.1.as_str()).collect();
            assert_eq!(urls, vec!["blog/ant/", "blog/bee/"]);
            let (prev, next) = page_links("blog", idx.0, idx.1);
            assert_eq!(prev, None);
            assert_eq!(next, Some("/blog/1/".to_string()));
        }
        _ => unreachable!(),
    }
    match &pages[2] {
        PageData::Listing(_, entries, idx) => {
            assert_eq!(idx.0, 2);
            let urls: Vec<&str> = entries.iter().map(|p| p.1.as_str()).collect();
            assert_eq!(urls, vec!["blog/elk/"]);
            let (prev, next) = page_links("blog", idx.0, idx.1);
            assert_eq!(prev, Some("/blog/1/".to_string()));
            assert_eq!(next, None);
        }
        _ => unreachable!(),
    }
}

#[test]
fn test_parse_page_data_dispatch() {
    let md = entry(
        "blog/a.md",
        "---\ntitle: A\ntimestamp: 2023-10-21T10:00:00-05:00\n---\nHello",
    );
    match parse_page_data(&md).unwrap() {
        PageData::Markdown(m) => assert_eq!(m.frontmatter.title, "A"),
        _ => panic!("expected parsed markdown"),
    }
    let liquid = entry("a.liquid", "{{ content }}");
    assert!(matches!(parse_page_data(&liquid).unwrap(), PageData::Liquid));
    let html = entry("a.html", "<p></p>");
    assert!(matches!(parse_page_data(&html).unwrap(), PageData::Html));
    let bad = entry("bad.md", "no frontmatter");
    assert!(parse_page_data(&bad).is_err());
}

#[test]
fn test_should_regenerate() {
    assert!(should_regenerate(&vec!["./pages/a.md".to_string()]));
    assert!(should_regenerate(&vec![
        "./public/x.html".to_string(),
        "./layouts/base.liquid".to_string()
    ]));
    assert!(!should_regenerate(&vec!["./public/x.html".to_string()]));
    assert!(!should_regenerate(&vec![]));
}
