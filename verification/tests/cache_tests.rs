use stalagmite::cache::Cache;
use stalagmite::common::{
    Block, CachedPageData, FrontMatter, Markdown, SiteEntry, Token,
};

fn entry(rel: &str, contents: &str) -> SiteEntry {
    let abs = format!("proj/pages/{}", rel);
    SiteEntry::try_new("proj/pages", &abs, contents.to_string()).unwrap()
}

fn markdown(title: &str, timestamp: i64) -> Markdown {
    Markdown {
        frontmatter: FrontMatter {
            title: title.to_string(),
            timestamp,
            slug: title.to_string(),
        },
        blocks: vec![Block {
            kind: "p".to_string(),
            tokens: vec![Token::Literal("body".to_string())],
            meta: None,
        }],
    }
}

#[test]
fn test_page_round_trip() {
    // Committing (route, digest, rendered) and restoring at the same digest
    // returns exactly the committed bytes; any other digest misses.
    let mut cache = Cache::new();
    let e = entry("about.html", "first draft");
    let hash = e.file.hash;
    cache.cache(
        CachedPageData::Html(hash, "<p>rendered</p>".to_string()),
        entry("about.html", "first draft"),
    );

    match cache.restore_cached(&e) {
        Some(CachedPageData::Html(h, rendered)) => {
            assert_eq!(h, hash);
            assert_eq!(rendered, "<p>rendered</p>");
        }
        _ => panic!("expected a cache hit"),
    }

    // The same route with different contents (hence digest) is a miss.
    let changed = entry("about.html", "changed");
    assert!(cache.restore_cached(&changed).is_none());

    // A route never committed is a miss.
    let other = entry("missing.html", "first draft");
    assert!(cache.restore_cached(&other).is_none());
}

#[test]
fn test_markdown_round_trip() {
    let mut cache = Cache::new();
    let e = entry("blog/post.md", "source text");
    let hash = e.file.hash;
    cache.cache(
        CachedPageData::Markdown(hash, markdown("post", 7), "<h1>post</h1>".to_string()),
        entry("blog/post.md", "source text"),
    );

    match cache.restore_cached(&e) {
        Some(CachedPageData::Markdown(h, md, rendered)) => {
            assert_eq!(h, hash);
            assert_eq!(md.frontmatter.title, "post");
            assert_eq!(md.frontmatter.timestamp, 7);
            assert_eq!(md.blocks.len(), 1);
            assert_eq!(rendered, "<h1>post</h1>");
        }
        _ => panic!("expected a markdown cache hit"),
    }
}

#[test]
fn test_commit_replaces_row() {
    let mut cache = Cache::new();
    let first = entry("about.html", "v1");
    cache.cache(
        CachedPageData::Html(first.file.hash, "one".to_string()),
        entry("about.html", "v1"),
    );
    let second = entry("about.html", "v2");
    cache.cache(
        CachedPageData::Html(second.file.hash, "two".to_string()),
        entry("about.html", "v2"),
    );
    // The old digest no longer matches; the new one returns the new output.
    assert!(cache.restore_cached(&first).is_none());
    match cache.restore_cached(&second) {
        Some(CachedPageData::Html(_, rendered)) => assert_eq!(rendered, "two"),
        _ => panic!("expected the replaced row"),
    }
    assert_eq!(cache.pages.len(), 1);
}

#[test]
fn test_asset_change_tracking() {
    // A never-seen asset counts as changed; an unchanged digest does not;
    // a new digest does and is recorded.
    let mut cache = Cache::new();
    assert!(cache.check_asset_changed("main.css", 10));
    assert!(!cache.check_asset_changed("main.css", 10));
    assert!(cache.check_asset_changed("main.css", 11));
    assert!(!cache.check_asset_changed("main.css", 11));
}

#[test]
fn test_template_checkpoint() {
    // No checkpoint yet: report a change and record the time.  A larger
    // modification time afterwards: change again.  The same time: none.
    let mut cache = Cache::new();
    assert_eq!(cache.get_latest_template_modified(), None);
    assert!(cache.check_latest_modified_template(100));
    assert_eq!(cache.get_latest_template_modified(), Some(100));
    assert!(!cache.check_latest_modified_template(100));
    assert!(cache.check_latest_modified_template(101));
    assert_eq!(cache.get_latest_template_modified(), Some(101));
    cache.set_latest_template_modified(50);
    assert_eq!(cache.get_latest_template_modified(), Some(50));
}

#[test]
fn test_group_count_and_fetch_order() {
    let mut cache = Cache::new();
    for (name, ts) in [("c", 30), ("a", 10), ("b", 20)] {
        let rel = format!("blog/{}.md", name);
        let e = entry(&rel, name);
        cache.cache(
            CachedPageData::Markdown(e.file.hash, markdown(name, ts), name.to_string()),
            entry(&rel, name),
        );
    }
    let e = entry("about.md", "elsewhere");
    cache.cache(
        CachedPageData::Markdown(e.file.hash, markdown("about", 5), "about".to_string()),
        entry("about.md", "elsewhere"),
    );

    assert_eq!(cache.get_page_group_count("blog"), 3);

    // Ordered by timestamp, not by insertion.
    let batch = cache.fetch_page("blog", 10, 0);
    let urls: Vec<&str> = batch.iter().map(|p| p.1.as_str()).collect();
    assert_eq!(urls, vec!["blog/a/", "blog/b/", "blog/c/"]);

    // Limit and offset window the ordered rows.
    let batch = cache.fetch_page("blog", 2, 2);
    let urls: Vec<&str> = batch.iter().map(|p| p.1.as_str()).collect();
    assert_eq!(urls, vec!["blog/c/"]);
}
