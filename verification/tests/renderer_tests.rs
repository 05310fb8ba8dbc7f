use chrono::TimeZone;
use stalagmite::assets::{collect_classes, make_cache_busted_name, ClassCollector};
use stalagmite::common::{Block, FrontMatter, Markdown, PageData, Token};
use stalagmite::config::Config;
use stalagmite::project::{new_page_filename, new_page_frontmatter};
use stalagmite::renderer::{
    block_partial_path, first_block_of_kind, get_actual_filename, get_meta_context,
    layout_wrap_order, listing_entry_from, make_partial_key, make_template_key,
    resolve_block_template, tailwind_include_tag, MetaContext,
};

fn markdown(title: &str, timestamp: i64) -> Markdown {
    Markdown {
        frontmatter: FrontMatter {
            title: title.to_string(),
            timestamp,
            slug: title.to_string(),
        },
        blocks: vec![Block {
            kind: "p".to_string(),
            tokens: vec![Token::Literal("hi".to_string())],
            meta: None,
        }],
    }
}

#[test]
fn test_meta_context_of_markdown() {
    let when = chrono::Utc.with_ymd_and_hms(2023, 10, 21, 15, 0, 0).unwrap();
    let page = PageData::Markdown(markdown("Post", when.timestamp()));
    match get_meta_context(&page) {
        MetaContext::Page { title, timestamp } => {
            assert_eq!(title, "Post");
            assert_eq!(timestamp, when.to_rfc3339());
        }
        _ => panic!("expected page metadata"),
    }
}

#[test]
fn test_meta_context_of_listing() {
    let entries = vec![
        (markdown("one", 1), "blog/one/".to_string()),
        (markdown("two", 2), "blog/two/".to_string()),
    ];
    let page = PageData::Listing("blog".to_string(), entries, (1, 3));
    match get_meta_context(&page) {
        MetaContext::Listing {
            entries,
            prev_page_link,
            next_page_link,
        } => {
            assert_eq!(entries.len(), 2);
            assert_eq!(entries[0].title, "one");
            assert_eq!(entries[0].link, "/blog/one/");
            assert_eq!(prev_page_link, Some("/blog/0/".to_string()));
            assert_eq!(next_page_link, Some("/blog/2/".to_string()));
        }
        _ => panic!("expected listing metadata"),
    }
}

#[test]
fn test_meta_context_of_passthrough() {
    match get_meta_context(&PageData::Html) {
        MetaContext::Page { title, timestamp } => {
            assert_eq!(title, "");
            assert_eq!(timestamp, "");
        }
        _ => panic!("expected empty page metadata"),
    }
}

#[test]
fn test_listing_entry_fields() {
    let e = listing_entry_from(&markdown("one", 9), "blog/one/");
    assert_eq!(e.title, "one");
    assert_eq!(e.timestamp, 9);
    assert_eq!(e.slug, "one");
    assert_eq!(e.link, "/blog/one/");
    assert_eq!(e.blocks.len(), 1);
}

#[test]
fn test_layout_wrap_order() {
    let layouts = vec!["outer".to_string(), "middle".to_string(), "inner".to_string()];
    let order = layout_wrap_order(&layouts);
    assert_eq!(order, vec!["inner", "middle", "outer"]);
}

#[test]
fn test_resolve_block_template() {
    let rules = Some(vec![("code".to_string(), "fancy_code".to_string())]);
    assert_eq!(resolve_block_template(&rules, "code"), "fancy_code");
    assert_eq!(resolve_block_template(&rules, "p"), "p");
    assert_eq!(resolve_block_template(&None, "code"), "code");
}

#[test]
fn test_block_partial_path() {
    assert_eq!(block_partial_path("quote"), "blocks/quote.liquid");
}

#[test]
fn test_first_block_of_kind() {
    let blocks = vec![
        Block {
            kind: "p".to_string(),
            tokens: vec![],
            meta: None,
        },
        Block {
            kind: "h1".to_string(),
            tokens: vec![Token::Literal("T".to_string())],
            meta: None,
        },
    ];
    let found = first_block_of_kind(&blocks, "h1").unwrap();
    assert_eq!(found.tokens, vec![Token::Literal("T".to_string())]);
    assert!(first_block_of_kind(&blocks, "h2").is_none());
}

#[test]
fn test_template_keys() {
    assert_eq!(make_template_key("primary.liquid"), "primary");
    assert_eq!(make_template_key("blog/layout.liquid"), "blog/layout.liquid");
    assert_eq!(make_partial_key("proj/layouts/base.liquid", "proj"), "layouts/base.liquid");
}

#[test]
fn test_asset_lookup() {
    let map = vec![("tw.css".to_string(), "tw.abc123.css".to_string())];
    assert_eq!(get_actual_filename("tw.css", &map), "static/tw.abc123.css");
    assert_eq!(get_actual_filename("logo.png", &map), "static/logo.png");
    assert_eq!(
        tailwind_include_tag(&map),
        "<link rel=\"stylesheet\" href=\"static/tw.abc123.css\">"
    );
}

#[test]
fn test_collect_classes() {
    // Classes come out of class attributes; the group and peer markers and
    // duplicates are dropped.
    let mut collector = ClassCollector::new();
    collect_classes(
        "<div class=\"mt-2 flex group\"><span class=\"mt-2\"></span></div>",
        &mut collector,
    );
    assert_eq!(collector.0, vec!["mt-2".to_string(), "flex".to_string()]);
    // Text without class attributes adds nothing.
    collect_classes("<div id=\"x\"></div>", &mut collector);
    assert_eq!(collector.0.len(), 2);
}

#[test]
fn test_make_cache_busted_name() {
    assert_eq!(make_cache_busted_name("tw.css", "abc123"), "tw.abc123.css");
    assert_eq!(
        make_cache_busted_name("assets/img/logo.png", "ff00"),
        "logo.ff00.png"
    );
}

#[test]
fn test_config_dirs() {
    let config = Config::new("proj".to_string());
    assert_eq!(config.layouts_dir(), "proj/layouts");
    assert_eq!(config.blocks_dir(), "proj/blocks");
    assert_eq!(config.pages_dir(), "proj/pages");
    assert_eq!(config.out_dir(), "proj/public");
    assert_eq!(config.assets_dir(), "proj/assets");
    assert!(!config.no_cache);
    assert!(config.with_no_cache(true).no_cache);
}

#[test]
fn test_new_page_helpers() {
    assert_eq!(new_page_filename("My First Post"), "my-first-post.md");
    assert_eq!(
        new_page_frontmatter("T", "2023-10-21T15:00:00+00:00"),
        "---\ntitle: T\ntimestamp: 2023-10-21T15:00:00+00:00\n---"
    );
}
