use stalagmite::common::{PageType, SiteEntry};

fn entry(rel: &str) -> SiteEntry {
    let abs = format!("proj/pages/{}", rel);
    SiteEntry::try_new("proj/pages", &abs, "contents".to_string()).unwrap()
}

#[test]
fn test_route_of_plain_page() {
    let e = entry("blog/hello.md");
    assert_eq!(e.file.rel_path, "blog/hello.md");
    assert_eq!(e.out_path, "blog/hello/index.html");
    assert_eq!(e.url_path, "blog/hello/");
}

#[test]
fn test_route_of_index_page() {
    let e = entry("blog/index.md");
    assert_eq!(e.out_path, "blog/index.html");
    assert_eq!(e.url_path, "blog/");
}

#[test]
fn test_route_of_root_index() {
    let e = entry("index.html");
    assert_eq!(e.out_path, "index.html");
    assert_eq!(e.url_path, "/");
}

#[test]
fn test_route_slugifies_segments() {
    let e = entry("Blog Posts/My First Post.md");
    assert_eq!(e.out_path, "blog-posts/my-first-post/index.html");
    assert_eq!(e.url_path, "blog-posts/my-first-post/");
}

#[test]
fn test_unrecognized_extension_is_rejected() {
    assert_eq!(
        SiteEntry::try_new("proj/pages", "proj/pages/notes.txt", String::new()).unwrap_err(),
        stalagmite::common::EntryError::InvalidFileType
    );
}

#[test]
fn test_page_types() {
    assert_eq!(entry("a.md").get_page_type(), PageType::Markdown);
    assert_eq!(entry("a.liquid").get_page_type(), PageType::Liquid);
    assert_eq!(entry("a.html").get_page_type(), PageType::Html);
}

#[test]
fn test_parent_url() {
    assert_eq!(entry("blog/hello.md").parent_url(), "blog");
    assert_eq!(entry("blog/index.md").parent_url(), "");
    assert_eq!(entry("index.md").parent_url(), "");
    assert_eq!(entry("a/b/c.md").parent_url(), "a/b");
}

#[test]
fn test_dirs_of_content_file() {
    let e = entry("blog/hello.md");
    assert_eq!(e.file.abs_dir(), "proj/pages/blog");
    assert_eq!(e.file.rel_dir(), "blog");
    let root = entry("index.md");
    assert_eq!(root.file.rel_dir(), "");
}

#[test]
fn test_distinct_paths_distinct_routes() {
    // The injectivity the route lemma states, on concrete values.
    let urls = [
        entry("blog/hello.md").url_path,
        entry("blog/hello2.md").url_path,
        entry("about.md").url_path,
        entry("blog/index.md").url_path,
        entry("index.md").url_path,
    ];
    for i in 0..urls.len() {
        for j in 0..urls.len() {
            if i != j {
                assert_ne!(urls[i], urls[j]);
            }
        }
    }
}
