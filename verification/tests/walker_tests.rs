use stalagmite::common::RenderRules;
use stalagmite::walker::{collect_site_nodes, DirEntryFile, DirTree};

fn file(name: &str) -> DirEntryFile {
    DirEntryFile {
        name: name.to_string(),
        contents: "x".to_string(),
    }
}

fn override_rules(layout: &str) -> RenderRules {
    RenderRules {
        layouts: vec![layout.to_string()],
        block_rules: None,
        listing: None,
    }
}

fn sample_tree() -> DirTree {
    DirTree {
        name: String::new(),
        rules: None,
        files: vec![file("index.md")],
        subdirs: vec![
            DirTree {
                name: "blog".to_string(),
                rules: Some(override_rules("blog_layout")),
                files: vec![file("a.md"), file("notes.txt")],
                subdirs: vec![DirTree {
                    name: "inner".to_string(),
                    rules: None,
                    files: vec![file("c.md")],
                    subdirs: vec![],
                }],
            },
            DirTree {
                name: "about".to_string(),
                rules: None,
                files: vec![file("b.md")],
                subdirs: vec![],
            },
        ],
    }
}

#[test]
fn test_walk_emits_one_node_per_directory_with_artifacts() {
    let nodes = collect_site_nodes("proj/pages", &sample_tree());
    let dirs: Vec<&str> = nodes.iter().map(|n| n.dir.as_str()).collect();
    assert_eq!(dirs, vec!["", "blog", "blog/inner", "about"]);
    // Unrecognized extensions are skipped.
    assert_eq!(nodes[1].site_entries.len(), 1);
    assert_eq!(nodes[1].site_entries[0].url_path, "blog/a/");
}

#[test]
fn test_override_scopes_to_its_subtree() {
    // The override in `blog` governs `blog` and `blog/inner`, but neither
    // the root nor the sibling `about`.
    let nodes = collect_site_nodes("proj/pages", &sample_tree());
    assert_eq!(nodes[0].render_rules.layouts, vec!["primary".to_string()]);
    assert_eq!(
        nodes[1].render_rules.layouts,
        vec!["blog_layout".to_string()]
    );
    assert_eq!(
        nodes[2].render_rules.layouts,
        vec!["blog_layout".to_string()]
    );
    assert_eq!(nodes[3].render_rules.layouts, vec!["primary".to_string()]);
}

#[test]
fn test_sibling_does_not_observe_override() {
    // Removing blog's override changes nothing about the about node.
    let with = collect_site_nodes("proj/pages", &sample_tree());
    let mut tree = sample_tree();
    tree.subdirs[0].rules = None;
    let without = collect_site_nodes("proj/pages", &tree);
    assert_eq!(
        with[3].render_rules.layouts,
        without[3].render_rules.layouts
    );
    assert_eq!(with[3].site_entries[0].url_path, without[3].site_entries[0].url_path);
    // Blog itself falls back to the inherited default.
    assert_eq!(without[1].render_rules.layouts, vec!["primary".to_string()]);
}

#[test]
fn test_empty_directories_emit_no_node() {
    let tree = DirTree {
        name: String::new(),
        rules: None,
        files: vec![file("readme.txt")],
        subdirs: vec![],
    };
    let nodes = collect_site_nodes("proj/pages", &tree);
    assert!(nodes.is_empty());
}
