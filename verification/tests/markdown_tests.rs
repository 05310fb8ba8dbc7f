use chrono::TimeZone;
use stalagmite::common::{Block, Token};
use stalagmite::markdown::{parse, parse_blocks, parse_body, parse_frontmatter, parse_inner, MarkdownError};

#[test]
fn parse_markdown_test() {
    let input = r#"
---
title: Excellent Blog Post
timestamp: 2023-10-21T10:00:00-05:00
---
First, I'd like to start with this paragraph.

Then I'd like to add another paragraph.
        "#;
    let markdown = parse(input).unwrap();
    let frontmatter = markdown.frontmatter;
    let mut blocks = markdown.blocks;
    assert_eq!(&frontmatter.title, "Excellent Blog Post",);
    assert_eq!(
        frontmatter.timestamp,
        chrono::Utc
            .with_ymd_and_hms(2023, 10, 21, 15, 0, 0)
            .unwrap()
            .timestamp(),
    );
    assert_eq!(&frontmatter.slug, "excellent-blog-post");

    let second_paragraph = blocks.pop().unwrap();
    let first_paragraph = blocks.pop().unwrap();
    assert!(blocks.is_empty());
    assert_eq!(
        first_paragraph.tokens,
        vec![Token::Literal(
            "First, I'd like to start with this paragraph.".to_string()
        )],
    );
    assert_eq!(
        second_paragraph.tokens,
        vec![Token::Literal(
            "Then I'd like to add another paragraph.".to_string()
        )],
    );
}

#[test]
fn parse_parse_nested_special_token() {
    let input = "`code is here`";
    let tokens = parse_inner(input);
    assert_eq!(
        tokens.first(),
        Some(&Token::Block(Block {
            kind: "code".to_string(),
            tokens: vec![Token::Literal("code is here".to_string())],
            meta: None,
        })),
    );
}

#[test]
fn test_parse_markdown() {
    let input = r#"
---
title: Excellent Blog Post
timestamp: 2023-10-21T10:00:00-05:00
---
First, I'd like to start with this paragraph.

Then I'd like to add another paragraph.
        "#;
    let (frontmatter, offset) = parse_frontmatter(input).unwrap();
    assert_eq!(&frontmatter.title, "Excellent Blog Post",);
    assert_eq!(
        frontmatter.timestamp,
        chrono::Utc
            .with_ymd_and_hms(2023, 10, 21, 15, 0, 0)
            .unwrap()
            .timestamp(),
    );
    assert_eq!(&frontmatter.slug, "excellent-blog-post");

    let mut blocks = parse_blocks(&input[offset..]);

    let second_paragraph = blocks.pop().unwrap();
    let first_paragraph = blocks.pop().unwrap();
    assert!(blocks.is_empty());
    assert_eq!(
        first_paragraph.tokens,
        vec![Token::Literal(
            "First, I'd like to start with this paragraph.".to_string()
        )],
    );
    assert_eq!(
        second_paragraph.tokens,
        vec![Token::Literal(
            "Then I'd like to add another paragraph.".to_string()
        )],
    );
}

#[test]
fn test_parse_nested_special_token() {
    let input = "`code is here`";
    let tokens = parse_inner(input);
    assert_eq!(
        tokens.first(),
        Some(&Token::Block(Block {
            kind: "code".to_string(),
            tokens: vec![Token::Literal("code is here".to_string())],
            meta: None,
        })),
    );
}

#[test]
fn test_parse_link_tag() {
    let input = "This is a [link](https://example.com).";
    let tokens = parse_inner(input);
    assert_eq!(
        tokens,
        vec![
            Token::Literal("This is a ".to_string()),
            Token::Block(Block {
                kind: "a".to_string(),
                tokens: vec![Token::Literal("link".to_string())],
                meta: Some(vec![(
                    "href".to_string(),
                    "https://example.com".to_string()
                )]),
            }),
            Token::Literal(".".to_string())
        ],
    );
}

#[test]
fn test_parse_heading_kinds() {
    let blocks = parse_blocks("# Title\n\n### Sub");
    assert_eq!(blocks.len(), 2);
    assert_eq!(&blocks[0].kind, "h1");
    assert_eq!(blocks[0].tokens, vec![Token::Literal("Title".to_string())]);
    assert_eq!(&blocks[1].kind, "h3");
}

#[test]
fn test_parse_custom_kind() {
    let blocks = parse_body("~:aside\nSome note");
    assert_eq!(blocks.len(), 1);
    assert_eq!(&blocks[0].kind, "aside");
    assert_eq!(
        blocks[0].tokens,
        vec![Token::Literal("Some note".to_string())]
    );
}

#[test]
fn test_parse_bold_and_italic() {
    let tokens = parse_inner("a *b* _c_");
    assert_eq!(
        tokens,
        vec![
            Token::Literal("a ".to_string()),
            Token::Block(Block {
                kind: "b".to_string(),
                tokens: vec![Token::Literal("b".to_string())],
                meta: None,
            }),
            Token::Literal(" ".to_string()),
            Token::Block(Block {
                kind: "i".to_string(),
                tokens: vec![Token::Literal("c".to_string())],
                meta: None,
            }),
        ],
    );
}

#[test]
fn test_unclosed_delimiter_stays_literal() {
    let tokens = parse_inner("`oops");
    assert_eq!(tokens, vec![Token::Literal("`oops".to_string())]);
}

#[test]
fn test_missing_frontmatter_is_parse_error() {
    assert_eq!(
        parse("no fences here").unwrap_err(),
        MarkdownError::ParseError
    );
}

#[test]
fn test_missing_title_is_parse_error() {
    let input = "---\ntimestamp: 2023-10-21T10:00:00-05:00\n---\nbody";
    assert_eq!(parse(input).unwrap_err(), MarkdownError::ParseError);
}

#[test]
fn test_bad_timestamp_is_parse_error() {
    let input = "---\ntitle: x\ntimestamp: not-a-time\n---\nbody";
    assert_eq!(parse(input).unwrap_err(), MarkdownError::ParseError);
}

#[test]
fn test_explicit_slug_wins() {
    let input = "---\ntitle: My Title\ntimestamp: 2023-10-21T10:00:00-05:00\nslug: chosen\n---\nbody";
    let markdown = parse(input).unwrap();
    assert_eq!(&markdown.frontmatter.slug, "chosen");
}
