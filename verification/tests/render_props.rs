use noogle_search::data::{Content, Doc, DocMeta, Position};
use noogle_search::links::{noogle_url, source_position, source_url};
use noogle_search::preview::preview_items;
use noogle_search::render::{render_content, strip_inline_code, unescape_markdown, RenderItem};
use noogle_search::CoreError;

fn b(s: &str) -> Vec<u8> {
    s.as_bytes().to_vec()
}

fn meta(title: &str) -> DocMeta {
    DocMeta {
        title: b(title),
        path: Vec::new(),
        aliases: None,
        signature: None,
        is_primop: false,
        primop_meta: None,
        is_functor: None,
        attr_position: None,
        attr_expr: None,
        lambda_position: None,
        lambda_expr: None,
        count_applied: None,
        content_meta: None,
    }
}

#[test]
fn unescape_markdown_undoes_the_fixed_set() {
    assert_eq!(unescape_markdown(&b("\\* note \\_ here")), b("* note _ here"));
    assert_eq!(unescape_markdown(&b("\\[x\\](y)")), b("[x](y)"));
    assert_eq!(unescape_markdown(&b("\\\\")), b("\\"));
    assert_eq!(unescape_markdown(&b("\\q")), b("\\q"));
    assert_eq!(unescape_markdown(&b("plain")), b("plain"));
}

#[test]
fn strip_inline_code_drops_backticks_then_unescapes() {
    assert_eq!(strip_inline_code(&b("`code` text")), b("code text"));
    assert_eq!(strip_inline_code(&b("`a\\.b`")), b("a.b"));
}

#[test]
fn usage_example_caption_is_dropped_after_examples_heading() {
    let items = render_content(&b("# Examples\nSome usage example text\nmore text"));
    assert_eq!(
        items,
        vec![RenderItem::Heading1(b("Examples")), RenderItem::Plain(b("more text"))]
    );
}

#[test]
fn usage_example_caption_is_kept_under_other_headings() {
    let items = render_content(&b("# Notes\nSome usage example text"));
    assert_eq!(
        items,
        vec![
            RenderItem::Heading1(b("Notes")),
            RenderItem::Plain(b("Some usage example text")),
        ]
    );
}

#[test]
fn consecutive_blank_lines_collapse_to_one() {
    let items = render_content(&b("a\n\n\n\nb"));
    assert_eq!(
        items,
        vec![RenderItem::Plain(b("a")), RenderItem::Blank, RenderItem::Plain(b("b"))]
    );
}

#[test]
fn blank_line_directly_after_heading_is_suppressed() {
    let items = render_content(&b("# Head\n\nx"));
    assert_eq!(items, vec![RenderItem::Heading1(b("Head")), RenderItem::Plain(b("x"))]);
}

#[test]
fn escaped_line_renders_unescaped() {
    let items = render_content(&b("\\* note \\_ here"));
    assert_eq!(items, vec![RenderItem::Plain(b("* note _ here"))]);
}

#[test]
fn fenced_code_is_buffered_and_flushed_trimmed() {
    let items = render_content(&b("```nix\nfoo\nbar\n```\nafter"));
    assert_eq!(
        items,
        vec![RenderItem::Code(b("foo\nbar")), RenderItem::Plain(b("after"))]
    );
}

#[test]
fn empty_code_block_emits_nothing() {
    let items = render_content(&b("```\n```"));
    assert_eq!(items, Vec::<RenderItem>::new());
}

#[test]
fn unclosed_code_block_is_dropped() {
    let items = render_content(&b("```nix\nnever closed"));
    assert_eq!(items, Vec::<RenderItem>::new());
}

#[test]
fn structural_markers_are_dropped_silently() {
    let items = render_content(&b("::: warning\nkept"));
    assert_eq!(items, vec![RenderItem::Plain(b("kept"))]);
}

#[test]
fn definition_items_and_second_level_headings_render() {
    let items = render_content(&b("## Sub `h`\n: first `x`"));
    assert_eq!(
        items,
        vec![RenderItem::Heading2(b("Sub h")), RenderItem::Bullet(b("first x"))]
    );
}

#[test]
fn noogle_url_joins_path_segments() {
    let path = vec![b("lib"), b("strings"), b("concat")];
    assert_eq!(noogle_url(&path), b("https://noogle.dev/f/lib/strings/concat"));
}

#[test]
fn source_url_strips_store_prefix_and_pins_revision() {
    let pos = Position { file: b("/nix/store/abc-source/lib/strings.nix"), line: 42, column: 1 };
    assert_eq!(
        source_url(&b("rev123"), &pos),
        b("https://github.com/NixOS/nixpkgs/blob/rev123/lib/strings.nix#L42")
    );
}

#[test]
fn source_url_keeps_paths_without_the_marker() {
    let pos = Position { file: b("lib/a.nix"), line: 7, column: 2 };
    assert_eq!(
        source_url(&b("r"), &pos),
        b("https://github.com/NixOS/nixpkgs/blob/r/lib/a.nix#L7")
    );
}

#[test]
fn source_position_prefers_lambda_over_attribute() {
    let mut m = meta("t");
    m.attr_position = Some(Position { file: b("attr.nix"), line: 1, column: 1 });
    m.lambda_position = Some(Position { file: b("lambda.nix"), line: 2, column: 2 });
    let doc = Doc { meta: m, content: None };
    assert_eq!(source_position(&doc).unwrap().file, b("lambda.nix"));
}

#[test]
fn source_position_falls_back_to_attribute_then_fails() {
    let mut m = meta("t");
    m.attr_position = Some(Position { file: b("attr.nix"), line: 1, column: 1 });
    let doc = Doc { meta: m, content: None };
    assert_eq!(source_position(&doc).unwrap().file, b("attr.nix"));
    let bare = Doc { meta: meta("t"), content: None };
    assert_eq!(source_position(&bare).unwrap_err(), CoreError::SourceUnavailable);
}

#[test]
fn preview_emits_the_sections_in_fixed_order() {
    let mut m = meta("lib.foo");
    m.signature = Some(b(" a -> b "));
    m.lambda_expr = Some(b("x: x"));
    m.lambda_position = Some(Position { file: b("/store/xyz-source/lib/f.nix"), line: 5, column: 3 });
    m.aliases = Some(vec![vec![b("l"), b("a")]]);
    let doc = Doc {
        meta: m,
        content: Some(Content { content: Some(b("hello")), source: None }),
    };
    let items = preview_items(&doc);
    assert_eq!(
        items,
        vec![
            RenderItem::Title(b("lib.foo")),
            RenderItem::SignatureLabel,
            RenderItem::Code(b("a -> b")),
            RenderItem::Blank,
            RenderItem::DefinitionLabel,
            RenderItem::Code(b("x: x")),
            RenderItem::Plain(b("hello")),
            RenderItem::Blank,
            RenderItem::SourceLine { file: b("f.nix"), line: 5, column: 3 },
            RenderItem::Blank,
            RenderItem::AliasesLabel,
            RenderItem::AliasLine(b("l.a")),
        ]
    );
}

#[test]
fn preview_of_a_bare_document_is_title_alone() {
    let doc = Doc { meta: meta("bare"), content: None };
    assert_eq!(preview_items(&doc), vec![RenderItem::Title(b("bare"))]);
}
