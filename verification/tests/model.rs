use noogle_search::data::{BuiltinType, Content, ContentMeta, Doc, DocMeta, NoogleResponse, Position, RepoInfo, SourceInfo};
use noogle_search::resolve::{find_doc, full_name, parse_input};
use noogle_search::data::list_lines;
use noogle_search::CoreError;

fn b(s: &str) -> Vec<u8> {
    s.as_bytes().to_vec()
}

fn mk_meta(title: &str, aliases: Option<Vec<Vec<&str>>>) -> DocMeta {
    DocMeta {
        title: b(title),
        path: Vec::new(),
        aliases: aliases.map(|a| {
            a.into_iter().map(|alias| alias.into_iter().map(b).collect()).collect()
        }),
        signature: None,
        is_primop: false,
        primop_meta: None,
        is_functor: None,
        attr_position: None,
        attr_expr: None,
        lambda_position: None,
        lambda_expr: None,
        count_applied: None,
        content_meta: None,
    }
}

fn mk_doc(title: &str, aliases: Option<Vec<Vec<&str>>>) -> Doc {
    Doc { meta: mk_meta(title, aliases), content: None }
}

fn mk_response(docs: Vec<Doc>) -> NoogleResponse {
    NoogleResponse {
        data: docs,
        builtin_types: vec![BuiltinType { name: b("int"), value: b("{}") }],
        upstream_info: RepoInfo { rev: b("deadbeef"), last_modified: 1 },
        nix_info: RepoInfo { rev: b("cafe"), last_modified: 2 },
    }
}

#[test]
fn all_names_starts_with_title_and_counts_aliases() {
    let doc = mk_doc("lib.foo", Some(vec![vec!["a", "b"], vec!["c"]]));
    let names = doc.all_names();
    assert_eq!(names.len(), 3);
    assert_eq!(names[0], b("lib.foo"));
    assert_eq!(names[1], b("a.b"));
    assert_eq!(names[2], b("c"));
}

#[test]
fn all_names_without_aliases_is_title_alone() {
    let doc = mk_doc("solo", None);
    assert_eq!(doc.all_names(), vec![b("solo")]);
}

#[test]
fn matches_name_accepts_title_and_each_alias_join() {
    let doc = mk_doc("lib.foo", Some(vec![vec!["a", "b"], vec!["c"]]));
    assert!(doc.matches_name(&b("lib.foo")));
    assert!(doc.matches_name(&b("a.b")));
    assert!(doc.matches_name(&b("c")));
}

#[test]
fn matches_name_rejects_everything_else() {
    let doc = mk_doc("lib.foo", Some(vec![vec!["a", "b"]]));
    assert!(!doc.matches_name(&b("lib")));
    assert!(!doc.matches_name(&b("a")));
    assert!(!doc.matches_name(&b("b")));
    assert!(!doc.matches_name(&b("a.b.c")));
    assert!(!doc.matches_name(&b("")));
}

#[test]
fn parse_input_without_tab_keeps_input_whole() {
    let (name, ns) = parse_input(&b("lib.foo"));
    assert_eq!(name, b("lib.foo"));
    assert!(ns.is_none());
}

#[test]
fn parse_input_splits_at_first_tab() {
    let (name, ns) = parse_input(&b("bar\tfoo"));
    assert_eq!(name, b("bar"));
    assert_eq!(ns, Some(b("foo")));
}

#[test]
fn full_name_reattaches_namespace_in_front() {
    assert_eq!(full_name(&b("bar\tfoo")), b("foo.bar"));
    assert_eq!(full_name(&b("bar")), b("bar"));
}

#[test]
fn shared_alias_resolves_to_first_document_in_corpus_order() {
    let response = mk_response(vec![
        mk_doc("first.title", Some(vec![vec!["foo", "bar"]])),
        mk_doc("second.title", Some(vec![vec!["foo", "bar"]])),
    ]);
    let idx = find_doc(&response, &b("foo.bar")).unwrap();
    assert_eq!(idx, 0);
}

#[test]
fn tabbed_input_prefers_exact_title_over_earlier_alias() {
    let response = mk_response(vec![
        mk_doc("aliased", Some(vec![vec!["foo", "bar"]])),
        mk_doc("foo.bar", None),
    ]);
    let idx = find_doc(&response, &b("bar\tfoo")).unwrap();
    assert_eq!(idx, 1);
}

#[test]
fn alias_hit_is_used_when_no_title_matches() {
    let response = mk_response(vec![
        mk_doc("other", None),
        mk_doc("aliased", Some(vec![vec!["foo", "bar"]])),
    ]);
    let idx = find_doc(&response, &b("foo.bar")).unwrap();
    assert_eq!(idx, 1);
}

#[test]
fn missing_name_fails_with_not_found_and_message() {
    let response = mk_response(vec![mk_doc("present", None)]);
    let err = find_doc(&response, &b("zzz")).unwrap_err();
    assert_eq!(err, CoreError::NotFound { name: b("zzz") });
    assert_eq!(err.message(), b("Function 'zzz' not found"));
}

#[test]
fn list_lines_without_filter_lists_every_name() {
    let response = mk_response(vec![
        mk_doc("lib.foo", Some(vec![vec!["a", "b"]])),
        mk_doc("solo", None),
    ]);
    let lines = list_lines(&response, None);
    assert_eq!(lines, vec![b("lib.foo"), b("a.b"), b("solo")]);
}

#[test]
fn list_lines_with_filter_strips_namespace_and_appends_it() {
    let response = mk_response(vec![
        mk_doc("lib.foo", None),
        mk_doc("other.bar", None),
        mk_doc("lib.baz", None),
    ]);
    let lines = list_lines(&response, Some(&b("lib")));
    assert_eq!(lines, vec![b("foo\tlib"), b("baz\tlib")]);
}

#[test]
fn structural_records_hold_their_fields() {
    let pos = Position { file: b("a/b.nix"), line: 3, column: 9 };
    let src = SourceInfo { position: Some(pos), path: vec![b("a")], pos_type: Some(b("lambda")) };
    let content = Content { content: Some(b("text")), source: Some(src) };
    let cm = ContentMeta { position: None, path: Vec::new(), pos_type: None };
    assert_eq!(content.content.as_ref().unwrap(), &b("text"));
    assert_eq!(content.source.as_ref().unwrap().position.as_ref().unwrap().line, 3);
    assert!(cm.position.is_none());
}

#[test]
fn error_messages_are_fixed_texts() {
    assert_eq!(CoreError::CacheIo.message(), b("Failed to read or write the cache"));
    assert_eq!(CoreError::Fetch.message(), b("Failed to fetch from Noogle API"));
    assert_eq!(CoreError::Parse.message(), b("Failed to parse cached data"));
    assert_eq!(CoreError::SourceUnavailable.message(), b("No source position available"));
    assert_eq!(CoreError::Subprocess.message(), b("Failed to launch external tool"));
}
