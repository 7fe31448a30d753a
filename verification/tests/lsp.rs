use mimofan_core::json::JsonValue;
use mimofan_core::lsp::{
    parse_header, parse_location, relative_to_workspace, path_from_uri, uri_from_path, CallHierarchyTree, CallNode, LspConfig,
};

#[test]
fn uri_roundtrip_is_stable() {
    let p = "/tmp/x/y.rs";
    let uri = uri_from_path(p);
    assert!(uri.starts_with("file://"));
    let back = path_from_uri(&uri).unwrap();
    assert_eq!(back, p);
}

#[test]
fn relative_paths_get_a_third_slash() {
    assert_eq!(uri_from_path("rel/a.rs"), "file:///rel/a.rs");
    assert_eq!(path_from_uri("file:///rel/a.rs").as_deref(), Some("/rel/a.rs"));
    assert_eq!(path_from_uri("http://x"), None);
}

#[test]
fn header_is_parsed_up_to_the_blank_line() {
    let buf = b"Content-Length: 12\r\nContent-Type: x\r\n\r\n{\"a\":1}";
    assert_eq!(parse_header(buf), Some((39, 12)));
    assert_eq!(parse_header(b"Content-Length: 5\r\n"), None);
    assert_eq!(parse_header(b"Content-Type: x\r\n\r\n"), None);
    assert_eq!(parse_header(b"Content-Length: +7\r\n\r\n"), Some((22, 7)));
    assert_eq!(parse_header(b"Content-Length: 7\r\nContent-Length: x\r\n\r\n"), None);
    assert_eq!(parse_header(b"Content-Length: 3\xff\r\n\r\n"), None);
}

fn node(name: &str, children: Vec<CallNode>) -> CallNode {
    CallNode {
        name: name.to_string(),
        kind: 12,
        path: "/a.rs".to_string(),
        line: 1,
        column: 1,
        call_line: 0,
        children,
    }
}

#[test]
fn call_trees_are_cut_to_depth() {
    let tree = CallHierarchyTree {
        root_name: "root".to_string(),
        direction: "both".to_string(),
        max_depth: 5,
        children: vec![node("a", vec![node("b", vec![node("c", vec![])])])],
    };
    let cut = tree.limit_depth(2);
    assert_eq!(cut.max_depth, 2);
    assert_eq!(cut.children[0].children[0].name, "b");
    assert!(cut.children[0].children[0].children.is_empty());
    assert!(tree.limit_depth(0).children.is_empty());
    assert_eq!(cut.limit_depth(2), cut);
    let empty = CallHierarchyTree::empty("incoming", 3);
    assert!(empty.is_empty());
    assert!(!tree.is_empty());
    let cfg = LspConfig::default();
    assert!(cfg.enabled);
    assert_eq!(cfg.poll_after_edit_ms, 5000);
}

#[test]
fn diagnostic_files_are_shown_relative_to_the_workspace() {
    assert_eq!(relative_to_workspace("/w", "/w/src/a.rs"), "src/a.rs");
    assert_eq!(relative_to_workspace("/w", "/x/b.rs"), "b.rs");
    assert_eq!(relative_to_workspace("/w", "/wx/c.rs"), "c.rs");
    assert_eq!(relative_to_workspace("/w", "/"), "unknown");
}

fn obj(entries: Vec<(&str, JsonValue)>) -> JsonValue {
    JsonValue::Object(entries.into_iter().map(|(k, v)| (k.to_string(), v)).collect())
}

fn num(n: u64) -> JsonValue {
    JsonValue::Number(n.to_string())
}

fn text(s: &str) -> JsonValue {
    JsonValue::Text(s.to_string())
}

#[test]
fn parse_location_handles_bare_and_locationlink() {
    let bare = obj(vec![
        ("uri", text("file:///a/b.rs")),
        ("range", obj(vec![("start", obj(vec![("line", num(2)), ("character", num(1))]))])),
    ]);
    let loc = parse_location(&bare).unwrap();
    assert_eq!(loc.line, 3);
    assert_eq!(loc.column, 2);

    let link = obj(vec![
        ("targetUri", text("file:///c/d.rs")),
        ("targetRange", obj(vec![("start", obj(vec![("line", num(4)), ("character", num(0))]))])),
    ]);
    let loc2 = parse_location(&link).unwrap();
    assert_eq!(loc2.path, "/c/d.rs");
    assert_eq!(loc2.line, 5);
}

#[test]
fn parse_location_refuses_other_uris_and_missing_parts() {
    let http = obj(vec![
        ("uri", text("http://a/b.rs")),
        ("range", obj(vec![("start", obj(vec![("line", num(0)), ("character", num(0))]))])),
    ]);
    assert!(parse_location(&http).is_none());
    let no_start = obj(vec![("uri", text("file:///a.rs")), ("range", obj(vec![]))]);
    assert!(parse_location(&no_start).is_none());
    let fractional = obj(vec![
        ("uri", text("file:///a.rs")),
        ("range", obj(vec![("start", obj(vec![("line", JsonValue::Number("1.5".to_string())), ("character", num(0))]))])),
    ]);
    assert!(parse_location(&fractional).is_none());
}
