use path_complete::completion::{chars_of, completion_directory};
use path_complete::matcher::path_suffix;
use path_complete::resolve::{resolve_directory, resolve_path};
use path_complete::store::{DocumentStore, StoreError};
use path_complete::text::Position;

fn cs(s: &str) -> Vec<char> {
    s.chars().collect()
}

fn st(v: &[char]) -> String {
    v.iter().collect()
}

fn suffix(line: &str) -> Option<String> {
    path_suffix(&cs(line), false).map(|v| st(&v))
}

#[test]
fn matcher_finds_relative_import() {
    assert_eq!(suffix("import \"../lib/"), Some("../lib/".to_string()));
}

#[test]
fn matcher_keeps_key_out_of_path() {
    // After a scheme every component may hold `=`, so the whole URL is a path.
    assert_eq!(
        suffix("http://x.org/q?foo=/bar"),
        Some("http://x.org/q?foo=/bar".to_string())
    );
    assert_eq!(suffix("?foo=/bar"), Some("/bar".to_string()));
}

#[test]
fn matcher_allows_equals_after_slash() {
    assert_eq!(suffix("see /a=b/c"), Some("/a=b/c".to_string()));
}

#[test]
fn matcher_takes_url_scheme() {
    assert_eq!(suffix("open file:///home/u/"), Some("file:///home/u/".to_string()));
    assert_eq!(suffix("x https://h.org/p"), Some("https://h.org/p".to_string()));
}

#[test]
fn matcher_takes_tilde_and_escaped_space() {
    assert_eq!(suffix("cd ~/"), Some("~/".to_string()));
    assert_eq!(suffix("cd my^ dir/sub"), Some("my^ dir/sub".to_string()));
}

#[test]
fn matcher_needs_a_slash() {
    assert_eq!(suffix("just words"), None);
    assert_eq!(suffix(""), None);
    assert_eq!(suffix("a/b c"), None);
    assert_eq!(suffix("/"), Some("/".to_string()));
    assert_eq!(suffix("a//"), Some("/".to_string()));
}

#[test]
fn matcher_single_file_mode_takes_bare_names() {
    let single = |line: &str| path_suffix(&cs(line), true).map(|v| st(&v));
    assert_eq!(single("open main.rs"), Some("main.rs".to_string()));
    assert_eq!(single("go ~"), Some("~".to_string()));
    assert_eq!(single("at file://"), Some("file://".to_string()));
    assert_eq!(single("x src/lib"), Some("src/lib".to_string()));
    assert_eq!(single("a b "), None);
    assert_eq!(suffix("open main.rs"), None);
}

fn resolve(path: &str, trailing: bool, doc: Option<&str>, home: Option<&str>) -> Option<String> {
    resolve_path(&cs(path), trailing, &doc.map(cs), &home.map(cs)).map(|v| st(&v))
}

#[test]
fn resolver_takes_parent_of_document() {
    assert_eq!(
        resolve("../lib/", true, Some("/proj/src/app.ts"), None),
        Some("/proj/lib".to_string())
    );
    assert_eq!(
        resolve("./util/ind", false, Some("/proj/src/app.ts"), None),
        Some("/proj/src/util".to_string())
    );
}

#[test]
fn resolver_expands_tilde() {
    assert_eq!(
        resolve("~/Documents/", true, Some("/proj/a.ts"), Some("/home/u")),
        Some("/home/u/Documents".to_string())
    );
    // Only a first component that is exactly `~` is expanded.
    assert_eq!(
        resolve("~x/", true, Some("/proj/a.ts"), Some("/home/u")),
        Some("/proj/~x".to_string())
    );
    assert_eq!(
        resolve("/a/~/", true, Some("/proj/a.ts"), Some("/home/u")),
        Some("/a/~".to_string())
    );
}

#[test]
fn resolver_keeps_absolute_paths() {
    assert_eq!(resolve("/etc/pa", false, None, None), Some("/etc".to_string()));
    assert_eq!(resolve("/", true, None, None), Some("/".to_string()));
    assert_eq!(resolve("/../..//x/./", true, None, None), Some("/x".to_string()));
}

#[test]
fn resolver_needs_document_path_for_relative() {
    assert_eq!(resolve("lib/", true, None, None), None);
    assert_eq!(resolve("lib/", true, Some("rel/a.ts"), None), None);
}

#[test]
fn resolver_decodes_file_uris() {
    let r = resolve_directory(&cs("file:///tmp/a%20b/"), &cs("file:///proj/x.ts"), &None);
    assert_eq!(r.map(|v| st(&v)), Some("/tmp/a b".to_string()));
    let doc = resolve_directory(&cs("../lib/"), &cs("file:///proj/src/app.ts"), &None);
    assert_eq!(doc.map(|v| st(&v)), Some("/proj/lib".to_string()));
    let not_local = resolve_directory(&cs("../lib/"), &cs("untitled:Untitled-1"), &None);
    assert_eq!(not_local, None);
}

#[test]
fn completion_directory_follows_cursor() {
    let mut s = DocumentStore::new();
    let uri = "file:///proj/src/app.ts".to_string();
    s.open(uri.clone(), "let x = 1;\nimport \"../lib/");
    let d = completion_directory(&s, &uri, Position { line: 1, character: 15 }, &None);
    assert_eq!(d.unwrap().map(|v| st(&v)), Some("/proj/lib".to_string()));
    let none = completion_directory(&s, &uri, Position { line: 0, character: 3 }, &None);
    assert_eq!(none, Ok(None));
    assert_eq!(chars_of("ab"), vec!['a', 'b']);
    let bad = completion_directory(&s, &uri, Position { line: 5, character: 0 }, &None);
    assert_eq!(bad, Err(StoreError::MalformedPosition));
    let unknown = completion_directory(&s, &"file:///other".to_string(), Position { line: 0, character: 0 }, &None);
    assert_eq!(unknown, Err(StoreError::UnknownDocument));
}
