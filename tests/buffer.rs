use path_complete::store::{DocumentStore, Edit, Range, StoreError};
use path_complete::text::{Position, TextBuffer};

fn pos(line: usize, character: usize) -> Position {
    Position { line, character }
}

fn edit(start: Position, end: Position, text: &str) -> Edit {
    Edit { range: Some(Range { start, end }), text: text.to_string() }
}

fn id(s: &str) -> String {
    s.to_string()
}

#[test]
fn offset_counts_from_line_start() {
    let b = TextBuffer::from_text("ab\ncde\nf");
    assert_eq!(b.offset_of(pos(0, 0)), Some(0));
    assert_eq!(b.offset_of(pos(1, 2)), Some(5));
    assert_eq!(b.offset_of(pos(2, 1)), Some(8));
    assert_eq!(b.offset_of(pos(3, 0)), None);
    assert_eq!(b.offset_of(pos(2, 2)), None);
}

#[test]
fn offset_treats_crlf_as_one_break() {
    let b = TextBuffer::from_text("a\r\nb\rc");
    assert_eq!(b.offset_of(pos(1, 0)), Some(3));
    assert_eq!(b.offset_of(pos(2, 0)), Some(5));
}

#[test]
fn offset_counts_utf16_units() {
    // U+1F600 takes two UTF-16 code units but is one character.
    let b = TextBuffer::from_text("\u{1F600}x/");
    assert_eq!(b.offset_of(pos(0, 2)), Some(1));
    assert_eq!(b.offset_of(pos(0, 3)), Some(2));
}

#[test]
fn position_round_trips_every_offset() {
    let text = "a\u{1F600}b\r\ncd\n\u{2028}e";
    let b = TextBuffer::from_text(text);
    for o in 0..=b.len_chars() {
        let p = b.position_of(o);
        assert_eq!(b.offset_of(p), Some(o));
    }
    assert_eq!(b.position_of(3), pos(0, 4));
}

#[test]
fn line_prefix_is_text_before_cursor() {
    let b = TextBuffer::from_text("x\nimport \"../lib/\n");
    let p = b.line_prefix(pos(1, 15)).unwrap();
    assert_eq!(p.iter().collect::<String>(), "import \"../lib/");
}

#[test]
fn edits_apply_in_order() {
    let mut s = DocumentStore::new();
    s.open(id("file:///a.txt"), "hello world");
    // The second edit's positions are read against the text the first left.
    let edits = vec![
        edit(pos(0, 0), pos(0, 5), "hi"),
        edit(pos(0, 2), pos(0, 3), "_"),
    ];
    assert_eq!(s.apply_edits(&id("file:///a.txt"), &edits), Ok(()));
    assert_eq!(s.text(&id("file:///a.txt")).unwrap(), "hi_world");
}

#[test]
fn edits_match_plain_string_splices() {
    let mut s = DocumentStore::new();
    let mut plain: Vec<char> = "one\ntwo\nthree".chars().collect();
    s.open(id("d"), "one\ntwo\nthree");
    let edits = vec![
        edit(pos(1, 0), pos(1, 3), "2"),
        edit(pos(0, 3), pos(1, 0), ""),
        edit(pos(1, 5), pos(1, 5), "!\n"),
    ];
    // Replay as splices on a plain vector of characters.
    let splices: Vec<(usize, usize, &str)> = vec![(4, 7, "2"), (3, 4, ""), (10, 10, "!\n")];
    for (a, b, t) in splices {
        plain.splice(a..b, t.chars());
    }
    assert_eq!(s.apply_edits(&id("d"), &edits), Ok(()));
    assert_eq!(s.text(&id("d")).unwrap(), plain.iter().collect::<String>());
}

#[test]
fn empty_rangeless_edit_is_no_op() {
    let mut s = DocumentStore::new();
    s.open(id("d"), "abc");
    let edits = vec![Edit { range: None, text: String::new() }];
    assert_eq!(s.apply_edits(&id("d"), &edits), Ok(()));
    assert_eq!(s.text(&id("d")).unwrap(), "abc");
}

#[test]
fn rangeless_edit_with_text_is_rejected() {
    let mut s = DocumentStore::new();
    s.open(id("d"), "abc");
    let edits = vec![
        edit(pos(0, 0), pos(0, 0), "x"),
        Edit { range: None, text: "whole".to_string() },
        edit(pos(0, 0), pos(0, 0), "y"),
    ];
    assert_eq!(s.apply_edits(&id("d"), &edits), Err(StoreError::UnsupportedEdit));
    assert_eq!(s.text(&id("d")).unwrap(), "xabc");
}

#[test]
fn edit_outside_text_is_malformed() {
    let mut s = DocumentStore::new();
    s.open(id("d"), "abc");
    let edits = vec![edit(pos(0, 1), pos(0, 9), "")];
    assert_eq!(s.apply_edits(&id("d"), &edits), Err(StoreError::MalformedPosition));
    let reversed = vec![edit(pos(0, 2), pos(0, 1), "")];
    assert_eq!(s.apply_edits(&id("d"), &reversed), Err(StoreError::MalformedPosition));
    assert_eq!(s.text(&id("d")).unwrap(), "abc");
}

#[test]
fn unknown_document_is_reported() {
    let mut s = DocumentStore::new();
    assert_eq!(s.apply_edits(&id("nope"), &vec![]), Err(StoreError::UnknownDocument));
    assert_eq!(s.line_until_cursor(&id("nope"), pos(0, 0)), Err(StoreError::UnknownDocument));
    assert!(s.text(&id("nope")).is_none());
}

#[test]
fn reopen_replaces_buffer() {
    let mut s = DocumentStore::new();
    s.open(id("d"), "first");
    s.open(id("e"), "other");
    s.open(id("d"), "second");
    assert_eq!(s.text(&id("d")).unwrap(), "second");
    assert_eq!(s.text(&id("e")).unwrap(), "other");
}
