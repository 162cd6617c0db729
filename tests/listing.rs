use path_complete::listing::{completion_items, listing_order, CandidateKind, DirEntry, EntryKind};

fn entry(name: &str, kind: EntryKind, is_symlink: bool) -> DirEntry {
    DirEntry { name: name.to_string(), kind, is_symlink }
}

fn names(es: &[DirEntry], order: &[usize]) -> Vec<String> {
    order.iter().map(|&i| es[i].name.clone()).collect()
}

#[test]
fn directories_come_first() {
    let es = vec![entry("index.ts", EntryKind::File, false), entry("util", EntryKind::Directory, false)];
    assert_eq!(names(&es, &listing_order(&es, false)), vec!["util", "index.ts"]);
}

#[test]
fn hidden_entries_are_left_out() {
    let es = vec![
        entry(".git", EntryKind::Directory, false),
        entry("README.md", EntryKind::File, false),
        entry("src", EntryKind::Directory, false),
    ];
    assert_eq!(names(&es, &listing_order(&es, false)), vec!["src", "README.md"]);
    assert_eq!(names(&es, &listing_order(&es, true)), vec![".git", "src", "README.md"]);
}

#[test]
fn symlinks_are_left_out() {
    let es = vec![
        entry("linkdir", EntryKind::Directory, true),
        entry("linkfile", EntryKind::File, true),
        entry("real", EntryKind::Directory, false),
    ];
    assert_eq!(names(&es, &listing_order(&es, true)), vec!["real"]);
}

#[test]
fn names_sort_ignoring_case() {
    let es = vec![
        entry("b.txt", EntryKind::File, false),
        entry("Zeta", EntryKind::Directory, false),
        entry("A.txt", EntryKind::File, false),
        entry("alpha", EntryKind::Directory, false),
        entry("a.txt", EntryKind::File, false),
        entry("dev", EntryKind::Other, false),
    ];
    assert_eq!(
        names(&es, &listing_order(&es, false)),
        vec!["alpha", "Zeta", "A.txt", "a.txt", "b.txt", "dev"]
    );
}

#[test]
fn candidates_carry_kinds() {
    let es = vec![
        entry("f", EntryKind::File, false),
        entry("d", EntryKind::Directory, false),
        entry("p", EntryKind::Other, false),
    ];
    let c = completion_items(Some(&es));
    assert_eq!(c.len(), 3);
    assert_eq!((c[0].label.as_str(), c[0].kind), ("d", Some(CandidateKind::Folder)));
    assert_eq!((c[1].label.as_str(), c[1].kind), ("f", Some(CandidateKind::File)));
    assert_eq!((c[2].label.as_str(), c[2].kind), ("p", None));
}

#[test]
fn unreadable_directory_gives_no_candidates() {
    assert!(completion_items(None).is_empty());
    assert!(completion_items(Some(&vec![])).is_empty());
}
