use dataview_rewrite::filter::{
    ends_with_markdown_suffix, filter_entry, starts_with_dot, EntryKind, Verdict,
};

#[test]
fn markdown_file_is_a_candidate() {
    assert_eq!(filter_entry("note.md", EntryKind::File), Verdict::Continue);
    assert_eq!(filter_entry("a.b.md", EntryKind::File), Verdict::Continue);
    assert_eq!(filter_entry(".md", EntryKind::File), Verdict::Continue);
    assert_eq!(filter_entry("r\u{e9}sum\u{e9}.md", EntryKind::File), Verdict::Continue);
}

#[test]
fn hidden_directory_is_cut_off() {
    assert_eq!(filter_entry(".git", EntryKind::Directory), Verdict::IgnoreDir);
    assert_eq!(filter_entry(".obsidian", EntryKind::Directory), Verdict::IgnoreDir);
    assert_eq!(filter_entry(".notes.md", EntryKind::Directory), Verdict::IgnoreDir);
    assert_eq!(filter_entry(".", EntryKind::Directory), Verdict::IgnoreDir);
}

#[test]
fn file_without_the_suffix_is_passed_over() {
    assert_eq!(filter_entry("note.txt", EntryKind::File), Verdict::Ignore);
    assert_eq!(filter_entry("note.MD", EntryKind::File), Verdict::Ignore);
    assert_eq!(filter_entry("note.md.orig", EntryKind::File), Verdict::Ignore);
    assert_eq!(filter_entry("md", EntryKind::File), Verdict::Ignore);
    assert_eq!(filter_entry("", EntryKind::File), Verdict::Ignore);
    assert_eq!(filter_entry(".gitignore", EntryKind::File), Verdict::Ignore);
}

#[test]
fn plain_directory_is_entered_but_not_handed_on() {
    assert_eq!(filter_entry("notes", EntryKind::Directory), Verdict::Ignore);
    assert_eq!(filter_entry("notes.md", EntryKind::Directory), Verdict::Ignore);
}

#[test]
fn entry_that_went_missing_is_passed_over() {
    assert_eq!(filter_entry("note.md", EntryKind::Missing), Verdict::Ignore);
    assert_eq!(filter_entry(".cache", EntryKind::Missing), Verdict::Ignore);
    assert_eq!(filter_entry("note.txt", EntryKind::Missing), Verdict::Ignore);
}

#[test]
fn hidden_markdown_file_is_a_candidate() {
    assert_eq!(filter_entry(".draft.md", EntryKind::File), Verdict::Continue);
}

#[test]
fn name_tests_look_at_the_first_and_the_last_characters() {
    assert!(starts_with_dot(".x"));
    assert!(!starts_with_dot("x."));
    assert!(!starts_with_dot(""));
    assert!(ends_with_markdown_suffix("x.md"));
    assert!(!ends_with_markdown_suffix("x.mdx"));
    assert!(!ends_with_markdown_suffix("xmd"));
    assert!(!ends_with_markdown_suffix("d"));
    assert!(!ends_with_markdown_suffix("\u{4e16}\u{754c}"));
}

#[test]
fn walk_by_the_verdicts_skips_what_lies_below_a_hidden_directory() {
    // (path, kind), parents before children.
    let tree = [
        ("a.md", EntryKind::File),
        ("b.txt", EntryKind::File),
        ("sub", EntryKind::Directory),
        ("sub/c.md", EntryKind::File),
        ("sub/.hidden", EntryKind::Directory),
        ("sub/.hidden/d.md", EntryKind::File),
        ("sub/.hidden/deep", EntryKind::Directory),
        ("sub/.hidden/deep/e.md", EntryKind::File),
        ("sub/docs.md", EntryKind::Directory),
        ("sub/docs.md/f.md", EntryKind::File),
        ("sub/docs.md/g.rs", EntryKind::File),
    ];
    let mut cut: Vec<String> = Vec::new();
    let mut candidates: Vec<&str> = Vec::new();
    for (path, kind) in tree {
        if cut.iter().any(|dir| path.starts_with(dir.as_str())) {
            continue;
        }
        let name = path.rsplit('/').next().unwrap();
        match filter_entry(name, kind) {
            Verdict::Continue => candidates.push(path),
            Verdict::Ignore => {}
            Verdict::IgnoreDir => cut.push(format!("{path}/")),
        }
    }
    assert_eq!(candidates, vec!["a.md", "sub/c.md", "sub/docs.md/f.md"]);
}
