use noteutil::date::Date;
use noteutil::journal::Period;
use noteutil::note::Filter;
use noteutil::walk::DiagKind;
use noteutil::walk::FsNode;

fn file(path: &str) -> FsNode {
    FsNode::File { path: path.to_string() }
}

fn strings(v: &[&str]) -> Vec<String> {
    v.iter().map(|s| s.to_string()).collect()
}

#[test]
fn add() {
    // a nonexistent path adds nothing, and is not fatal
    let missing = FsNode::Missing { path: "no-such-dir".to_string() };
    let filter = Filter::new().add(&missing);
    assert_eq!(filter.notes(), Vec::<String>::new());

    // a directory adds each of its files
    let dir = FsNode::Dir {
        path: "d".to_string(),
        entries: vec![file("d/a.md"), file("d/b.md"), file("d/c.md")],
    };
    let notes = Filter::new().add(&dir);
    assert_eq!(notes.notes(), strings(&["d/a.md", "d/b.md", "d/c.md"]));
}

#[test]
fn journal_only() {
    let root = FsNode::Dir {
        path: "root".to_string(),
        entries: vec![
            FsNode::Dir {
                path: "root/journals".to_string(),
                entries: vec![file("root/journals/test.md")],
            },
            file("root/test.md"),
        ],
    };
    let notes = Filter::new().add(&root).journal_only().notes();
    assert_eq!(notes, strings(&["root/journals/test.md"]));
}

#[test]
fn missing_path_leaves_candidates_and_records_diagnostic() {
    let before = Filter::new().add(&file("kept.md"));
    assert_eq!(before.diagnostics().len(), 0);
    let after = before.add(&FsNode::Missing { path: "gone.md".to_string() });
    assert_eq!(after.notes(), strings(&["kept.md"]));
    let diags = after.diagnostics();
    assert_eq!(diags.len(), 1);
    assert_eq!(diags[0].kind, DiagKind::MissingPath);
    assert_eq!(diags[0].path, "gone.md");
}

#[test]
fn unreadable_entry_is_skipped_with_diagnostic() {
    let root = FsNode::Dir {
        path: "d".to_string(),
        entries: vec![
            file("d/ok.md"),
            FsNode::Unreadable { path: "d/locked".to_string() },
            FsNode::Other { path: "d/socket".to_string() },
        ],
    };
    let filter = Filter::new().add(&root);
    assert_eq!(filter.notes(), strings(&["d/ok.md"]));
    let diags = filter.diagnostics();
    assert_eq!(diags.len(), 1);
    assert_eq!(diags[0].kind, DiagKind::EntryReadError);
    assert_eq!(diags[0].path, "d/locked");
}

#[test]
fn notes_are_deterministic_and_sorted() {
    let root = FsNode::Dir {
        path: "r".to_string(),
        entries: vec![file("r/c.md"), file("r/a.md"), file("r/b.md")],
    };
    let filter = Filter::new().add(&root);
    let first = filter.notes();
    let second = filter.notes();
    assert_eq!(first, second);
    assert_eq!(first, strings(&["r/a.md", "r/b.md", "r/c.md"]));
}

#[test]
fn date_filter_is_or_across_periods() {
    let date = Date::new(2023, 10, 21).unwrap();
    // contains the monthly pattern 2023-10 but not the daily 2023-10-21
    let monthly_only = "journals/2023-10.md";
    let filter = Filter::new()
        .add(&file(monthly_only))
        .period(Period::Daily)
        .period(Period::Monthly)
        .date(&date);
    assert_eq!(filter.notes(), strings(&[monthly_only]));

    // with only the daily period requested, the same file is dropped
    let daily_only = Filter::new().add(&file(monthly_only)).period(Period::Daily).date(&date);
    assert_eq!(daily_only.notes(), Vec::<String>::new());
}

#[test]
fn date_filter_defaults_to_all_periods() {
    let date = Date::new(2023, 10, 21).unwrap();
    let root = FsNode::Dir {
        path: "journals".to_string(),
        entries: vec![
            file("journals/2023-10-21.md"),
            file("journals/2023-w42.md"),
            file("journals/2023-10.md"),
            file("journals/2023.md"),
            file("journals/2022-01-01.md"),
            file("journals/other.md"),
        ],
    };
    let filter = Filter::new().add(&root).date(&date);
    assert_eq!(
        filter.notes(),
        strings(&[
            "journals/2023-10-21.md",
            "journals/2023-10.md",
            "journals/2023-w42.md",
            "journals/2023.md",
        ])
    );
}

#[test]
fn filters_only_remove() {
    let date = Date::new(2023, 10, 21).unwrap();
    let root = FsNode::Dir {
        path: "r".to_string(),
        entries: vec![
            file("r/journals/2023-10-21.md"),
            file("r/journals/notes.txt"),
            file("r/elsewhere/2023-10-21.md"),
        ],
    };
    let all = Filter::new().add(&root);
    let narrowed = Filter::new().add(&root).journal_only().date(&date);
    let all_notes = all.notes();
    let narrowed_notes = narrowed.notes();
    assert_eq!(all_notes.len(), 3);
    assert_eq!(narrowed_notes, strings(&["r/journals/2023-10-21.md"]));
    for n in &narrowed_notes {
        assert!(all_notes.contains(n));
    }
}

#[test]
fn multiple_roots_accumulate() {
    let filter = Filter::new().add(&file("b.md")).add(&file("a.md"));
    assert_eq!(filter.notes(), strings(&["a.md", "b.md"]));
}
