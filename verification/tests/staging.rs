use clippin::path::{normalize, starts_at_root};
use clippin::stage::{copy, stage, Sighting, StageReport};
use clippin::store::ClipboardStore;

fn texts(items: &[&str]) -> Vec<String> {
    items.iter().map(|item| item.to_string()).collect()
}

fn seen(raw: &str, exists: bool) -> Sighting {
    Sighting { raw: raw.to_string(), exists }
}

#[test]
fn stage_keeps_existing_paths_resolved() {
    let report = stage("/work", &vec![seen("a.txt", true), seen("sub/b.txt", true)]);
    assert_eq!(report.entries, texts(&["/work/a.txt", "/work/sub/b.txt"]));
    assert_eq!(report.rejected, Vec::<String>::new());
}

#[test]
fn stage_drops_missing_paths_and_reports_them_as_given() {
    let report = stage(
        "/work",
        &vec![seen("gone.txt", false), seen("a.txt", true), seen("./also/gone", false)],
    );
    assert_eq!(report.entries, texts(&["/work/a.txt"]));
    assert_eq!(report.rejected, texts(&["gone.txt", "./also/gone"]));
}

#[test]
fn stage_keeps_order_and_duplicates() {
    let report = stage(
        "/work",
        &vec![
            seen("b", true),
            seen("a", true),
            seen("missing", false),
            seen("b", true),
            seen("/work/a", true),
        ],
    );
    assert_eq!(report.entries, texts(&["/work/b", "/work/a", "/work/b", "/work/a"]));
    assert_eq!(report.rejected, texts(&["missing"]));
}

#[test]
fn stage_of_nothing_is_empty() {
    let report = stage("/work", &Vec::new());
    assert_eq!(report, StageReport { entries: Vec::new(), rejected: Vec::new() });
}

#[test]
fn stage_never_keeps_the_empty_path() {
    let report = stage("/work", &vec![seen("", true), seen("", false), seen("a", true)]);
    assert_eq!(report.entries, texts(&["/work/a"]));
    assert_eq!(report.rejected, texts(&["", ""]));
}

#[test]
fn stage_of_two_batches_is_stage_of_both() {
    let first = vec![seen("a", true), seen("b", false)];
    let second = vec![seen("c", false), seen("d", true), seen("a", true)];
    let mut both = first.clone();
    both.extend(second.clone());
    let whole = stage("/w", &both);
    let left = stage("/w", &first);
    let right = stage("/w", &second);
    let mut entries = left.entries.clone();
    entries.extend(right.entries.clone());
    let mut rejected = left.rejected.clone();
    rejected.extend(right.rejected.clone());
    assert_eq!(whole.entries, entries);
    assert_eq!(whole.rejected, rejected);
}

#[test]
fn copy_writes_staged_entries_to_store() {
    let mut store = ClipboardStore::absent();
    let report = copy(&mut store, "/work", &vec![seen("a.txt", true), seen("b.txt", true)]);
    assert_eq!(report.entries, texts(&["/work/a.txt", "/work/b.txt"]));
    assert_eq!(store.content, Some("/work/a.txt\n/work/b.txt".to_string()));
    assert_eq!(store.read(), Ok(report.entries));
}

#[test]
fn copy_persists_exactly_the_existing_subset() {
    let mut store = ClipboardStore::absent();
    let inputs = vec![
        seen("x", true),
        seen("nope", false),
        seen("y", true),
        seen("x", true),
        seen("nada", false),
    ];
    let report = copy(&mut store, "/base", &inputs);
    assert_eq!(store.read(), Ok(texts(&["/base/x", "/base/y", "/base/x"])));
    assert_eq!(report.rejected, texts(&["nope", "nada"]));
}

#[test]
fn second_copy_replaces_first() {
    let mut store = ClipboardStore::absent();
    copy(&mut store, "/work", &vec![seen("a", true), seen("b", true)]);
    copy(&mut store, "/work", &vec![seen("c", true), seen("d", true)]);
    assert_eq!(store.read(), Ok(texts(&["/work/c", "/work/d"])));
}

#[test]
fn copy_of_only_missing_paths_empties_store() {
    let mut store = ClipboardStore::holding("/old/entry".to_string());
    let report = copy(&mut store, "/work", &vec![seen("gone", false)]);
    assert_eq!(report.entries, Vec::<String>::new());
    assert_eq!(report.rejected, texts(&["gone"]));
    assert_eq!(store.content, Some(String::new()));
    assert_eq!(store.read(), Ok(Vec::new()));
}

#[test]
fn copy_of_nothing_reads_back_as_nothing() {
    let mut store = ClipboardStore::absent();
    let report = copy(&mut store, "/work", &Vec::new());
    assert_eq!(report.entries, Vec::<String>::new());
    assert_eq!(store.read(), Ok(Vec::new()));
}

#[test]
fn stage_from_absolute_directory_gives_absolute_canonical_entries() {
    let inputs = vec![
        seen("a", true),
        seen("./b//c/", true),
        seen("..", true),
        seen(".", true),
        seen("/x/./y", true),
    ];
    let report = stage("/work/dir", &inputs);
    assert_eq!(
        report.entries,
        texts(&["/work/dir/a", "/work/dir/b/c", "/work/dir/..", "/work/dir", "/x/y"])
    );
    for entry in &report.entries {
        assert!(starts_at_root(entry));
        assert_eq!(&normalize(entry), entry);
    }
}
