use clippin::error::ErrorKind;
use clippin::paste::{
    collision_target, filter_sources, staged_sources, Destination, SourceProbe, TransferRequest,
};
use clippin::path::resolve;
use clippin::stage::{copy, Sighting};
use clippin::store::ClipboardStore;
use clippin::transfer::{PasteSession, ProgressTracker, TransferOutcome};

#[test]
fn copy_two_paths_one_missing_then_paste_transfers_one_file() {
    let base = "/work";
    let on_disk = ["/work/a.txt", "/work/dst"];
    let exists = |path: &str| on_disk.contains(&path);

    let mut store = ClipboardStore::absent();
    let sightings: Vec<Sighting> = ["a.txt", "b.txt"]
        .iter()
        .map(|raw| Sighting {
            raw: raw.to_string(),
            exists: resolve(base, raw).map_or(false, |path| exists(&path)),
        })
        .collect();
    let staged = copy(&mut store, base, &sightings);
    assert_eq!(staged.entries, vec!["/work/a.txt".to_string()]);
    assert_eq!(staged.rejected, vec!["b.txt".to_string()]);
    assert_eq!(store.content, Some("/work/a.txt".to_string()));

    let sources = staged_sources(&store).unwrap();
    assert_eq!(sources, vec!["/work/a.txt".to_string()]);
    let dest = Destination::resolved(base, "./dst", exists("/work/dst")).unwrap();
    assert_eq!(dest.path, "/work/dst");
    assert!(dest.is_directory);
    let probes: Vec<SourceProbe> = sources
        .iter()
        .map(|source| {
            let target = collision_target(&dest, source);
            assert_eq!(target, "/work/dst/a.txt");
            SourceProbe {
                path: source.clone(),
                exists: exists(source),
                target_exists: exists(&target),
            }
        })
        .collect();
    let report = filter_sources(&dest, &probes);
    assert_eq!(
        report.kept,
        vec![TransferRequest {
            source: "/work/a.txt".to_string(),
            destination: "/work/dst".to_string(),
        }]
    );
    assert!(report.excluded.is_empty());

    let mut session = PasteSession::new(report.kept);
    let mut copied: u64 = 0;
    while let Some(_request) = session.pending() {
        let mut tracker = ProgressTracker::new(12);
        copied += tracker.advance(8);
        copied += tracker.advance(12);
        copied += tracker.finish();
        session.record(TransferOutcome::Completed);
    }
    assert_eq!(copied, 12);
    assert_eq!(session.result(), Some(Ok(1)));
}

#[test]
fn paste_twice_excludes_what_the_first_paste_created() {
    let store = ClipboardStore::holding("/work/a.txt\n/work/b.txt".to_string());
    let sources = staged_sources(&store).unwrap();
    let dest = Destination { path: "/work/dst".to_string(), is_directory: true };
    let on_disk = ["/work/a.txt", "/work/b.txt", "/work/dst", "/work/dst/a.txt"];
    let probes: Vec<SourceProbe> = sources
        .iter()
        .map(|source| SourceProbe {
            path: source.clone(),
            exists: on_disk.contains(&source.as_str()),
            target_exists: on_disk.contains(&collision_target(&dest, source).as_str()),
        })
        .collect();
    let report = filter_sources(&dest, &probes);
    assert_eq!(report.kept.len(), 1);
    assert_eq!(report.kept[0].source, "/work/b.txt");
    assert_eq!(report.excluded.len(), 1);
    assert_eq!(report.excluded[0].path, "/work/a.txt");
    assert_eq!(report.excluded[0].reason.kind(), ErrorKind::ExcludedByConflict);
}

#[test]
fn copy_of_only_missing_paths_then_paste_transfers_nothing() {
    let mut store = ClipboardStore::absent();
    let sightings = vec![
        Sighting { raw: "gone.txt".to_string(), exists: false },
        Sighting { raw: "also/gone".to_string(), exists: false },
    ];
    let staged = copy(&mut store, "/work", &sightings);
    assert!(staged.entries.is_empty());
    assert_eq!(store.content, Some(String::new()));

    let sources = staged_sources(&store).unwrap();
    assert_eq!(sources, Vec::<String>::new());
    let dest = Destination::resolved("/work", "/d", true).unwrap();
    let report = filter_sources(&dest, &Vec::new());
    assert!(report.kept.is_empty());
    assert!(report.excluded.is_empty());
    let session = PasteSession::new(report.kept);
    assert_eq!(session.pending(), None);
    assert_eq!(session.result(), Some(Ok(0)));
}

#[test]
fn paste_without_copy_requests_nothing() {
    let store = ClipboardStore::absent();
    let outcome = staged_sources(&store);
    assert_eq!(outcome, Err(ErrorKind::ClipboardUnavailable));
    assert!(ErrorKind::ClipboardUnavailable.is_fatal());
    assert_eq!(store.content, None);
}

#[test]
fn paste_into_staged_directory_itself_requests_nothing_for_it() {
    let store = ClipboardStore::holding("/work/dst\n/work/a.txt".to_string());
    let sources = staged_sources(&store).unwrap();
    let dest = Destination::resolved("/work", "dst/", true).unwrap();
    let probes: Vec<SourceProbe> = sources
        .iter()
        .map(|source| SourceProbe { path: source.clone(), exists: true, target_exists: false })
        .collect();
    let report = filter_sources(&dest, &probes);
    assert_eq!(report.kept.len(), 1);
    assert_eq!(report.kept[0].source, "/work/a.txt");
    assert_eq!(report.kept[0].destination, "/work/dst");
    assert_eq!(report.excluded.len(), 1);
    assert_eq!(report.excluded[0].path, "/work/dst");
}

#[test]
fn failed_transfer_ends_paste_with_transfer_error() {
    let mut session = PasteSession::new(vec![
        TransferRequest { source: "/w/a".to_string(), destination: "/d".to_string() },
        TransferRequest { source: "/w/b".to_string(), destination: "/d".to_string() },
    ]);
    let mut attempted: Vec<String> = Vec::new();
    while let Some(request) = session.pending() {
        attempted.push(request.source.clone());
        session.record(TransferOutcome::Failed);
    }
    assert_eq!(attempted, vec!["/w/a".to_string()]);
    assert_eq!(session.result(), Some(Err(ErrorKind::TransferIoError)));
    assert!(ErrorKind::TransferIoError.is_fatal());
}
