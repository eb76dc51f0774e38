use folder_search::cancel::CancelSlot;
use folder_search::engine::{DirPass, EntryInfo, EntryKind, SearchEngine};
use folder_search::pattern::{build_regex, Matcher};
use folder_search::scan::should_search_directory;
use folder_search::types::SearchResponse;

struct TestEntry {
    path: String,
    kind: EntryKind,
    size: Option<u64>,
    bytes: Option<Vec<u8>>,
}

fn file(path: &str, content: &str) -> TestEntry {
    TestEntry {
        path: path.to_string(),
        kind: EntryKind::File,
        size: Some(content.len() as u64),
        bytes: Some(content.as_bytes().to_vec()),
    }
}

fn raw_file(path: &str, size: Option<u64>, bytes: Option<Vec<u8>>) -> TestEntry {
    TestEntry { path: path.to_string(), kind: EntryKind::File, size, bytes }
}

fn subdir(path: &str) -> TestEntry {
    TestEntry { path: path.to_string(), kind: EntryKind::Directory, size: None, bytes: None }
}

type Tree = Vec<(String, Vec<TestEntry>)>;

fn lookup<'a>(tree: &'a Tree, path: &str) -> Option<&'a Vec<TestEntry>> {
    tree.iter().find(|(p, _)| p == path).map(|(_, es)| es)
}

fn to_entry(e: &TestEntry) -> EntryInfo {
    EntryInfo { path: e.path.clone(), kind: e.kind, size: e.size, bytes: e.bytes.clone() }
}

/// Runs a whole search over an in-memory tree, mirroring the host's loop:
/// pop a directory, poll cancellation, flush a due batch, check the caps,
/// guard the visited set, then feed each listed entry through the engine.
fn drive(
    tree: &Tree,
    root: &str,
    query: &str,
    is_regex: bool,
    case_sensitive: bool,
    whole_word: bool,
    cancel_after: Option<usize>,
) -> SearchResponse {
    let matcher: Matcher = build_regex(query, is_regex, case_sensitive, whole_word).unwrap();
    let mut engine = SearchEngine::new(root, 600_000);
    let mut dirs_done: usize = 0;
    loop {
        let current = match engine.take_next_dir() {
            None => return engine.finish_complete(0),
            Some(d) => d,
        };
        if let Some(n) = cancel_after {
            if dirs_done >= n {
                return engine.finish_cancelled(0);
            }
        }
        if engine.batch_due(false) {
            let _snapshot = engine.flush_batch(0);
        }
        if engine.should_curtail(0) {
            engine.mark_curtailed();
            break;
        }
        if !should_search_directory(&current) || !engine.mark_visited(&current) {
            continue;
        }
        dirs_done += 1;
        if let Some(entries) = lookup(tree, &current) {
            let mut pass = DirPass::new();
            for e in entries {
                engine.process_directory_entry(to_entry(e), &matcher, &mut pass);
            }
            engine.finish_directory(pass);
        }
    }
    engine.finish_complete(0)
}

fn tuples(r: &SearchResponse) -> Vec<(String, usize, Vec<[usize; 2]>)> {
    let mut out = Vec::new();
    for fr in &r.results {
        for m in &fr.matches {
            out.push((fr.path.clone(), m.line, m.match_ranges.clone()));
        }
    }
    out
}

#[test]
fn end_to_end_scenario() {
    let tree: Tree = vec![
        ("/root".to_string(), vec![subdir("/root/a"), subdir("/root/b")]),
        ("/root/a".to_string(), vec![file("/root/a/file1.txt", "foo bar foo")]),
        (
            "/root/b".to_string(),
            vec![raw_file("/root/b/file2.bin", Some(4), Some(vec![0x66, 0x00, 0x6f, 0x6f]))],
        ),
    ];
    let r = drive(&tree, "/root", "foo", false, true, false, None);

    assert_eq!(r.results.len(), 1);
    assert_eq!(r.results[0].path, "/root/a/file1.txt");
    assert_eq!(r.results[0].matches.len(), 1);
    assert_eq!(r.results[0].matches[0].line, 1);
    assert_eq!(r.results[0].matches[0].content, "foo bar foo");
    assert_eq!(r.results[0].matches[0].match_ranges.len(), 2);
    assert_eq!(r.results[0].matches[0].match_ranges[0], [0, 3]);
    assert_eq!(r.results[0].matches[0].match_ranges[1], [8, 11]);
    assert_eq!(r.stats.total_matches, 2);
    assert_eq!(r.stats.files_searched, 1);
    assert_eq!(r.stats.directories_searched, 3);
    assert!(!r.cancelled);
    assert!(!r.curtailed);
}

#[test]
fn identical_searches_agree() {
    let tree: Tree = vec![
        ("/root".to_string(), vec![subdir("/root/a"), subdir("/root/b")]),
        (
            "/root/a".to_string(),
            vec![file("/root/a/one.txt", "alpha beta\nbeta alpha"), file("/root/a/two.txt", "beta")],
        ),
        ("/root/b".to_string(), vec![file("/root/b/three.txt", "nothing here\nbeta beta")]),
    ];
    let r1 = drive(&tree, "/root", "beta", false, true, false, None);
    let r2 = drive(&tree, "/root", "beta", false, true, false, None);

    assert!(!tuples(&r1).is_empty());
    assert_eq!(tuples(&r1), tuples(&r2));
}

#[test]
fn per_directory_cap_limits_one_directory() {
    let mut files = Vec::new();
    for i in 0..1000 {
        files.push(file(&format!("/root/f{}.txt", i), "needle"));
    }
    let tree: Tree = vec![("/root".to_string(), files)];
    let r = drive(&tree, "/root", "needle", false, true, false, None);

    // At most 20 results survive the per-directory truncation...
    assert_eq!(r.results.len(), 20);
    // ...which never raises the curtailed flag on its own.
    assert!(!r.curtailed);
    // Every file was examined against the directory's budget...
    assert_eq!(r.stats.files_searched, 1000);
    // ...but only the files within the scan budget were actually scanned.
    assert_eq!(r.stats.total_matches, 300);
}

#[test]
fn global_cap_curtails_search() {
    let mut tree: Tree = Vec::new();
    let mut top = Vec::new();
    for d in 0..30 {
        top.push(subdir(&format!("/root/d{}", d)));
    }
    tree.push(("/root".to_string(), top));
    for d in 0..30 {
        let mut files = Vec::new();
        for i in 0..25 {
            files.push(file(&format!("/root/d{}/f{}.txt", d, i), "m"));
        }
        tree.push((format!("/root/d{}", d), files));
    }
    let r = drive(&tree, "/root", "m", false, true, false, None);

    assert!(r.curtailed);
    assert!(!r.cancelled);
    assert!(r.results.len() >= 300);
    // Not every directory was reached: the cap stopped the walk early.
    assert!(r.stats.directories_searched < 31);
}

#[test]
fn cancellation_returns_partial_results() {
    let tree: Tree = vec![
        ("/root".to_string(), vec![subdir("/root/a"), subdir("/root/b"), subdir("/root/c")]),
        ("/root/a".to_string(), vec![file("/root/a/one.txt", "hit")]),
        ("/root/b".to_string(), vec![file("/root/b/two.txt", "hit")]),
        ("/root/c".to_string(), vec![file("/root/c/three.txt", "hit")]),
    ];
    let r = drive(&tree, "/root", "hit", false, true, false, Some(2));

    assert!(r.cancelled);
    assert!(!r.curtailed);
    // The matches were counted, but the un-flushed batch is discarded on
    // cancellation, so the partial result set may be empty.
    assert_eq!(r.results.len(), 0);
    assert!(r.stats.total_matches > 0);
}

#[test]
fn cancel_slot_install_and_take() {
    let mut slot: CancelSlot<u32> = CancelSlot::empty();
    assert!(slot.occupant.is_none());
    // The first search installs its handle into the empty slot.
    assert_eq!(slot.install(7), None);
    // A second search silently takes over cancellation control.
    assert_eq!(slot.install(8), Some(7));
    // A cancel request takes the pending handle...
    assert_eq!(slot.take(), Some(8));
    // ...and a late or repeated cancel finds the slot empty: a no-op.
    assert_eq!(slot.take(), None);
}

#[test]
fn excluded_files_never_appear() {
    let oversized = 10 * 1024 * 1024 + 1;
    let tree: Tree = vec![
        (
            "/root".to_string(),
            vec![
                raw_file("/root/binary.dat", Some(9), Some(b"need\0le i".to_vec())),
                raw_file("/root/huge.txt", Some(oversized), Some(b"needle".to_vec())),
                raw_file("/root/edge.txt", Some(10 * 1024 * 1024), Some(b"needle".to_vec())),
            ],
        ),
    ];
    let r = drive(&tree, "/root", "needle", false, true, false, None);

    // Only the file at exactly the size ceiling is searched; the null-byte
    // file and the oversized file are excluded whatever they contain.
    assert_eq!(r.results.len(), 1);
    assert_eq!(r.results[0].path, "/root/edge.txt");
    assert_eq!(r.stats.files_searched, 1);
}

#[test]
fn unreadable_probes_and_bad_text_are_tolerated() {
    let tree: Tree = vec![
        (
            "/root".to_string(),
            vec![
                // Size probe failed, bytes unreadable: counted, no result.
                raw_file("/root/gone.txt", None, None),
                // Bytes that are not text: counted, no result.
                raw_file("/root/latin1.txt", Some(2), Some(vec![0xff, 0xfe])),
                subdir("/root/vanished"),
                file("/root/ok.txt", "needle"),
            ],
        ),
        // "/root/vanished" has no listing: the directory is skipped
        // silently and the search goes on.
    ];
    let r = drive(&tree, "/root", "needle", false, true, false, None);

    assert_eq!(r.results.len(), 1);
    assert_eq!(r.results[0].path, "/root/ok.txt");
    assert_eq!(r.stats.files_searched, 3);
    assert_eq!(r.stats.directories_searched, 1);
    assert!(!r.cancelled && !r.curtailed);
}

#[test]
fn priority_directories_are_searched_first() {
    let tree: Tree = vec![
        ("/root".to_string(), vec![subdir("/root/zebra"), subdir("/root/src")]),
        ("/root/zebra".to_string(), vec![file("/root/zebra/z.txt", "needle")]),
        ("/root/src".to_string(), vec![file("/root/src/s.txt", "needle")]),
    ];
    let r = drive(&tree, "/root", "needle", false, true, false, None);

    assert_eq!(r.results.len(), 2);
    assert_eq!(r.results[0].path, "/root/src/s.txt");
    assert_eq!(r.results[1].path, "/root/zebra/z.txt");
}

#[test]
fn revisited_directory_is_skipped() {
    // A duplicate enqueue of the root must not loop or double-count.
    let tree: Tree = vec![("/root".to_string(), vec![subdir("/root"), file("/root/a.txt", "x")])];
    let r = drive(&tree, "/root", "x", false, true, false, None);

    assert_eq!(r.stats.directories_searched, 1);
    assert_eq!(r.results.len(), 1);
}

#[test]
fn batch_flush_thresholds() {
    let matcher = build_regex("x", false, true, false).unwrap();
    let mut engine = SearchEngine::new("/root", 600_000);
    let _ = engine.take_next_dir();
    let mut pass = DirPass::new();
    for i in 0..3 {
        engine.process_directory_entry(
            to_entry(&file(&format!("/root/f{}.txt", i), "x")),
            &matcher,
            &mut pass,
        );
    }
    engine.finish_directory(pass);

    // Three pending results: not enough for a size flush, but an elapsed
    // early-results timer forces one.
    assert!(!engine.batch_due(false));
    assert!(engine.batch_due(true));

    let snapshot = engine.flush_batch(17);
    assert_eq!(snapshot.results.len(), 3);
    assert!(!snapshot.cancelled);
    assert!(!snapshot.curtailed);
    assert_eq!(snapshot.processing_time_ms, 17);
    assert_eq!(snapshot.stats.total_matches, 3);

    // After the flush the batch is empty and the results are kept.
    assert!(!engine.batch_due(true));
    let progress = engine.progress(21);
    assert_eq!(progress.files_searched, 3);
    assert_eq!(progress.directories_searched, 1);
    assert_eq!(progress.total_matches, 3);
    assert_eq!(progress.processing_time_ms, 21);

    let r = engine.finish_complete(42);
    assert_eq!(r.results.len(), 3);
    assert_eq!(r.processing_time_ms, 42);
}

#[test]
fn timeout_curtails_search() {
    let tree: Tree = vec![("/root".to_string(), vec![file("/root/a.txt", "x")])];
    let matcher = build_regex("x", false, true, false).unwrap();
    let mut engine = SearchEngine::new("/root", 100);
    let mut curtailed_seen = false;
    loop {
        let current = match engine.take_next_dir() {
            None => break,
            Some(d) => d,
        };
        // The wall clock has run past the 100 ms budget.
        if engine.should_curtail(101) {
            engine.mark_curtailed();
            curtailed_seen = true;
            break;
        }
        if !engine.mark_visited(&current) {
            continue;
        }
        if let Some(entries) = lookup(&tree, &current) {
            let mut pass = DirPass::new();
            for e in entries {
                engine.process_directory_entry(to_entry(e), &matcher, &mut pass);
            }
            engine.finish_directory(pass);
        }
    }
    let r = engine.finish_complete(101);

    assert!(curtailed_seen);
    assert!(r.curtailed);
    assert!(!r.cancelled);
    assert_eq!(r.results.len(), 0);
}
