use dscan11::clock::{current_unix, TimestampedEvent};
use dscan11::config::{
    load_base_snapshot, load_or_default_config, load_snapshot, supported_version, AppConfig,
    FileRead, CACHE_USAGE_JOURNAL_VERSION, CLEANUP_JOURNAL_VERSION,
};
use dscan11::double::Double;
use dscan11::error::CliError;
use dscan11::journal::{
    append_cleanup_journal, cache_mode, cache_savings_totals, checked_cleanup_totals,
    cleanup_entry_at, fast_forward_cache, find_cached_entry_by_path, journal_line_context,
    journal_lines, manual_cleanup_totals, mark_cached_path_removed, mark_cached_path_removed_at,
    navigation_target_from_label, navigation_target_label, print_cleanup_journal,
    record_cache_usage, restore_base_cache, CacheMode, CacheUsageEventKind,
};
use dscan11::prune::{
    category_sums_fit, path_is_under, prune_cached_entry, same_path, NavigationTarget, PruneResult,
};
use dscan11::snapshot::{
    CategoryTotal, ScanStats, SizedEntry, SkippedPath, Snapshot, SNAPSHOT_VERSION,
};

fn sized_entry(path: &str, bytes: u64, allocated_bytes: u64) -> SizedEntry {
    SizedEntry {
        path: path.to_string(),
        bytes,
        allocated_bytes,
        files: None,
        category: Some("Other".to_string()),
    }
}

fn folder(path: &str, bytes: u64, allocated_bytes: u64, files: u64) -> SizedEntry {
    SizedEntry {
        path: path.to_string(),
        bytes,
        allocated_bytes,
        files: Some(files),
        category: None,
    }
}

fn snapshot() -> Snapshot {
    Snapshot {
        version: SNAPSHOT_VERSION,
        scanned_at_unix: current_unix().expect("time"),
        roots: vec![r"C:\cache-test".to_string()],
        total_bytes: 0,
        total_allocated_bytes: 0,
        total_capacity_bytes: Some(10_000),
        file_count: 0,
        folder_count: 0,
        categories: vec![],
        largest_files: vec![],
        largest_folders: vec![],
        skipped: vec![],
        access_denied_count: 0,
        category_rules_fingerprint: None,
        category_rules_source: None,
        scan_stats: ScanStats::default(),
    }
}

fn copy(snapshot: &Snapshot) -> Snapshot {
    Snapshot {
        version: snapshot.version,
        scanned_at_unix: snapshot.scanned_at_unix,
        roots: snapshot.roots.clone(),
        total_bytes: snapshot.total_bytes,
        total_allocated_bytes: snapshot.total_allocated_bytes,
        total_capacity_bytes: snapshot.total_capacity_bytes,
        file_count: snapshot.file_count,
        folder_count: snapshot.folder_count,
        categories: snapshot.categories.clone(),
        largest_files: snapshot.largest_files.clone(),
        largest_folders: snapshot.largest_folders.clone(),
        skipped: snapshot.skipped.clone(),
        access_denied_count: snapshot.access_denied_count,
        category_rules_fingerprint: snapshot.category_rules_fingerprint.clone(),
        category_rules_source: snapshot.category_rules_source.clone(),
        scan_stats: snapshot.scan_stats,
    }
}

fn project_snapshot() -> Snapshot {
    let mut s = snapshot();
    s.total_bytes = 750;
    s.total_allocated_bytes = 1_200;
    s.file_count = 3;
    s.folder_count = 5;
    s.categories = vec![CategoryTotal {
        name: "Other".to_string(),
        bytes: 300,
        allocated_bytes: 500,
        files: 2,
    }];
    s.largest_files = vec![
        sized_entry(r"C:\cache-test\project\gone\a.bin", 100, 200),
        sized_entry(r"C:\cache-test\project\gone\child\b.bin", 200, 300),
        sized_entry(r"C:\cache-test\keep\c.bin", 450, 700),
    ];
    s.largest_folders = vec![
        folder(r"C:\cache-test", 750, 1_200, 3),
        folder(r"C:\cache-test\project", 300, 500, 2),
        folder(r"C:\cache-test\project\gone", 300, 500, 2),
        folder(r"C:\cache-test\project\gone\child", 200, 300, 1),
        folder(r"C:\cache-test\keep", 450, 700, 1),
    ];
    s
}

fn at(seconds: u64) -> TimestampedEvent {
    TimestampedEvent {
        unix_seconds: seconds,
        utc: format!("second {seconds}"),
    }
}

#[test]
fn prunes_missing_cached_folder_without_rescan() {
    let mut snapshot = project_snapshot();
    let entry = snapshot.largest_folders[2].clone();

    let result = prune_cached_entry(&mut snapshot, NavigationTarget::Folder, &entry);

    assert_eq!(
        result,
        PruneResult {
            removed_files: 2,
            removed_folders: 2,
        }
    );
    assert_eq!(snapshot.total_bytes, 450);
    assert_eq!(snapshot.total_allocated_bytes, 700);
    assert_eq!(snapshot.file_count, 1);
    assert_eq!(snapshot.folder_count, 3);
    assert_eq!(snapshot.largest_files.len(), 1);
    assert_eq!(snapshot.largest_folders.len(), 3);
    assert_eq!(snapshot.largest_folders[0].path, r"C:\cache-test");
    assert_eq!(snapshot.largest_folders[0].bytes, 450);
    assert_eq!(snapshot.largest_folders[0].allocated_bytes, 700);
    assert_eq!(snapshot.largest_folders[0].files, Some(1));
    assert_eq!(snapshot.largest_folders[1].path, r"C:\cache-test\keep");
    assert_eq!(snapshot.largest_folders[1].bytes, 450);
    assert_eq!(snapshot.largest_folders[1].allocated_bytes, 700);
    assert_eq!(snapshot.largest_folders[1].files, Some(1));
    assert_eq!(snapshot.largest_folders[2].path, r"C:\cache-test\project");
    assert_eq!(snapshot.largest_folders[2].bytes, 0);
    assert_eq!(snapshot.largest_folders[2].allocated_bytes, 0);
    assert_eq!(snapshot.largest_folders[2].files, Some(0));
}

#[test]
fn pruning_twice_changes_nothing_more() {
    let mut snapshot = project_snapshot();
    let entry = snapshot.largest_folders[2].clone();
    prune_cached_entry(&mut snapshot, NavigationTarget::Folder, &entry);
    let once = copy(&snapshot);
    prune_cached_entry(&mut snapshot, NavigationTarget::Folder, &entry);
    assert_eq!(snapshot, once);
}

#[test]
fn categories_are_reconciled_with_the_totals() {
    let mut s = snapshot();
    s.total_bytes = 100;
    s.total_allocated_bytes = 100;
    s.file_count = 4;
    s.categories = vec![
        CategoryTotal { name: "Big".to_string(), bytes: 60, allocated_bytes: 60, files: 2 },
        CategoryTotal { name: "Other".to_string(), bytes: 40, allocated_bytes: 40, files: 2 },
    ];
    s.largest_files = vec![sized_entry(r"C:\x\f.bin", 10, 10)];
    s.largest_folders = vec![folder(r"C:\x", 70, 70, 3)];
    let entry = s.largest_folders[0].clone();
    prune_cached_entry(&mut s, NavigationTarget::Folder, &entry);
    assert_eq!((s.total_bytes, s.total_allocated_bytes, s.file_count), (30, 30, 1));
    let bytes: u64 = s.categories.iter().map(|c| c.bytes).sum();
    let files: u64 = s.categories.iter().map(|c| c.files).sum();
    assert_eq!((bytes, files), (30, 1));
    // The file's own category gives first, the rest comes from the others.
    assert_eq!(s.categories.len(), 1);
    assert_eq!(s.categories[0].name, "Big");
    assert_eq!(s.categories[0].files, 1);
}

#[test]
fn a_file_that_is_not_cached_changes_nothing() {
    let mut s = project_snapshot();
    let before = copy(&s);
    let result = prune_cached_entry(
        &mut s,
        NavigationTarget::File,
        &sized_entry(r"C:\elsewhere.bin", 5, 5),
    );
    assert_eq!(result, PruneResult { removed_files: 0, removed_folders: 0 });
    assert_eq!(s, before);
}

#[test]
fn paths_are_compared_without_case_and_separators() {
    assert!(same_path(r"C:\A\b\", "c:/a/B"));
    assert!(path_is_under(r"C:\a\B\c", "c:/A/b/"));
    assert!(path_is_under(r"C:\a", r"C:\a"));
    assert!(!path_is_under(r"C:\ab", r"C:\a"));
}

#[test]
fn cleanup_journal_totals_include_human_sizes() {
    let entry = sized_entry(r"C:\cache-test\gone.bin", 2_048, 4_096);
    let result = PruneResult {
        removed_files: 1,
        removed_folders: 0,
    };
    let mut journal = Vec::new();
    append_cleanup_journal(&mut journal, NavigationTarget::File, &entry, &result)
        .expect("append cleanup");
    assert_eq!(journal[0].version, 1);
    assert_eq!(journal[0].target_type, "file");
    assert!(journal[0].timestamp.utc.ends_with('Z'));

    let totals = manual_cleanup_totals(&journal);
    assert_eq!(totals.events, 1);
    assert_eq!(totals.removed_files, 1);
    assert_eq!(totals.removed_folders, 0);
    assert_eq!(totals.bytes, 2_048);
    assert_eq!(totals.allocated_bytes, 4_096);
    assert_eq!(totals.human_size, "2.00 KB");
    assert_eq!(totals.human_on_disk, "4.00 KB");
    assert_eq!(checked_cleanup_totals(&journal), Some(totals));
}

#[test]
fn totals_stop_at_the_largest_number() {
    let mut journal = Vec::new();
    for n in [u64::MAX, 7] {
        journal.push(cleanup_entry_at(
            NavigationTarget::File,
            &sized_entry("f", n, n),
            &PruneResult { removed_files: usize::MAX, removed_folders: 0 },
            at(1),
        ));
    }
    assert_eq!(checked_cleanup_totals(&journal), None);
    journal[0].removed_files = 0;
    let totals = checked_cleanup_totals(&journal).expect("totals");
    assert_eq!(totals.bytes, u64::MAX);
    assert_eq!(totals.removed_files, usize::MAX);
}

#[test]
fn restore_base_and_fast_forward_replay_cleanup_journal() {
    let mut base = snapshot();
    base.total_bytes = 100;
    base.total_allocated_bytes = 200;
    base.total_capacity_bytes = Some(1_000);
    base.file_count = 1;
    base.folder_count = 1;
    base.categories = vec![CategoryTotal {
        name: "Other".to_string(),
        bytes: 100,
        allocated_bytes: 200,
        files: 1,
    }];
    base.largest_files = vec![sized_entry(r"C:\cache-test\gone.bin", 100, 200)];
    base.largest_folders = vec![folder(r"C:\cache-test", 100, 200, 1)];
    base.scan_stats.elapsed_ms = 123;
    let entry = base.largest_files[0].clone();
    let mut journal = Vec::new();
    append_cleanup_journal(
        &mut journal,
        NavigationTarget::File,
        &entry,
        &PruneResult {
            removed_files: 1,
            removed_folders: 0,
        },
    )
    .expect("append cleanup");

    let present = fast_forward_cache(copy(&base), &journal);
    assert!(present.largest_files.is_empty());
    assert_eq!(present.total_allocated_bytes, 0);
    assert_eq!(
        cache_mode(&Ok(copy(&base)), &present),
        CacheMode::PresentTracked
    );

    let restored = restore_base_cache(Ok(copy(&base))).expect("restore base");
    assert_eq!(restored, base);
    assert_eq!(cache_mode(&Ok(base), &restored), CacheMode::BaseScan);
}

#[test]
fn fast_forward_replays_folder_cleanup_to_cached_ancestors() {
    let mut base = snapshot();
    base.total_bytes = 750;
    base.total_allocated_bytes = 1_200;
    base.file_count = 3;
    base.folder_count = 4;
    base.categories = vec![CategoryTotal {
        name: "Other".to_string(),
        bytes: 750,
        allocated_bytes: 1_200,
        files: 3,
    }];
    base.largest_files = vec![
        sized_entry(r"C:\cache-test\project\gone\a.bin", 100, 200),
        sized_entry(r"C:\cache-test\project\gone\b.bin", 200, 300),
        sized_entry(r"C:\cache-test\keep\c.bin", 450, 700),
    ];
    base.largest_folders = vec![
        folder(r"C:\cache-test", 750, 1_200, 3),
        folder(r"C:\cache-test\project", 300, 500, 2),
        folder(r"C:\cache-test\project\gone", 300, 500, 2),
        folder(r"C:\cache-test\keep", 450, 700, 1),
    ];
    let entry = base.largest_folders[2].clone();
    let mut journal = Vec::new();
    append_cleanup_journal(
        &mut journal,
        NavigationTarget::Folder,
        &entry,
        &PruneResult {
            removed_files: 2,
            removed_folders: 1,
        },
    )
    .expect("append cleanup");

    let present = fast_forward_cache(copy(&base), &journal);

    assert_eq!(present.total_bytes, 450);
    assert_eq!(present.total_allocated_bytes, 700);
    assert_eq!(present.file_count, 1);
    assert_eq!(present.folder_count, 3);
    assert_eq!(present.largest_files.len(), 1);
    assert_eq!(present.largest_folders[0].path, r"C:\cache-test");
    assert_eq!(present.largest_folders[0].bytes, 450);
    assert_eq!(present.largest_folders[0].allocated_bytes, 700);
    assert_eq!(present.largest_folders[0].files, Some(1));
    assert_eq!(present.largest_folders[1].path, r"C:\cache-test\keep");
    assert_eq!(present.largest_folders[2].path, r"C:\cache-test\project");
    assert_eq!(present.largest_folders[2].bytes, 0);
    assert_eq!(present.largest_folders[2].allocated_bytes, 0);
    assert_eq!(present.largest_folders[2].files, Some(0));
    assert_eq!(cache_mode(&Ok(base), &present), CacheMode::PresentTracked);
}

#[test]
fn marking_keeps_up_with_replaying() {
    let base = project_snapshot();
    let mut active = copy(&base);
    let mut journal = Vec::new();
    for (target, path) in [
        (NavigationTarget::File, r"c:/cache-test/KEEP/c.bin"),
        (NavigationTarget::Folder, r"C:\cache-test\project\gone\"),
    ] {
        let marked = mark_cached_path_removed_at(
            active,
            target,
            path,
            Ok(false),
            Ok(at(5)),
            "snapshot.json",
        )
        .expect("marked");
        assert!(marked.report.removed);
        assert_eq!(marked.report.snapshot_path, "snapshot.json");
        assert_eq!(marked.record.timestamp, at(5));
        active = marked.snapshot;
        journal.push(marked.record);
    }
    assert_eq!(journal[1].path, r"C:\cache-test\project\gone");
    assert_eq!(journal[1].removed_folders, 2);
    assert_eq!(fast_forward_cache(base, &journal), active);
}

#[test]
fn only_cached_paths_that_are_gone_are_marked() {
    let refused = |target, path: &str, on_disk| {
        mark_cached_path_removed(project_snapshot(), target, path, on_disk, "s.json")
            .err()
            .expect("refused")
            .text()
    };
    assert_eq!(
        refused(NavigationTarget::File, r"C:\nope", Ok(false)),
        r"cached file path not found in active snapshot: C:\nope"
    );
    assert_eq!(
        refused(NavigationTarget::Folder, r"C:\cache-test\keep", Ok(true)),
        r"cached folder still exists on disk: C:\cache-test\keep"
    );
    assert_eq!(
        refused(
            NavigationTarget::Folder,
            r"C:\cache-test\keep",
            Err(CliError::Io { context: "check".to_string(), source: "io".to_string() })
        ),
        "check: io"
    );
    assert!(find_cached_entry_by_path(
        &project_snapshot(),
        NavigationTarget::File,
        r"c:\CACHE-test/keep/C.BIN"
    )
    .is_some());
}

#[test]
fn cache_usage_savings_exclude_navigation() {
    let mut s = snapshot();
    s.total_bytes = 1_000;
    s.total_allocated_bytes = 2_000;
    s.file_count = 10;
    s.folder_count = 4;
    s.scan_stats.elapsed_ms = 500;

    let mut journal = Vec::new();
    for event in [
        CacheUsageEventKind::Summary,
        CacheUsageEventKind::CacheNavigation,
    ] {
        journal.push(
            record_cache_usage(Ok(copy(&s)), Err(CliError::Message("none".to_string())), event)
                .expect("record"),
        );
    }
    assert_eq!(journal[0].version, 1);

    let totals = cache_savings_totals(&journal);
    assert_eq!(totals.counted_readouts, 1);
    assert_eq!(totals.cache_navigation_count, 1);
    assert_eq!(totals.estimated_allocated_bytes_not_rewalked, 2_000);
    assert_eq!(totals.estimated_files_not_rechecked, 10);
    assert_eq!(totals.estimated_scan_time_saved_ms, 500);
    assert_eq!(totals.estimated_scan_time_saved, "500ms");
}

#[test]
fn usage_is_measured_by_the_base_where_there_is_one() {
    let mut base = snapshot();
    base.total_bytes = 1;
    let mut active = snapshot();
    active.total_bytes = 2;
    let event = CacheUsageEventKind::Files;
    let by_base = record_cache_usage(Ok(base), Ok(copy(&active)), event).expect("base");
    assert_eq!(by_base.basis_total_bytes, 1);
    let none = || Err(CliError::Message("none".to_string()));
    let by_active = record_cache_usage(none(), Ok(active), event).expect("active");
    assert_eq!(by_active.basis_total_bytes, 2);
    assert!(record_cache_usage(none(), none(), event).is_err());
}

#[test]
fn unversioned_and_future_journal_entries_are_handled_explicitly() {
    assert_eq!(
        supported_version(CLEANUP_JOURNAL_VERSION, "cleanup journal", CLEANUP_JOURNAL_VERSION),
        Ok(1)
    );
    let err = supported_version(2, "cleanup journal", CLEANUP_JOURNAL_VERSION)
        .expect_err("future cleanup should fail");
    assert!(err.contains("unsupported cleanup journal version 2"));
    assert_eq!(
        err,
        "unsupported cleanup journal version 2; this dscan11 supports 1"
    );
    let err = supported_version(2, "cache usage journal", CACHE_USAGE_JOURNAL_VERSION)
        .expect_err("future usage should fail");
    assert!(err.contains("unsupported cache usage journal version 2"));
}

#[test]
fn journal_files_are_read_line_by_line() {
    let lines = journal_lines("{\"a\":1}\r\n\n  \t\n{\"b\":2}\r");
    assert_eq!(lines.len(), 2);
    assert_eq!((lines[0].number, lines[0].text.as_str()), (1, "{\"a\":1}"));
    assert_eq!((lines[1].number, lines[1].text.as_str()), (4, "{\"b\":2}\r"));
    assert!(journal_lines("").is_empty());
    assert_eq!(
        journal_line_context("cleanup journal", "j.jsonl", 4),
        "failed to parse cleanup journal j.jsonl line 4"
    );
}

#[test]
fn labels_are_read_back() {
    for target in [NavigationTarget::File, NavigationTarget::Folder] {
        assert_eq!(
            navigation_target_from_label(navigation_target_label(target)),
            target
        );
    }
    assert_eq!(
        navigation_target_from_label("anything"),
        NavigationTarget::Folder
    );
}

#[test]
fn cleanups_are_listed() {
    assert_eq!(print_cleanup_journal(&vec![]), vec!["No manual cleanup entries."]);
    let record = cleanup_entry_at(
        NavigationTarget::File,
        &sized_entry(r"C:\f.bin", 1, 2_048),
        &PruneResult { removed_files: 1, removed_folders: 0 },
        at(3),
    );
    assert_eq!(
        print_cleanup_journal(&vec![record]),
        vec![
            "Manual cleanup journal",
            r"  1. second 3 C:\f.bin (2.00 KB, 1 file(s), 0 folder(s))",
        ]
    );
}

#[test]
fn stale_info_uses_configurable_threshold() {
    let mut snapshot = snapshot();
    snapshot.scanned_at_unix = current_unix().expect("time") - (16 * 86_400);
    assert!(snapshot.stale_info(15).is_stale);
    assert!(!snapshot.stale_info(30).is_stale);
    assert!(!snapshot.stale_info(0).is_stale);
    assert_eq!(snapshot.stale_info_at(0, 15).age_days, 0);
}

#[test]
fn cache_roundtrip_preserves_snapshot() {
    let mut s = snapshot();
    s.total_bytes = 42;
    s.total_allocated_bytes = 42;
    s.total_capacity_bytes = Some(100);
    s.file_count = 1;
    s.folder_count = 1;
    s.categories = vec![CategoryTotal {
        name: "Other".to_string(),
        bytes: 42,
        allocated_bytes: 42,
        files: 1,
    }];
    s.category_rules_fingerprint = Some("fnv1a64:test".to_string());
    s.category_rules_source = Some("builtin".to_string());
    s.scan_stats = ScanStats {
        elapsed_ms: 123,
        files_per_second: Double { bits: 8.0f64.to_bits() },
        folders_per_second: Double { bits: 4.0f64.to_bits() },
        logical_bytes_per_second: Double { bits: 42.0f64.to_bits() },
        allocated_bytes_per_second: Double { bits: 84.0f64.to_bits() },
    };
    let kept = copy(&s);
    let loaded = load_snapshot("snapshot.json", FileRead::Parsed(s)).expect("load");
    assert_eq!(loaded, kept);
    assert!(loaded.equals(&kept));
    assert_eq!(loaded.total_bytes, 42);
    assert_eq!(loaded.file_count, 1);
    assert_eq!(loaded.categories[0].name, "Other");
    assert_eq!(
        loaded.category_rules_fingerprint.as_deref(),
        Some("fnv1a64:test")
    );
    assert_eq!(loaded.scan_stats.elapsed_ms, 123);
}

#[test]
fn unusable_snapshot_files_are_explained() {
    let text = |r: Result<Snapshot, CliError>| r.err().expect("error").text();
    assert_eq!(
        text(load_snapshot("s.json", FileRead::Missing("gone".to_string()))),
        "no cached scan found at s.json; run `dscan11 scan` first"
    );
    assert_eq!(
        text(load_base_snapshot("b.json", FileRead::Missing("gone".to_string()))),
        "no base scan found at b.json; run `dscan11 scan` first"
    );
    assert_eq!(
        text(load_snapshot("s.json", FileRead::Failed("denied".to_string()))),
        "failed to read snapshot s.json: denied"
    );
    assert_eq!(
        text(load_snapshot("s.json", FileRead::Unparsed("eof".to_string()))),
        "failed to parse snapshot s.json: eof"
    );
    let mut old = snapshot();
    old.version = 2;
    assert_eq!(
        text(load_snapshot("s.json", FileRead::Parsed(old))),
        "snapshot version 2 is unsupported by this dscan11 version 3; run `dscan11 scan` to refresh"
    );
}

#[test]
fn settings_have_defaults() {
    let config = load_or_default_config("c.json", FileRead::Missing("gone".to_string()))
        .expect("defaults");
    assert_eq!(config, AppConfig::default());
    assert_eq!((config.stale_days, config.top_limit), (15, 1_000));
    assert_eq!(config.skip_names.len(), 6);
    assert_eq!(
        load_or_default_config("c.json", FileRead::Unparsed("eof".to_string()))
            .expect_err("broken")
            .text(),
        "failed to parse config c.json: eof"
    );
}

#[test]
fn snapshots_differ_in_any_part() {
    let a = project_snapshot();
    let mut b = copy(&a);
    assert!(a.equals(&b));
    b.skipped.push(SkippedPath { path: "p".to_string(), reason: "r".to_string() });
    assert!(!a.equals(&b));
    let mut c = copy(&a);
    c.scan_stats.files_per_second = Double { bits: (-0.0f64).to_bits() };
    assert!(a.equals(&c));
    c.scan_stats.files_per_second = Double { bits: f64::NAN.to_bits() };
    assert!(!c.equals(&copy(&c)));
}

#[test]
fn pruning_takes_out_what_lies_inside_and_nothing_else() {
    let before = project_snapshot();
    let mut after = project_snapshot();
    let entry = before.largest_folders[2].clone();
    prune_cached_entry(&mut after, NavigationTarget::Folder, &entry);
    assert!(after.total_bytes <= before.total_bytes);
    assert!(after.total_allocated_bytes <= before.total_allocated_bytes);
    assert!(after.folder_count <= before.folder_count);
    assert!(!after.largest_files.iter().any(|f| path_is_under(&f.path, &entry.path)));
    assert!(!after.largest_folders.iter().any(|f| path_is_under(&f.path, &entry.path)));
    assert!(after.largest_files.contains(&before.largest_files[2]));
    assert!(after.largest_folders.contains(&before.largest_folders[4]));
    let disk: Vec<u64> = after.largest_folders.iter().map(|f| f.allocated_bytes).collect();
    assert_eq!(disk, vec![700, 700, 0]);
    assert!(category_sums_fit(&after.categories));
    let sum: u64 = after.categories.iter().map(|c| c.bytes).sum();
    assert!(sum <= after.total_bytes);
}

#[test]
fn category_sums_may_not_overflow() {
    let huge = |name: &str| CategoryTotal {
        name: name.to_string(),
        bytes: u64::MAX,
        allocated_bytes: 0,
        files: 0,
    };
    assert!(category_sums_fit(&vec![huge("a")]));
    let mut two = vec![huge("a"), huge("b")];
    assert!(!category_sums_fit(&two));
    two[1].bytes = 0;
    assert!(category_sums_fit(&two));
}

#[test]
fn a_journal_replayed_in_parts_is_replayed_whole() {
    let base = project_snapshot();
    let records: Vec<_> = [
        (NavigationTarget::File, base.largest_files[2].clone()),
        (NavigationTarget::Folder, base.largest_folders[3].clone()),
        (NavigationTarget::Folder, base.largest_folders[3].clone()),
    ]
    .into_iter()
    .map(|(target, entry)| {
        cleanup_entry_at(
            target,
            &entry,
            &PruneResult { removed_files: 1, removed_folders: 0 },
            at(1),
        )
    })
    .collect();
    let mut records = records;
    let whole = fast_forward_cache(copy(&base), &records);
    let last = records.split_off(1);
    let first = fast_forward_cache(copy(&base), &records);
    assert_eq!(fast_forward_cache(first, &last), whole);
    assert_eq!(fast_forward_cache(copy(&base), &vec![]), base);
}
