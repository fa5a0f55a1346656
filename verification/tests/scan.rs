use dscan11::categories::{load_category_rules, CategoryConfig, CategoryRules};
use dscan11::config::{FileRead, CATEGORY_CONFIG_VERSION};
use dscan11::journal::{cache_savings_totals, manual_cleanup_totals};
use dscan11::names::NameMap;
use dscan11::status::{print_status, status};
use dscan11::views::{print_files, print_summary};
use dscan11::workspace::workspace_cache_paths;
use dscan11::paths::PathStyle;
use dscan11::builtin::builtin_rules;
use dscan11::clock::current_unix;
use dscan11::config::{audit_scan_top_limit, AppConfig};
use dscan11::error::CliError;
use dscan11::roots::{
    cloud_placeholder_attributes, compressed_size, discover_default_roots, placeholder_size,
    possible_drives, roots_match, total_capacity_for_roots,
};
use dscan11::scan::{
    check_scan_roots, elapsed_ms, merge_all, scan_paths, scan_paths_at, should_skip_dir,
    PartialScan, RootScan, ScanEvent,
};
use dscan11::snapshot::{ScanStats, SizedEntry, Snapshot};
use dscan11::toplist::TopList;

const STYLE: PathStyle = PathStyle::Windows;

fn sized_entry(path: &str, bytes: u64, allocated_bytes: u64) -> SizedEntry {
    SizedEntry {
        path: path.to_string(),
        bytes,
        allocated_bytes,
        files: None,
        category: Some("Other".to_string()),
    }
}

fn file(path: &str, bytes: u64, allocated: Option<u64>) -> ScanEvent {
    ScanEvent::File {
        path: path.to_string(),
        bytes,
        allocated,
    }
}

/// Walks a made-up tree: each folder with what the walker meets in it.
fn walk(root: &str, limit: usize, folders: Vec<(&str, Vec<ScanEvent>)>) -> PartialScan {
    let rules = builtin_rules();
    let mut walk = RootScan::new(STYLE, root.to_string(), 0, AppConfig::default().skip_names, limit);
    let mut folders = folders;
    while let Some(dir) = walk.next() {
        let at = folders
            .iter()
            .position(|(path, _)| *path == dir.path)
            .expect("a folder of the tree");
        let (_, events) = folders.remove(at);
        for event in events {
            walk.take(event, &rules);
        }
    }
    walk.scan
}

fn snapshot_of(scan: PartialScan, limit: usize) -> Snapshot {
    scan_paths_at(
        vec!["C:\\t".to_string()],
        scan,
        &builtin_rules(),
        limit,
        None,
        ScanStats::default(),
        7,
    )
}

#[test]
fn scan_temp_tree_finds_largest_files_and_folders() {
    let dir = r"C:\scan_temp_tree";
    let scan = walk(
        dir,
        10,
        vec![
            (
                dir,
                vec![
                    ScanEvent::DirOpened,
                    ScanEvent::Folder {
                        handle: 1,
                        path: r"C:\scan_temp_tree\docs".to_string(),
                    },
                    file(r"C:\scan_temp_tree\video.mp4", 4_096, None),
                ],
            ),
            (
                r"C:\scan_temp_tree\docs",
                vec![
                    ScanEvent::DirOpened,
                    file(r"C:\scan_temp_tree\docs\a.pdf", 2_048, None),
                ],
            ),
        ],
    );
    let snapshot = scan_paths(
        vec![dir.to_string()],
        scan,
        &builtin_rules(),
        10,
        None,
        ScanStats::default(),
    )
    .expect("scan");

    assert_eq!(snapshot.file_count, 2);
    assert_eq!(snapshot.folder_count, 2);
    assert_eq!(snapshot.total_bytes, 6_144);
    assert!(snapshot.total_allocated_bytes > 0);
    assert_eq!(snapshot.largest_files[0].bytes, 4_096);
    assert!(snapshot.largest_files[0].allocated_bytes > 0);
    assert!(snapshot.categories.iter().any(|category| category.name == "Videos"
        && category.bytes == 4_096
        && category.allocated_bytes > 0));
    assert!(snapshot
        .largest_folders
        .iter()
        .any(|entry| entry.path == dir && entry.bytes == 6_144 && entry.files == Some(2)));
    assert!(snapshot.category_rules_fingerprint.is_some());
    assert!(snapshot.scan_stats.elapsed_ms < u64::MAX);
    assert!(snapshot.scanned_at_unix <= current_unix().expect("time"));
}

#[test]
fn scan_classifies_path_rule_storage_roots() {
    let root = r"C:\path-rules";
    let scan = walk(
        root,
        10,
        vec![(
            root,
            vec![
                file(r"C:\path-rules\.ollama\models\blobs\sha256-abc", 4_096, None),
                file(r"C:\path-rules\.docker\desktop\vm-data\ext4.vhdx", 8_192, None),
            ],
        )],
    );
    let snapshot = snapshot_of(scan, 10);
    let names: Vec<&str> = snapshot.categories.iter().map(|c| c.name.as_str()).collect();
    assert_eq!(names, vec!["Docker / Containers", "AI Models"]);
}

#[test]
fn protected_folders_and_failures_are_recorded() {
    let root = r"C:\";
    let scan = walk(
        root,
        10,
        vec![
            (
                root,
                vec![
                    ScanEvent::DirOpened,
                    ScanEvent::Folder { handle: 1, path: r"C:\windows".to_string() },
                    ScanEvent::Folder { handle: 2, path: r"C:\locked".to_string() },
                    ScanEvent::Symlink { path: r"C:\link".to_string() },
                    ScanEvent::EntryFailed {
                        path: r"C:\odd".to_string(),
                        reason: "Other".to_string(),
                    },
                    ScanEvent::Other,
                ],
            ),
            (
                r"C:\locked",
                vec![ScanEvent::DirFailed {
                    path: r"C:\locked".to_string(),
                    reason: "PermissionDenied".to_string(),
                    denied: true,
                }],
            ),
        ],
    );
    assert_eq!(scan.folder_count, 1);
    assert_eq!(scan.access_denied_count, 1);
    let skipped: Vec<(&str, &str)> = scan
        .skipped
        .iter()
        .map(|s| (s.path.as_str(), s.reason.as_str()))
        .collect();
    assert_eq!(
        skipped,
        vec![
            (r"C:\link", "symbolic link"),
            (r"C:\odd", "Other"),
            (r"C:\locked", "PermissionDenied"),
            (r"C:\windows", "configured protected directory"),
        ]
    );
    let names = AppConfig::default().skip_names;
    assert!(should_skip_dir(STYLE, r"D:\x\WINDOWS", r"D:\x", &names));
    assert!(!should_skip_dir(STYLE, r"D:\Windows", r"d:\Windows\", &names));
}

#[test]
fn every_folder_above_counts_a_file_once() {
    let root = r"C:\r";
    let scan = walk(
        root,
        10,
        vec![(
            root,
            vec![
                file(r"C:\r\a\b\one.txt", 10, Some(4)),
                file(r"C:\r\a\two.txt", 5, Some(0)),
                file(r"C:\elsewhere\three.txt", 7, None),
            ],
        )],
    );
    let snapshot = snapshot_of(scan, 10);
    let sizes: Vec<(&str, u64, u64, Option<u64>)> = snapshot
        .largest_folders
        .iter()
        .map(|e| (e.path.as_str(), e.bytes, e.allocated_bytes, e.files))
        .collect();
    assert_eq!(
        sizes,
        vec![
            (r"C:\r", 15, 4, Some(2)),
            (r"C:\r\a", 15, 4, Some(2)),
            (r"C:\r\a\b", 10, 4, Some(1)),
        ]
    );
}

#[test]
fn scans_of_several_roots_add_up() {
    let one = walk(r"C:\a", 2, vec![(r"C:\a", vec![ScanEvent::DirOpened, file(r"C:\a\x.txt", 3, None)])]);
    let two = walk(
        r"D:\b",
        2,
        vec![(
            r"D:\b",
            vec![
                ScanEvent::DirOpened,
                file(r"D:\b\y.txt", 5, None),
                file(r"D:\b\z.mp4", 4, None),
            ],
        )],
    );
    let all = merge_all(2, vec![one, two]);
    assert_eq!((all.total_bytes, all.file_count, all.folder_count), (12, 3, 2));
    let mut other = walk(r"C:\a", 2, vec![(r"C:\a", vec![file(r"C:\a\x.mp4", 3, None)])]);
    let one = walk(r"E:\", 2, vec![(r"E:\", vec![file(r"E:\y.mp4", 4, None)])]);
    other.merge(one);
    assert_eq!(other.categories.get("Videos").expect("videos").bytes, 7);
    let snapshot = snapshot_of(all, 1);
    assert_eq!(snapshot.largest_folders.len(), 1);
    assert_eq!(snapshot.largest_folders[0].path, r"D:\b");
    let files: Vec<&str> = snapshot.largest_files.iter().map(|e| e.path.as_str()).collect();
    assert_eq!(files, vec![r"D:\b\y.txt", r"D:\b\z.mp4"]);
    let documents = snapshot.categories.iter().find(|c| c.name == "Documents").expect("documents");
    assert_eq!((documents.bytes, documents.files), (8, 2));
    let sum: u64 = snapshot.categories.iter().map(|c| c.bytes).sum();
    assert_eq!(sum, snapshot.total_bytes);
}

#[test]
fn top_files_rank_by_logical_size() {
    let mut top = TopList::new(2);
    top.push(sized_entry("smaller-allocated.bin", 100, 1_000));
    top.push(sized_entry("larger-logical.bin", 200, 200));
    top.push(sized_entry("middle.bin", 150, 150));

    let entries = top.into_sorted_vec();
    assert_eq!(entries[0].path, "larger-logical.bin");
    assert_eq!(entries[1].path, "middle.bin");
}

#[test]
fn a_list_keeps_the_largest_in_any_order() {
    let mut entries = Vec::new();
    for n in 0..40u64 {
        entries.push(sized_entry(&format!("f{n}"), (n * 7) % 40, n));
    }
    let mut top = TopList::new(5);
    top.extend(entries);
    let kept: Vec<u64> = top.into_sorted_vec().iter().map(|e| e.bytes).collect();
    assert_eq!(kept, vec![39, 38, 37, 36, 35]);
    let mut none = TopList::new(0);
    none.push(sized_entry("f", 1, 1));
    assert!(none.into_sorted_vec().is_empty());
}

#[test]
fn scan_missing_root_fails_without_cache_snapshot() {
    let roots = vec![r"C:\a".to_string(), r"C:\does-not-exist".to_string()];
    let err = check_scan_roots(&roots, &vec![true, false]).expect_err("missing root should fail");
    assert_eq!(
        err.text(),
        r"scan root does not exist or is not a directory: C:\does-not-exist"
    );
    assert_eq!(err.exit_code(), 2);
    assert_eq!(
        check_scan_roots(&vec![], &vec![]).expect_err("no roots").text(),
        "no scan roots were found"
    );
    assert!(check_scan_roots(&roots, &vec![true, true]).is_ok());
}

#[test]
fn root_matching_is_order_independent() {
    let dir = r"C:\root_matching".to_string();
    let child = r"C:\root_matching\child".to_string();
    assert!(roots_match(
        &vec![child.clone(), dir.clone()],
        &vec![dir.clone(), child.clone()]
    ));
    assert!(!roots_match(&vec![dir.clone()], &vec![dir.clone(), child]));
    assert!(roots_match(&vec![r"c:\ROOT_matching\".to_string()], &vec![dir]));
}

#[test]
fn volumes_are_counted_once() {
    let v = |name: &str, size| Some((name.to_string(), size));
    assert_eq!(total_capacity_for_roots(&vec![]), None);
    assert_eq!(total_capacity_for_roots(&vec![None, None]), None);
    assert_eq!(
        total_capacity_for_roots(&vec![v("c", 5), None, v("d", 7), v("c", 9)]),
        Some(12)
    );
    assert_eq!(
        total_capacity_for_roots(&vec![v("c", u64::MAX), v("d", 7)]),
        Some(u64::MAX)
    );
}

#[test]
fn detects_cloud_placeholder_attributes() {
    assert!(cloud_placeholder_attributes(0x0000_1000));
    assert!(cloud_placeholder_attributes(0x0004_0000));
    assert!(cloud_placeholder_attributes(0x0040_0000));
    assert!(!cloud_placeholder_attributes(0));
    assert_eq!(placeholder_size(0x0040_0020), Some(0));
    assert_eq!(placeholder_size(0x20), None);
    assert_eq!(placeholder_size(u32::MAX), None);
}

#[test]
fn sizes_on_disk_come_in_two_halves() {
    assert_eq!(compressed_size(5, 2, 0), Some((2u64 << 32) | 5));
    assert_eq!(compressed_size(u32::MAX, 0, 0), Some(u64::from(u32::MAX)));
    assert_eq!(compressed_size(u32::MAX, 0, 5), None);
}

#[test]
fn drives_are_found_in_order() {
    let drives = possible_drives();
    assert_eq!(drives.len(), 26);
    assert_eq!((drives[0].as_str(), drives[25].as_str()), (r"A:\", r"Z:\"));
    let mut present = vec![false; 26];
    assert_eq!(
        discover_default_roots(&present).expect_err("none").text(),
        "no fixed local drives were discovered"
    );
    present[2] = true;
    present[3] = true;
    assert_eq!(
        discover_default_roots(&present).expect("drives"),
        vec![r"C:\", r"D:\"]
    );
}

#[test]
fn numbers_of_a_scan_have_limits() {
    assert_eq!(elapsed_ms(12), 12);
    assert_eq!(elapsed_ms(u128::MAX), u64::MAX);
    let mut config = AppConfig::default();
    assert_eq!(audit_scan_top_limit(&config, 5), 10_000);
    assert_eq!(audit_scan_top_limit(&config, 20_000), 20_000);
    config.top_limit = 30_000;
    assert_eq!(audit_scan_top_limit(&config, 20_000), 30_000);
}

#[test]
fn errors_have_texts_and_exit_codes() {
    let io = CliError::Io { context: "a".to_string(), source: "b".to_string() };
    assert_eq!((io.text().as_str(), io.exit_code()), ("a: b", 1));
    let json = CliError::Json { context: "c".to_string(), source: "d".to_string() };
    assert_eq!((json.text().as_str(), json.exit_code()), ("c: d", 1));
    assert_eq!(CliError::Message("m".to_string()).exit_code(), 2);
}

#[test]
fn the_largest_files_of_all_roots_are_kept() {
    let scan_of = |root: &str, sizes: &[u64]| {
        let mut scan = PartialScan::with_limit(3);
        for size in sizes {
            let path = format!(r"{root}\f{size}.txt");
            scan.add_file(STYLE, root, path, *size, *size, "Documents".to_string());
        }
        scan
    };
    let parts = vec![
        scan_of(r"C:\a", &[5, 90, 1, 40]),
        scan_of(r"D:\b", &[70, 2, 60, 3]),
        scan_of(r"E:\c", &[80]),
    ];
    let snapshot = snapshot_of(merge_all(3, parts), 3);
    let kept: Vec<u64> = snapshot.largest_files.iter().map(|file| file.bytes).collect();
    assert_eq!(kept, vec![90, 80, 70]);
    assert_eq!(snapshot.categories.len(), 1);
    assert_eq!(snapshot.categories[0].files, 9);
}

fn status_lines(snapshot: &Snapshot, rules: &CategoryRules) -> Vec<String> {
    let paths = workspace_cache_paths(STYLE, r"C:\L\dscan11", "default").expect("paths");
    let made = status(
        snapshot,
        &paths,
        &AppConfig::default(),
        Some(rules),
        &Err(CliError::Message("none".to_string())),
        manual_cleanup_totals(&vec![]),
        cache_savings_totals(&vec![]),
    )
    .expect("status");
    print_status(&made)
}

#[test]
fn cli_scan_and_cached_views_work_on_temp_tree() {
    let tree = r"C:\dscan-tree";
    let scan = walk(
        tree,
        10,
        vec![(
            tree,
            vec![
                ScanEvent::DirOpened,
                file(r"C:\dscan-tree\big.iso", 8_192, None),
                file(r"C:\dscan-tree\notes.txt", 1_024, None),
            ],
        )],
    );
    let snapshot = snapshot_of(scan, 10);
    assert!(snapshot.categories.iter().any(|c| c.name == "Disk Images / VMs"));
    assert!(print_summary(&snapshot, 40, None).iter().any(|line| line.contains("Disk Images / VMs")));
    assert!(print_files(&snapshot, 40, None).iter().any(|line| line.contains("big.iso")));
    assert!(snapshot.largest_folders.iter().any(|folder| folder.path.contains("dscan-tree")));
    let stdout = status_lines(&snapshot, &builtin_rules()).join("\n");
    for header in [
        "Scan status",
        "Scan freshness",
        "scanned at:",
        "stale on:",
        "Cache",
        "Drive scope",
        "Inventory",
        "Manual cleanups",
        "Cache savings",
        "Category rules",
        "Performance",
    ] {
        assert!(
            stdout.contains(header),
            "status output did not contain header {header:?}:\n{stdout}"
        );
    }
}

#[test]
fn status_reports_changed_category_rules_but_summary_stays_snapshot_only() {
    let tree = r"C:\category-tree";
    let scan = walk(
        tree,
        10,
        vec![(tree, vec![ScanEvent::DirOpened, file(r"C:\category-tree\movie.mkv", 1_024, None)])],
    );
    let snapshot = snapshot_of(scan, 10);
    let unchanged = status_lines(&snapshot, &builtin_rules()).join("\n");
    assert!(unchanged.contains("category rules: unchanged"));

    let mut categories: NameMap<Vec<String>> = NameMap::new();
    categories.insert("Custom Video".to_string(), vec!["mkv".to_string()]);
    categories.insert("Documents".to_string(), vec!["txt".to_string()]);
    let config = CategoryConfig { version: CATEGORY_CONFIG_VERSION, categories, path_rules: None };
    let rules = CategoryRules::from_config(config, "categories.json".to_string()).expect("rules");
    let changed = status_lines(&snapshot, &rules).join("\n");
    assert!(changed.contains("category rules: changed since scan"));

    let broken = load_category_rules(
        "categories.json",
        FileRead::Unparsed("key must be a string".to_string()),
    );
    assert!(broken.is_err());
    assert!(print_summary(&snapshot, 40, None).iter().any(|line| line.contains("Videos")));
}

#[test]
fn scans_follow_the_rules_of_unix_where_asked_to() {
    let rules = builtin_rules();
    let mut walk = RootScan::new(PathStyle::Unix, "/t".to_string(), 0, vec![], 5);
    assert!(walk.next().is_some());
    walk.take(file(r"/t/a/b\target\c", 4, None), &rules);
    walk.take(file("/t/a/target/d", 3, None), &rules);
    assert_eq!(walk.scan.categories.get("Developer / Code").expect("code").bytes, 3);
    let snapshot = snapshot_of(walk.scan, 5);
    let folders: Vec<(&str, u64)> =
        snapshot.largest_folders.iter().map(|f| (f.path.as_str(), f.bytes)).collect();
    assert_eq!(folders, vec![("/t", 7), ("/t/a", 7), ("/t/a/target", 3)]);
}
