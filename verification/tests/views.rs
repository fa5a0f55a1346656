use dscan11::paths::PathStyle;
use dscan11::browse::{
    after_open, browse_step, cached_drilldown_entries_are_empty, is_detail_back_choice,
    is_quit_choice, needs_no_answer, parse_detail_menu_choice, screen_lines, screen_prompt,
    OpenOutcome, Screen, Step,
};
use dscan11::builtin::builtin_rules;
use dscan11::clock::{
    current_unix, format_unix_utc, timestamped_event, timestamped_event_at, unix_from_clock,
};
use dscan11::config::AppConfig;
use dscan11::double::Double;
use dscan11::journal::{cache_savings_totals, manual_cleanup_totals, CacheMode};
use dscan11::navigate::{
    cached_navigation_entry, entry_is_missing, explorer_args_for_navigation, navigation_for_entry,
    offer_lines, offer_prompt, offer_prune_missing_entry, offer_reply_lines, open_plan,
    NavigationPath, OpenPlan, PruneOffer,
};
use dscan11::prune::NavigationTarget;
use dscan11::rescan::{
    confirm_rescan, confirm_rescan_keypress, confirm_rescan_line, LineReply, PromptInput,
    PromptStep,
};
use dscan11::snapshot::{CategoryTotal, ScanStats, SizedEntry, Snapshot, SNAPSHOT_VERSION};
use dscan11::status::{
    config_view, print_config, print_status, read_json_version, status, status_at, version_from,
};
use dscan11::views::{
    category_choice_lines, copy_categories, folder_choice_lines, print_browse, print_entry_details,
    print_files, print_folders, print_summary, row_for_entry,
};
use dscan11::workspace::workspace_cache_paths;

const STYLE: PathStyle = PathStyle::Windows;

fn sized_entry(path: &str, bytes: u64, allocated_bytes: u64) -> SizedEntry {
    SizedEntry {
        path: path.to_string(),
        bytes,
        allocated_bytes,
        files: None,
        category: Some("Other".to_string()),
    }
}

fn folder(path: &str, files: u64) -> SizedEntry {
    SizedEntry {
        path: path.to_string(),
        bytes: 100,
        allocated_bytes: 100,
        files: Some(files),
        category: None,
    }
}

fn snapshot() -> Snapshot {
    Snapshot {
        version: SNAPSHOT_VERSION,
        scanned_at_unix: 1_000,
        roots: vec![r"C:\t".to_string(), r"D:\u".to_string()],
        total_bytes: 300,
        total_allocated_bytes: 250,
        total_capacity_bytes: Some(1_000),
        file_count: 2,
        folder_count: 2,
        categories: vec![
            CategoryTotal { name: "Other".to_string(), bytes: 200, allocated_bytes: 200, files: 1 },
            CategoryTotal { name: "Videos".to_string(), bytes: 100, allocated_bytes: 50, files: 1 },
        ],
        largest_files: vec![
            sized_entry(r"C:\t\a\one.bin", 200, 200),
            sized_entry(r"C:\t\two.bin", 100, 50),
        ],
        largest_folders: vec![folder(r"C:\t", 2), folder(r"C:\t\a", 1), folder(r"C:\t\empty", 0)],
        skipped: vec![],
        access_denied_count: 0,
        category_rules_fingerprint: None,
        category_rules_source: None,
        scan_stats: ScanStats::default(),
    }
}

#[test]
fn row_details_split_logical_and_on_disk_sizes() {
    let file = sized_entry("C:\\data\\large.iso", 200, 512);
    let file_row = row_for_entry(&file, NavigationTarget::File);
    assert_eq!(file_row.size_bytes, 200);
    assert_eq!(file_row.allocated_bytes, 512);
    assert_eq!(file_row.usage_bytes, 200);

    let mut folder = sized_entry("C:\\data", 200, 512);
    folder.files = Some(3);
    let folder_row = row_for_entry(&folder, NavigationTarget::Folder);
    assert_eq!(folder_row.size_bytes, 200);
    assert_eq!(folder_row.allocated_bytes, 512);
    assert_eq!(folder_row.usage_bytes, 512);
    assert_eq!(folder_row.detail, "3 files");
}

#[test]
fn json_limit_applies_to_cached_views() {
    let s = snapshot();
    assert_eq!(copy_categories(&s.categories, 1).len(), 1);
    let lines = print_files(&s, 1, None);
    assert_eq!(lines.len(), 3);
    assert_eq!(lines[0], "Files from unix 1000");
    assert!(lines[2].starts_with(r"1. C:\t\a\one.bin"));
    assert_eq!(print_folders(&s, 2, None).len(), 4);
    let summary = print_summary(&s, 1, None);
    assert_eq!(
        summary[..4],
        [
            "Storage summary from unix 1000",
            "Total on disk: 250 B across 2 files",
            "Logical size: 300 B",
            "Scanned scope: 250 B / 1000 B (25.0%)",
        ]
    );
    assert_eq!(summary.len(), 6);
    assert!(summary[5].contains("20.0%"));
}

#[test]
fn parses_numbered_detail_menu_choices() {
    assert_eq!(
        parse_detail_menu_choice("1 7", false, true).expect("parse"),
        Some((NavigationTarget::File, Some(7)))
    );
    assert_eq!(
        parse_detail_menu_choice("2 3", false, false).expect("parse"),
        Some((NavigationTarget::Folder, Some(3)))
    );
    assert!(is_detail_back_choice("2", false, true));
    assert!(is_detail_back_choice("3", false, false));
    assert!(is_quit_choice("q"));
    assert_eq!(
        parse_detail_menu_choice("1", true, false).expect("parse"),
        Some((NavigationTarget::Folder, None))
    );
    assert_eq!(parse_detail_menu_choice("9", false, false).expect("parse"), None);
    assert_eq!(
        parse_detail_menu_choice("1 x", false, false).expect_err("number").text(),
        "file number must be a positive integer"
    );
}

#[test]
fn resolves_navigation_targets_from_cached_ranks() {
    let mut s = snapshot();
    s.largest_files = vec![sized_entry(r"C:\dir\nested\large.iso", 1_024, 1_024)];
    s.largest_folders = vec![folder(r"C:\dir", 1), folder(r"C:\dir\nested", 1)];

    let file = cached_navigation_entry(&s, NavigationTarget::File, 1, 10).expect("file");
    let file_navigation =
        navigation_for_entry(STYLE, &file, NavigationTarget::File, true, true).expect("file nav");
    assert_eq!(file_navigation.path, r"C:\dir\nested\large.iso");
    assert!(file_navigation.select_file);

    let dir = cached_navigation_entry(&s, NavigationTarget::Folder, 1, 10).expect("folder");
    let folder_navigation =
        navigation_for_entry(STYLE, &dir, NavigationTarget::Folder, true, true).expect("folder nav");
    assert_eq!(folder_navigation.path, r"C:\dir");
    assert!(!folder_navigation.select_file);

    let err = cached_navigation_entry(&s, NavigationTarget::File, 2, 10).expect_err("out of range");
    assert!(err.text().contains("file number must be between 1 and 1"));
    assert_eq!(
        cached_navigation_entry(&s, NavigationTarget::Folder, 2, 1).expect_err("limit").text(),
        "folder number must be between 1 and 1"
    );
    s.largest_files.clear();
    assert_eq!(
        cached_navigation_entry(&s, NavigationTarget::File, 1, 10).expect_err("none").text(),
        "no cached file entries"
    );
}

#[test]
fn missing_cached_file_with_existing_parent_navigates_to_parent() {
    let entry = SizedEntry {
        path: r"C:\d\folder with spaces\gone file.tmp".to_string(),
        bytes: 948,
        allocated_bytes: 948,
        files: None,
        category: Some("Temporary / Cache".to_string()),
    };
    let navigation =
        navigation_for_entry(STYLE, &entry, NavigationTarget::File, false, true).expect("navigation");
    assert_eq!(navigation.path, r"C:\d\folder with spaces");
    assert!(!navigation.select_file);
    assert!(navigation.message.contains("cached file was not found"));
    assert_eq!(
        navigation_for_entry(STYLE, &entry, NavigationTarget::File, false, false)
            .expect_err("gone")
            .text(),
        r"cached file and containing folder no longer exist: C:\d\folder with spaces\gone file.tmp"
    );
    assert_eq!(
        navigation_for_entry(STYLE, &sized_entry(r"C:\", 1, 1), NavigationTarget::File, true, true)
            .expect_err("no parent")
            .text(),
        r"cached file has no containing folder: C:\"
    );
}

#[test]
fn missing_cached_file_is_prune_eligible_even_when_parent_exists() {
    let entry = sized_entry(r"C:\cache\gone.bin", 100, 200);
    assert!(entry_is_missing(false));
    assert!(navigation_for_entry(STYLE, &entry, NavigationTarget::File, false, true).is_ok());
    assert_eq!(open_plan(true, false, true), OpenPlan::OfferThenLaunch);
}

#[test]
fn missing_selected_folder_is_prune_eligible() {
    let entry = folder(r"C:\gone", 4);
    assert!(entry_is_missing(false));
    assert!(navigation_for_entry(STYLE, &entry, NavigationTarget::Folder, false, true).is_err());
    assert_eq!(open_plan(false, false, true), OpenPlan::Offer);
    assert_eq!(open_plan(false, false, false), OpenPlan::Fail);
    assert_eq!(open_plan(true, true, true), OpenPlan::Launch);
}

#[test]
fn existing_cached_folder_builds_folder_open_navigation() {
    let entry = folder(r"C:\existing", 10);
    let navigation = navigation_for_entry(STYLE, &entry, NavigationTarget::Folder, true, true)
        .expect("folder navigation");
    assert_eq!(navigation.path, r"C:\existing");
    assert!(!navigation.select_file);
    assert!(navigation.message.contains("Opening Explorer at"));
}

#[test]
fn explorer_args_quote_spacey_paths_for_folder_and_select_modes() {
    let folder_navigation = NavigationPath {
        path: r"C:\Users\Example\Folder With Spaces".to_string(),
        select_file: false,
        message: String::new(),
    };
    assert_eq!(
        explorer_args_for_navigation(&folder_navigation),
        vec![r#"/e,"C:\Users\Example\Folder With Spaces""#.to_string()]
    );

    let file_navigation = NavigationPath {
        path: r"C:\Users\Example\Folder With Spaces\file.bin".to_string(),
        select_file: true,
        message: String::new(),
    };
    assert_eq!(
        explorer_args_for_navigation(&file_navigation),
        vec![r#"/select,"C:\Users\Example\Folder With Spaces\file.bin""#.to_string()]
    );
}

#[test]
fn detects_empty_cached_folder_drilldown_lists() {
    let file_entry = sized_entry(r"C:\cache-test\child.bin", 100, 100);
    let folder_entry = folder(r"C:\cache-test\child", 1);
    assert!(cached_drilldown_entries_are_empty(&[], &[]));
    assert!(!cached_drilldown_entries_are_empty(
        std::slice::from_ref(&file_entry),
        &[]
    ));
    assert!(!cached_drilldown_entries_are_empty(
        &[],
        std::slice::from_ref(&folder_entry)
    ));
}

#[test]
fn missing_entries_are_offered_for_removal() {
    let mut s = snapshot();
    let entry = s.largest_files[0].clone();
    let no = offer_prune_missing_entry(&mut s, NavigationTarget::File, &entry, "n").expect("no");
    assert_eq!(offer_reply_lines(&no, "s.json"), vec!["Cache unchanged."]);
    assert_eq!(s, snapshot());
    let yes = offer_prune_missing_entry(&mut s, NavigationTarget::File, &entry, "YES").expect("yes");
    assert_eq!(
        offer_reply_lines(&yes, "s.json"),
        vec![
            "Tracked removal of 1 file(s) and 0 folder(s).",
            "Saved updated cache snapshot: s.json",
        ]
    );
    match yes {
        PruneOffer::Removed { record, result } => {
            assert_eq!(record.entry, entry);
            assert_eq!(result.removed_files, 1);
        }
        _ => panic!("removed"),
    }
    assert_eq!(s.largest_files.len(), 1);
    let again = offer_prune_missing_entry(&mut s, NavigationTarget::File, &entry, "y").expect("y");
    assert_eq!(
        offer_reply_lines(&again, "s.json"),
        vec!["No matching cached entry was found; cache unchanged."]
    );
    assert_eq!(offer_lines(NavigationTarget::File).len(), 4);
    assert_eq!(offer_lines(NavigationTarget::Folder)[1], "Missing cached folder detected.");
    assert_eq!(
        offer_prompt(NavigationTarget::File),
        "Remove this missing file from the scan cache? [y/N]: "
    );
}

fn show(step: Step) -> Screen {
    match step {
        Step::Show(screen) => screen,
        other => panic!("a screen: {other:?}"),
    }
}

#[test]
fn the_browser_goes_from_screen_to_screen() {
    let s = snapshot();
    let step = |screen, line: &str| browse_step(screen, &s, 40, line);
    let lists = |step: Step| match show(step) {
        Screen::Lists(lists) => lists,
        other => panic!("lists: {other:?}"),
    };
    let files = lists(step(Screen::Main, " 1\n").expect("files"));
    assert_eq!(files.title, "Cached files");
    assert_eq!((files.files.len(), files.folders.len()), (2, 0));
    assert_eq!(
        screen_prompt(&Screen::Lists(files)),
        "Choose 1=view file details, 2=back, or q=exit: "
    );
    assert_eq!(show(step(Screen::Main, "folders").expect("folders")), Screen::Folders);
    let inner = lists(step(Screen::Folders, "1").expect("drill down"));
    assert_eq!(inner.title, r"Cached top-N entries under C:\t");
    assert_eq!((inner.files.len(), inner.folders.len()), (2, 2));
    let number = show(step(Screen::Lists(inner), "2").expect("number"));
    assert_eq!(screen_prompt(&number), "Which folder do you want details for? ");
    let details = show(step(number, "2").expect("details"));
    match &details {
        Screen::Details(_, entry, kind) => {
            assert_eq!(entry.path, r"C:\t\empty");
            assert_eq!(*kind, NavigationTarget::Folder);
        }
        other => panic!("details: {other:?}"),
    }
    let opening = match step(details, "OPEN").expect("open") {
        Step::Open(screen) => screen,
        other => panic!("open: {other:?}"),
    };
    let stays = after_open(opening, OpenOutcome::Launched, true).expect("stays");
    assert!(matches!(stays, Screen::Details(_, _, _)));
    let back = after_open(stays, OpenOutcome::Failed("no".to_string()), true).expect("back");
    assert!(matches!(back, Screen::Lists(_)));
    assert_eq!(show(step(back, "back").expect("main")), Screen::Main);
    assert_eq!(
        show(step(Screen::Folders, "3").expect("empty")),
        Screen::Empty(folder(r"C:\t\empty", 0))
    );
    assert_eq!(
        show(step(Screen::Empty(folder(r"C:\t\empty", 0)), "no").expect("main")),
        Screen::Main
    );
    assert!(after_open(
        Screen::Empty(folder(r"C:\t\empty", 0)),
        OpenOutcome::Failed("gone".to_string()),
        true
    )
    .is_err());
    let videos = lists(step(Screen::Categories, "2").expect("category"));
    assert_eq!(videos.title, "Cached top-N files in category Videos");
    assert!(needs_no_answer(&Screen::Lists(videos), &s));
    assert!(!needs_no_answer(&Screen::Folders, &s));
    assert_eq!(step(Screen::Main, "").expect("leave"), Step::Leave);
    assert_eq!(step(Screen::Categories, "quit").expect("quit"), Step::Quit);
}

#[test]
fn wrong_answers_to_the_browser_are_refused() {
    let s = snapshot();
    let text = |screen, line: &str| browse_step(screen, &s, 2, line).expect_err("refused").text();
    let lists = || match browse_step(Screen::Main, &s, 2, "1").expect("files") {
        Step::Show(screen) => screen,
        other => panic!("lists: {other:?}"),
    };
    assert_eq!(text(Screen::Main, "Zap"), "unknown browse choice `zap`");
    assert_eq!(text(Screen::Folders, "x"), "selection must be a number");
    assert_eq!(text(Screen::Folders, "3"), "selection must be between 1 and 2");
    assert_eq!(text(lists(), "Zap 1"), "unknown details choice `Zap 1`");
    assert_eq!(text(lists(), "1 9"), "file number must be between 1 and 2");
    let details = match browse_step(lists(), &s, 2, "1 1").expect("details") {
        Step::Show(screen) => screen,
        other => panic!("details: {other:?}"),
    };
    assert_eq!(text(details, "7"), "unknown detail choice `7`");
}

#[test]
fn menus_and_details_are_written_out() {
    let s = snapshot();
    assert_eq!(print_browse(&s, false).expect("menu").len(), 5);
    assert_eq!(
        print_browse(&s, true).expect_err("json").text(),
        "browse is interactive and does not support --json; use summary, files, or folders"
    );
    assert_eq!(
        folder_choice_lines(&s, 1),
        vec!["Folder choices:", r"  1. C:\t (100 B)"]
    );
    assert_eq!(category_choice_lines(&s, 9)[2], "  2. Videos (50 B)");
    assert_eq!(
        print_entry_details(&s.largest_files[1], NavigationTarget::File, false),
        vec![
            "Entry details",
            "  type: file",
            r"  path: C:\t\two.bin",
            "  size: 100 B",
            "  on disk: 50 B",
            "  category: Other",
            "  exists: false",
        ]
    );
    assert_eq!(
        print_entry_details(&s.largest_folders[0], NavigationTarget::Folder, true)[5..],
        ["  files: 2", "  exists: true"]
    );
}

#[test]
fn status_reports_cache_tracking_and_savings_without_counting_status() {
    let mut s = snapshot();
    s.scan_stats.files_per_second = Double { bits: 1.5f64.to_bits() };
    let base = Snapshot { scan_stats: s.scan_stats, ..snapshot() };
    let paths = workspace_cache_paths(STYLE, r"C:\L\dscan11", "default").expect("paths");
    let config = AppConfig::default();
    let made = status_at(
        &s,
        &paths,
        &config,
        Some(&builtin_rules()),
        &Ok(base),
        manual_cleanup_totals(&vec![]),
        cache_savings_totals(&vec![]),
        1_000 + 16 * 86_400,
    )
    .expect("status");
    assert_eq!(made.cache_mode, CacheMode::BaseScan);
    assert_eq!(made.workspace, "default");
    assert_eq!(made.scanned_at_utc, "1970-01-01T00:16:40Z");
    assert_eq!(made.stale_at_utc.as_deref(), Some("1970-01-16T00:16:40Z"));
    assert!(made.stale.is_stale);
    assert_eq!(made.scope_drive_percent.expect("percent").bits, 25.0f64.to_bits());
    let lines = print_status(&made);
    for header in [
        "Scan status",
        "Scan freshness",
        "  scanned at: 1970-01-01T00:16:40Z",
        "  stale on: 1970-01-16T00:16:40Z",
        "  age: 16 days (stale)",
        "Cache",
        r"  roots: C:\t, D:\u",
        "Drive scope",
        "  scope of drive: 25.0%",
        "Inventory",
        "Manual cleanups",
        "Cache savings",
        "Category rules",
        "  category rules: unknown; run dscan11 scan to record category rules",
        "Initial Scan Performance",
        "  file rate: 1.50/s",
    ] {
        assert!(lines.iter().any(|line| line == header), "no line {header:?}");
    }
    let mut never = AppConfig::default();
    never.stale_days = 0;
    let now = status(
        &s,
        &paths,
        &never,
        None,
        &Ok(snapshot()),
        manual_cleanup_totals(&vec![]),
        cache_savings_totals(&vec![]),
    )
    .expect("status");
    assert_eq!(now.stale_at_utc, None);
    assert!(!print_status(&now).iter().any(|line| line == "Category rules"));
    never.stale_days = u64::MAX;
    assert_eq!(
        status(
            &s,
            &paths,
            &never,
            None,
            &Ok(snapshot()),
            manual_cleanup_totals(&vec![]),
            cache_savings_totals(&vec![]),
        )
        .expect_err("never")
        .text(),
        "scan timestamp is outside supported range"
    );
}

#[test]
fn versions_of_state_files_are_read() {
    let read = |text: &str| {
        read_json_version("f.json", Ok(Some(text.to_string())), 1).expect("version")
    };
    assert_eq!(read(r#"{"version":3}"#), Some(3));
    assert_eq!(read(r#"{"a":[1,{"version":9}]}"#), Some(1));
    assert_eq!(read(r#"{"version":-1}"#), Some(1));
    assert_eq!(read(r#"{"version":4294967296}"#), Some(1));
    assert_eq!(read("[2]"), Some(1));
    assert_eq!(read("{not json"), None);
    assert_eq!(read_json_version("f.json", Ok(None), 1).expect("missing"), None);
    assert_eq!(
        read_json_version("f.json", Err("denied".to_string()), 1).expect_err("io").text(),
        "failed to read f.json: denied"
    );
    assert_eq!(version_from(Some(Some(7)), 1), Some(7));
}

#[test]
fn settings_are_shown() {
    let paths = workspace_cache_paths(STYLE, r"C:\L\dscan11", "default").expect("paths");
    let config = AppConfig::default();
    let view = config_view(&config, &paths, None, Some(1));
    let lines = print_config(&view, &config);
    assert_eq!(lines[2], r"  path: C:\L\dscan11\config.json");
    assert_eq!(lines[6], "  category config schema: missing");
    assert_eq!(lines[7], "  workspace registry schema: 1");
    assert_eq!(lines[8], "  stale days: 15");
    assert!(lines[10].starts_with("  skip names: System Volume Information, $Recycle.Bin, "));
}

#[test]
fn moments_are_written_in_utc() {
    assert_eq!(format_unix_utc(0).expect("epoch"), "1970-01-01T00:00:00Z");
    assert_eq!(
        format_unix_utc(253_402_300_799).expect("last"),
        "9999-12-31T23:59:59Z"
    );
    assert_eq!(
        format_unix_utc(253_402_300_800).expect_err("late").text(),
        "scan timestamp is invalid: timestamp was not in range"
    );
    assert_eq!(
        format_unix_utc(u64::MAX).expect_err("far").text(),
        "scan timestamp is outside supported range"
    );
    let now = timestamped_event().expect("now");
    assert!(now.unix_seconds > 1_000_000_000);
    assert!(now.utc.ends_with('Z'));
    let moment = timestamped_event_at(1_500_000_000).expect("moment");
    assert_eq!(moment.unix_seconds, 1);
    assert_eq!(moment.utc, "1970-01-01T00:00:01.5Z");
    assert_eq!(
        timestamped_event_at(-1).expect_err("early").text(),
        "system clock is before Unix epoch; cannot write journal"
    );
    assert_eq!(
        timestamped_event_at(i128::MAX).expect_err("late").text(),
        "failed to format journal timestamp: timestamp was not in range"
    );
}

#[test]
fn a_rescan_is_confirmed_by_key_or_line() {
    let (mut prompt, first) = confirm_rescan(true);
    assert_eq!(first, PromptStep::LookAtClock);
    assert_eq!(confirm_rescan(false).1, PromptStep::AskLine);
    let second = 1_000_000_000u128;
    match confirm_rescan_keypress(&mut prompt, PromptInput::Clock { elapsed_nanos: 2 * second }) {
        PromptStep::Wait { pulses, millis } => {
            assert_eq!(pulses, 2);
            assert!(millis <= 1_000);
        }
        other => panic!("wait: {other:?}"),
    }
    assert_eq!(
        confirm_rescan_keypress(&mut prompt, PromptInput::Clock { elapsed_nanos: 9 * second }),
        PromptStep::AutoSkip { pulses: 3 }
    );
    assert!(confirm_rescan_line(LineReply::Line(" Yes\n".to_string())).expect("yes"));
    assert!(!confirm_rescan_line(LineReply::Line("no".to_string())).expect("no"));
    assert!(!confirm_rescan_line(LineReply::TimedOut).expect("late"));
    assert_eq!(
        confirm_rescan_line(LineReply::Failed("eof".to_string())).expect_err("failed").text(),
        "failed to read rescan confirmation: eof"
    );
}

#[test]
fn screens_are_written_out() {
    let s = snapshot();
    let lines = |screen: &Screen| screen_lines(screen, &s, 1, None, true);
    assert_eq!(lines(&Screen::Main).len(), 5);
    let folders = lines(&Screen::Folders);
    assert_eq!(folders.len(), 5);
    assert_eq!(folders[3], "Folder choices:");
    let categories = lines(&Screen::Categories);
    assert_eq!(categories.last().expect("choice"), "  1. Other (200 B)");
    let files = show(browse_step(Screen::Main, &s, 40, "1").expect("files"));
    let listed = lines(&files);
    assert_eq!(listed[..2], ["Cached files", "Files:"]);
    assert_eq!(listed.len(), 4);
    assert_eq!(lines(&Screen::Empty(folder(r"C:\x", 0))).len(), 2);
    let none = Snapshot { largest_files: vec![], ..snapshot() };
    let empty = show(browse_step(Screen::Main, &none, 40, "1").expect("files"));
    assert_eq!(
        screen_lines(&empty, &none, 1, None, true),
        vec!["Cached files", "No cached entries."]
    );
}

#[test]
fn the_current_second_is_that_of_the_system_clock() {
    let seconds = || {
        std::time::SystemTime::now()
            .duration_since(std::time::UNIX_EPOCH)
            .expect("time")
            .as_secs()
    };
    let before = seconds();
    let now = current_unix().expect("now");
    let after = seconds();
    assert!(before <= now && now <= after);
    assert_eq!(unix_from_clock(Ok(1_700_000_000)).expect("read"), 1_700_000_000);
    assert_eq!(
        unix_from_clock(Err("too early".to_string())).expect_err("early").text(),
        "system clock is before Unix epoch: too early"
    );
}
