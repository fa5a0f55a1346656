use dscan11::categories::CategoryConfigBootstrap;
use dscan11::cli::{parse_cli, AuditAction, CacheAction, Cli, Commands, Request, WorkspaceAction};
use dscan11::config::OutputMode;
use dscan11::error::CliError;
use dscan11::help::print_help;
use dscan11::plan::{
    audit_plan, check_output, fresh_notice, heartbeat_char, mismatch_choice,
    print_category_config_bootstrap, skipped_scan, usage_event, roots_differ_error, scan_plan, scan_top_limit, warn_if_stale,
    AuditPlan, CachedScan, MismatchChoice, ScanPlan,
};
use dscan11::journal::CacheUsageEventKind;
use dscan11::prune::NavigationTarget;
use dscan11::rescan::pulse_char;
use dscan11::snapshot::StaleInfo;
use dscan11::workspace::fresh_registry;

fn parse(args: &[&str]) -> Result<Request, CliError> {
    parse_cli(&args.iter().map(|arg| arg.to_string()).collect())
}

fn run(args: &[&str]) -> Cli {
    match parse(args) {
        Ok(Request::Run(cli)) => cli,
        other => panic!("a command: {other:?}"),
    }
}

fn refused(args: &[&str]) -> String {
    parse(args).expect_err("refused").text()
}

#[test]
fn largest_command_is_removed() {
    let message = refused(&["largest"]);
    assert!(message.contains("unknown command `largest`"));
    assert_eq!(message, "unknown command `largest`; run `dscan11 --help`");
}

#[test]
fn help_documents_commands_flags_and_examples() {
    assert_eq!(parse(&["--help"]).expect("help"), Request::Help);
    assert_eq!(parse(&[]).expect("help"), Request::Help);
    assert_eq!(parse(&["scan", "-h", "--version"]).expect("help"), Request::Help);
    assert_eq!(parse(&["--version"]).expect("version"), Request::Version);
    let stdout = print_help();
    for needle in [
        "Usage:",
        "Global options:",
        "--workspace NAME",
        "Commands:",
        "scan [--force] [--top N] [paths...]",
        "summary",
        "files",
        "folders",
        "open file N",
        "open folder N",
        "browse",
        "cache restore-base",
        "cache fast-forward",
        "workspace list",
        "workspace create NAME",
        "workspace delete [--force] NAME",
        "status",
        "config [--stale-days DAYS] [--init-categories]",
        "--top controls how much scan data is stored.",
        "--limit controls how much cached data is displayed.",
        "JSON output respects --limit",
        "Exit codes:",
    ] {
        assert!(
            stdout.contains(needle),
            "help output did not contain {needle:?}"
        );
    }
    assert!(!stdout.contains("  largest\n"));
    assert!(!stdout.contains(&[r"C:\Users", "Dawn"].join(r"\")));
}

#[test]
fn global_options_are_read() {
    let cli = run(&["summary"]);
    assert_eq!((cli.json, cli.quiet, cli.limit), (false, false, 40));
    assert_eq!(cli.workspace, None);
    let cli = run(&["--json", "--quiet", "--limit", "0", "--workspace", "media", "files"]);
    assert_eq!((cli.json, cli.quiet, cli.limit), (true, true, 1));
    assert_eq!(cli.workspace.as_deref(), Some("media"));
    assert_eq!(cli.command, Commands::Files);
    assert_eq!(run(&["--limit", "+7", "folders"]).limit, 7);
    assert_eq!(refused(&["--limit"]), "--limit requires a positive integer");
    assert_eq!(refused(&["--limit", "x", "files"]), "--limit must be a positive integer");
    assert_eq!(
        refused(&["--limit", "99999999999999999999", "files"]),
        "--limit must be a positive integer"
    );
    assert_eq!(refused(&["--workspace"]), "--workspace requires a name");
    assert_eq!(refused(&["--json"]), "missing command; run `dscan11 --help`");
}

#[test]
fn global_options_come_before_the_command() {
    let cli = run(&["files", "--json"]);
    assert_eq!(cli.command, Commands::Files);
    assert!(!cli.json);
    let cli = run(&["--json", "files", "--quiet", "--limit", "3", "--workspace", "media"]);
    assert_eq!((cli.json, cli.quiet, cli.limit), (true, false, 40));
    assert_eq!(cli.workspace, None);
    assert_eq!(
        run(&["--limit", "3", "scan", "--json"]).command,
        Commands::Scan { paths: vec!["--json".to_string()], top: None, force: false }
    );
    assert_eq!(
        refused(&["open", "file", "1", "--json"]),
        "open requires `file N` or `folder N`; run `dscan11 --help`"
    );
}

#[test]
fn the_version_is_asked_for_before_the_command() {
    assert_eq!(parse(&["--json", "--version", "files"]).expect("version"), Request::Version);
    assert_eq!(run(&["summary", "--version"]).command, Commands::Summary);
    assert_eq!(
        run(&["scan", "--version"]).command,
        Commands::Scan { paths: vec!["--version".to_string()], top: None, force: false }
    );
    assert_eq!(refused(&["--limit", "--version"]), "--limit must be a positive integer");
}

#[test]
fn scans_are_read() {
    assert_eq!(
        run(&["scan", r"C:\a", "--top", "5", "--force", r"D:\b"]).command,
        Commands::Scan {
            paths: vec![r"C:\a".to_string(), r"D:\b".to_string()],
            top: Some(5),
            force: true,
        }
    );
    assert_eq!(refused(&["scan", "--top"]), "--top requires a positive integer");
    assert_eq!(refused(&["scan", "--top", "-1"]), "--top must be a positive integer");
}

#[test]
fn navigation_is_read() {
    assert_eq!(
        run(&["open", "files", "3"]).command,
        Commands::Open { target: NavigationTarget::File, index: 3 }
    );
    assert_eq!(
        run(&["open", "folder", "1"]).command,
        Commands::Open { target: NavigationTarget::Folder, index: 1 }
    );
    assert_eq!(
        refused(&["open", "file"]),
        "open requires `file N` or `folder N`; run `dscan11 --help`"
    );
    assert_eq!(
        refused(&["open", "door", "1"]),
        "unknown open target `door`; use `file` or `folder`"
    );
    assert_eq!(refused(&["open", "file", "one"]), "open number must be a positive integer");
}

#[test]
fn cache_actions_are_read() {
    let action = |args: &[&str]| match run(args).command {
        Commands::Cache { action } => action,
        other => panic!("a cache action: {other:?}"),
    };
    assert_eq!(action(&["cache", "restore-base"]), CacheAction::RestoreBase);
    assert_eq!(action(&["cache", "fast-forward"]), CacheAction::FastForward);
    assert_eq!(action(&["cache", "removals"]), CacheAction::Cleanups);
    assert_eq!(
        action(&["cache", "mark-removed", "folder", "--yes", "--path", r"C:\x"]),
        CacheAction::MarkRemoved { target: NavigationTarget::Folder, path: r"C:\x".to_string() }
    );
    assert_eq!(
        refused(&["cache", "mark-removed", "file", "--path", "x"]),
        "cache mark-removed requires `--yes` to confirm that the path is already gone"
    );
    assert_eq!(
        refused(&["cache", "mark-removed", "file", "--yes"]),
        "cache mark-removed requires `--path PATH`"
    );
    assert_eq!(
        refused(&["cache", "mark-removed", "disk"]),
        "unknown cache mark-removed target `disk`; use `file` or `folder`"
    );
    assert_eq!(
        refused(&["cache", "burn"]),
        "unknown cache action `burn`; use `restore-base`, `fast-forward`, `cleanups`, or `mark-removed`"
    );
    assert!(refused(&["cache"]).starts_with("cache requires `restore-base`"));
}

#[test]
fn settings_are_read() {
    assert_eq!(
        run(&["config", "--stale-days", "0", "--init-categories"]).command,
        Commands::Config { stale_days: Some(0), init_categories: true }
    );
    assert_eq!(refused(&["config", "--stale-days"]), "--stale-days requires a number");
    assert_eq!(refused(&["config", "--stale-days", "x"]), "--stale-days must be a number");
    assert_eq!(refused(&["config", "x"]), "unknown config argument `x`");
}

#[test]
fn workspace_actions_are_read() {
    let action = |args: &[&str]| match run(args).command {
        Commands::Workspace { action } => action,
        other => panic!("a workspace action: {other:?}"),
    };
    assert_eq!(action(&["workspace", "list"]), WorkspaceAction::List);
    assert_eq!(action(&["workspace", "current"]), WorkspaceAction::Current);
    assert_eq!(
        action(&["workspace", "create", ""]),
        WorkspaceAction::Create { name: String::new() }
    );
    assert_eq!(
        action(&["workspace", "rename", "a", "b"]),
        WorkspaceAction::Rename { old_name: "a".to_string(), new_name: "b".to_string() }
    );
    assert_eq!(
        action(&["workspace", "delete", "--force", "a"]),
        WorkspaceAction::Delete { name: "a".to_string(), force: true }
    );
    assert_eq!(
        refused(&["workspace", "delete", "a", "b"]),
        "workspace delete requires `[--force] NAME`"
    );
    assert!(refused(&["workspace", "paint"]).starts_with("unknown workspace action `paint`"));
}

#[test]
fn audits_are_read() {
    let action = |args: &[&str]| match run(args).command {
        Commands::Audit { action } => action,
        other => panic!("an audit: {other:?}"),
    };
    assert_eq!(
        action(&["audit", "--rules", "r.json", r"C:\x"]),
        AuditAction::Report { path: r"C:\x".to_string(), rules: "r.json".to_string() }
    );
    assert_eq!(
        action(&["audit", "rules", "validate", "r.json"]),
        AuditAction::ValidateRules { path: "r.json".to_string() }
    );
    assert_eq!(
        action(&["audit", "rules", "init", "r.json"]),
        AuditAction::InitRules { path: "r.json".to_string() }
    );
    assert_eq!(
        action(&["audit", "rules", "from-inventory", "i.md", "--out", "r.json"]),
        AuditAction::RulesFromInventory {
            inventory: "i.md".to_string(),
            out: "r.json".to_string(),
        }
    );
    assert_eq!(
        refused(&["audit", r"C:\x"]),
        "audit requires one root path and `--rules RULES.json`; run `dscan11 --help`"
    );
}

#[test]
fn json_is_refused_where_there_is_none() {
    let text = |args: &[&str]| check_output(&run(args).command, true).expect_err("refused").text();
    assert_eq!(
        text(&["open", "file", "1"]),
        "open launches a file browser and does not support --json"
    );
    assert_eq!(text(&["cache", "restore-base"]), "cache restore-base does not support --json");
    assert_eq!(text(&["cache", "fast-forward"]), "cache fast-forward does not support --json");
    assert!(check_output(&run(&["cache", "cleanups"]).command, true).is_ok());
    assert!(check_output(&run(&["open", "file", "1"]).command, false).is_ok());
}

#[test]
fn fresh_scan_without_force_uses_cached_status_in_noninteractive_mode() {
    let fresh = Some(CachedScan { stale: false, same_roots: true });
    let stale = Some(CachedScan { stale: true, same_roots: true });
    assert_eq!(scan_plan(false, fresh, false), ScanPlan::ServeCached);
    assert_eq!(scan_plan(false, fresh, true), ScanPlan::AskFirst);
    assert_eq!(scan_plan(true, fresh, false), ScanPlan::Scan);
    assert_eq!(scan_plan(false, stale, false), ScanPlan::Scan);
    assert_eq!(scan_plan(false, None, false), ScanPlan::Scan);
    let info = StaleInfo { age_days: 3, stale_after_days: 15, is_stale: false };
    assert_eq!(
        fresh_notice(&info),
        "Cached scan is still fresh (3 days old; stale after 15 days)."
    );
}

#[test]
fn scan_root_mismatch_fails_in_noninteractive_mode() {
    let other = Some(CachedScan { stale: true, same_roots: false });
    assert_eq!(scan_plan(true, other, false), ScanPlan::Refuse);
    assert_eq!(scan_plan(false, other, true), ScanPlan::Suggest);
    assert_eq!(audit_plan(other), AuditPlan::Refuse);
    assert_eq!(audit_plan(None), AuditPlan::Scan);
    assert_eq!(
        audit_plan(Some(CachedScan { stale: false, same_roots: true })),
        AuditPlan::Reuse
    );
    let message = roots_differ_error("default").text();
    assert!(message.contains("scan roots differ from workspace `default`"));
    let registry = fresh_registry(1);
    assert_eq!(mismatch_choice(&registry, " \n").expect("cancel"), MismatchChoice::Cancel);
    assert_eq!(
        mismatch_choice(&registry, "default\n").expect("switch"),
        MismatchChoice::Switch("default".to_string())
    );
    assert_eq!(
        mismatch_choice(&registry, " media ").expect("create"),
        MismatchChoice::Create("media".to_string())
    );
    assert!(mismatch_choice(&registry, "a/b").is_err());
}

#[test]
fn stale_scans_are_warned_of() {
    let info = StaleInfo { age_days: 20, stale_after_days: 15, is_stale: true };
    assert_eq!(
        warn_if_stale(&info, false).as_deref(),
        Some("Warning: cached scan is 20 days old; stale threshold is 15 days. Run `dscan11 scan` to refresh.")
    );
    assert_eq!(warn_if_stale(&info, true), None);
}

#[test]
fn small_decisions() {
    assert_eq!(scan_top_limit(None, 1_000), 1_000);
    assert_eq!(scan_top_limit(Some(0), 1_000), 1);
    let beats: String = (0..8).map(heartbeat_char).collect();
    assert_eq!(beats, "--+--|--");
    let pulses: String = (0..5).map(pulse_char).collect();
    assert_eq!(pulses, "---->");
    let made = CategoryConfigBootstrap {
        created: true,
        category_config_path: "c.json".to_string(),
        source: "defaults".to_string(),
    };
    assert_eq!(
        print_category_config_bootstrap(&made),
        vec!["Created category config from defaults: c.json"]
    );
    let kept = CategoryConfigBootstrap {
        created: false,
        category_config_path: "c.json".to_string(),
        source: "existing".to_string(),
    };
    assert_eq!(
        print_category_config_bootstrap(&kept)[0],
        "Category config already exists: c.json"
    );
}

#[test]
fn output_modes_follow_the_flag() {
    assert_eq!(OutputMode::from_json(true), OutputMode::Json);
    assert_eq!(OutputMode::from_json(false), OutputMode::Human);
    assert!(OutputMode::from_json(true).is_json());
    assert!(!OutputMode::from_json(false).is_json());
}

#[test]
fn views_are_recorded_and_status_is_not() {
    let event = |args: &[&str]| usage_event(&run(args).command);
    assert_eq!(event(&["summary"]), Some(CacheUsageEventKind::Summary));
    assert_eq!(event(&["files"]), Some(CacheUsageEventKind::Files));
    assert_eq!(event(&["folders"]), Some(CacheUsageEventKind::Folders));
    assert_eq!(event(&["browse"]), Some(CacheUsageEventKind::Browse));
    assert_eq!(event(&["open", "file", "1"]), Some(CacheUsageEventKind::CacheNavigation));
    assert_eq!(event(&["status"]), None);
    assert_eq!(event(&["scan"]), None);
    assert_eq!(event(&["cache", "cleanups"]), None);
    assert_eq!(skipped_scan(ScanPlan::ServeCached, false), Some(CacheUsageEventKind::ScanAutoSkip));
    assert_eq!(skipped_scan(ScanPlan::AskFirst, false), Some(CacheUsageEventKind::ScanAutoSkip));
    assert_eq!(skipped_scan(ScanPlan::AskFirst, true), None);
    assert_eq!(skipped_scan(ScanPlan::Scan, false), None);
}
