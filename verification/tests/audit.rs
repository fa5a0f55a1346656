use dscan11::paths::PathStyle;
use dscan11::audit::{
    build_audit_report, build_audit_report_at, needs_root_entries, print_audit_report,
    AuditSeverity, RootEntry,
};
use dscan11::audit_rules::{
    audit_rules_from_inventory, default_audit_rules, load_audit_rules,
    parse_inventory_classification, parse_inventory_heading, validate_audit_rules,
    write_default_audit_rules, AuditProjectRule, AuditRules,
};
use dscan11::config::FileRead;
use dscan11::double::{mb_to_bytes, Double};
use dscan11::error::CliError;
use dscan11::snapshot::{ScanStats, SizedEntry, Snapshot, SNAPSHOT_VERSION};

const STYLE: PathStyle = PathStyle::Windows;

fn mb(value: f64) -> Option<Double> {
    Some(Double { bits: value.to_bits() })
}

fn folder(path: &str, bytes: u64) -> SizedEntry {
    SizedEntry {
        path: path.to_string(),
        bytes,
        allocated_bytes: bytes,
        files: Some(1),
        category: None,
    }
}

fn project(path: &str) -> AuditProjectRule {
    AuditProjectRule {
        path: path.to_string(),
        classification: None,
        max_size_mb: None,
        max_git_size_mb: None,
        growth_alert_mb: None,
        watch_generated_outputs: false,
        generated_path_names: None,
    }
}

fn snapshot(folders: Vec<SizedEntry>) -> Snapshot {
    Snapshot {
        version: SNAPSHOT_VERSION,
        scanned_at_unix: 1_000,
        roots: vec![r"C:\work".to_string()],
        total_bytes: 0,
        total_allocated_bytes: 0,
        total_capacity_bytes: None,
        file_count: 0,
        folder_count: 0,
        categories: vec![],
        largest_files: vec![],
        largest_folders: folders,
        skipped: vec![],
        access_denied_count: 0,
        category_rules_fingerprint: None,
        category_rules_source: None,
        scan_stats: ScanStats::default(),
    }
}

fn entry(name: &str, is_dir: bool) -> RootEntry {
    RootEntry {
        name: name.to_string(),
        path: format!(r"C:\work\{name}"),
        is_dir,
    }
}

fn rules_with(projects: Vec<AuditProjectRule>) -> AuditRules {
    let mut rules = default_audit_rules();
    rules.projects = projects;
    rules
}

const MB: u64 = 1 << 20;

#[test]
fn default_rules_are_valid() {
    let rules = default_audit_rules();
    let validation = validate_audit_rules(&rules).expect("valid");
    assert!(validation.valid);
    assert_eq!(validation.rule_count, 0);
    assert!(validation.warnings.is_empty());
    assert_eq!(rules.default_thresholds.max_size_mb, mb(500.0));
    assert_eq!(rules.default_thresholds.max_git_size_mb, mb(100.0));
    assert_eq!(rules.default_thresholds.growth_alert_mb, mb(250.0));
    assert_eq!(
        write_default_audit_rules("r.json", true).expect_err("kept").text(),
        "audit rules already exist: r.json"
    );
    assert_eq!(write_default_audit_rules("r.json", false).expect("rules"), rules);
}

#[test]
fn bad_rules_are_refused() {
    let refused = |rules: &AuditRules| validate_audit_rules(rules).expect_err("refused").text();
    let mut rules = rules_with(vec![project("  ")]);
    assert_eq!(refused(&rules), "audit project path must not be empty");
    rules.projects[0].path = r"..\up".to_string();
    assert_eq!(
        refused(&rules),
        r"audit project path `..\up` must be relative and must not contain `..`"
    );
    rules.projects[0].path = r"\abs".to_string();
    assert_eq!(
        refused(&rules),
        r"audit project path `\abs` must be relative and must not contain `..`"
    );
    rules.projects[0].path = "ok".to_string();
    rules.projects[0].max_git_size_mb = mb(f64::INFINITY);
    assert_eq!(
        refused(&rules),
        "audit threshold `max_git_size_mb` must be a non-negative finite number"
    );
    rules.projects[0].max_git_size_mb = mb(-0.0);
    rules.default_thresholds.growth_alert_mb = mb(-1.0);
    assert_eq!(
        refused(&rules),
        "audit threshold `default growth_alert_mb` must be a non-negative finite number"
    );
    rules.schema_version = Some(2);
    assert_eq!(
        refused(&rules),
        "unsupported audit rules version 2; this dscan11 supports 1"
    );
}

#[test]
fn repeated_projects_are_warned_of() {
    let rules = rules_with(vec![project(r"a\b"), project("A/B"), project("c"), project("a/b")]);
    let validation = validate_audit_rules(&rules).expect("valid");
    assert_eq!(validation.rule_count, 4);
    assert_eq!(
        validation.warnings,
        vec![
            "duplicate project rule for `A/B`",
            "duplicate project rule for `a/b`",
        ]
    );
}

#[test]
fn megabytes_are_rounded_to_bytes() {
    for value in [0.0f64, -0.0, 0.1, 0.5, 1.5, 250.0, 1e-12, 1e300, 0.000_000_476_837_158_203_125] {
        assert_eq!(
            mb_to_bytes(Double { bits: value.to_bits() }),
            Some((value * 1_048_576.0f64).round() as u64)
        );
    }
    for value in [f64::NAN, f64::INFINITY, -1.0] {
        assert_eq!(mb_to_bytes(Double { bits: value.to_bits() }), None);
    }
}

#[test]
fn inventories_become_rules() {
    assert_eq!(parse_inventory_heading("  ### `a\\b` and more").as_deref(), Some("a\\b"));
    assert_eq!(parse_inventory_heading("### `open"), None);
    assert_eq!(parse_inventory_heading("### `### `x`").as_deref(), Some("x"));
    assert_eq!(
        parse_inventory_classification("- `Classification`:  active ").as_deref(),
        Some("active")
    );
    let text = "intro\n### `tools\\dscan11`\n- `Classification`: keep\n### `b`\r\n### `A/x`\n- `Classification`: old\n- `Classification`: new\n";
    let rules = audit_rules_from_inventory("i.md", Ok(text.to_string())).expect("rules");
    let found: Vec<(&str, Option<&str>)> = rules
        .projects
        .iter()
        .map(|p| (p.path.as_str(), p.classification.as_deref()))
        .collect();
    assert_eq!(
        found,
        vec![(r"tools\dscan11", Some("keep")), ("b", None), ("A/x", Some("new"))]
    );
    assert_eq!(rules.projects[0].max_size_mb, mb(250.0));
    assert_eq!(rules.projects[0].max_git_size_mb, mb(25.0));
    assert_eq!(rules.projects[1].max_size_mb, mb(500.0));
    assert_eq!(rules.projects[1].max_git_size_mb, mb(100.0));
    assert!(rules.projects[1].watch_generated_outputs);
    assert_eq!(rules.known_top_level_folders, vec!["A", "b", "tools"]);
    assert_eq!(
        audit_rules_from_inventory("i.md", Err("denied".to_string())).expect_err("io").text(),
        "failed to read workspace inventory i.md: denied"
    );
    assert_eq!(
        audit_rules_from_inventory("i.md", Ok("### `..`\n".to_string()))
            .expect_err("refused")
            .text(),
        "audit project path `..` must be relative and must not contain `..`"
    );
}

#[test]
fn rules_files_are_read_or_explained() {
    assert_eq!(
        load_audit_rules("r.json", FileRead::Missing("gone".to_string()))
            .expect_err("missing")
            .text(),
        "failed to read audit rules r.json: gone"
    );
    assert_eq!(
        load_audit_rules("r.json", FileRead::Unparsed("eof".to_string()))
            .expect_err("broken")
            .text(),
        "failed to parse audit rules r.json: eof"
    );
    assert!(load_audit_rules("r.json", FileRead::Parsed(default_audit_rules())).is_ok());
}

#[test]
fn an_audit_reports_what_is_over_its_limits() {
    let mut p = project("app");
    p.max_size_mb = mb(1.0);
    p.watch_generated_outputs = true;
    let mut rules = rules_with(vec![p]);
    rules.known_top_level_folders = vec!["APP".to_string()];
    assert!(needs_root_entries(&rules));
    let now = snapshot(vec![
        folder(r"C:\work\app", 301 * MB),
        folder(r"C:\work\app\.git", 101 * MB),
        folder(r"C:\work\app\sub\Node_Modules", 7),
        folder(r"C:\work\application\target", 7),
    ]);
    let before = snapshot(vec![folder("c:/work/APP/", 40 * MB)]);
    let report = build_audit_report_at(
        STYLE,
        "ws",
        &now,
        Some(&before),
        &rules,
        Ok(vec![
            entry("app", true),
            entry(".git", true),
            entry("notes.txt", false),
            entry("stray", true),
        ]),
        2,
        true,
        86_400,
    )
    .expect("report");
    let found: Vec<(AuditSeverity, &str, &str, Option<u64>, Option<u64>)> = report
        .alerts
        .iter()
        .map(|a| {
            (
                a.severity,
                a.rule_id.as_str(),
                a.path.as_str(),
                a.measured_bytes,
                a.threshold_bytes,
            )
        })
        .collect();
    assert_eq!(
        found,
        vec![
            (
                AuditSeverity::Warning,
                "unknown_top_level_folder",
                r"C:\work\stray",
                None,
                None
            ),
            (
                AuditSeverity::Alert,
                "project_size",
                r"C:\work\app",
                Some(301 * MB),
                Some(MB)
            ),
            (
                AuditSeverity::Alert,
                "git_size",
                r"C:\work\app\.git",
                Some(101 * MB),
                Some(100 * MB)
            ),
            (
                AuditSeverity::Warning,
                "generated_output",
                r"C:\work\app\sub\Node_Modules",
                Some(7),
                None
            ),
            (
                AuditSeverity::Warning,
                "project_growth",
                r"C:\work\app",
                Some(261 * MB),
                Some(250 * MB)
            ),
        ]
    );
    assert_eq!(
        report.alerts[1].message,
        "Project is 301 MB; threshold is 1.00 MB."
    );
    assert_eq!(
        report.alerts[4].message,
        "Project grew by 261 MB; threshold is 250 MB."
    );
    assert_eq!(report.growth.len(), 1);
    assert_eq!(report.growth[0].delta_bytes, 261 * MB as i64);
    assert_eq!(report.largest_folders.len(), 2);
    assert_eq!(report.schema_version, 1);
    assert_eq!(report.generated_at_utc, "1970-01-02T00:00:00Z");
    assert_eq!(report.scanned_at_utc, "1970-01-01T00:16:40Z");
    let lines = print_audit_report(&report);
    assert_eq!(lines[0], "Audit report");
    assert_eq!(lines[5], "  alerts: 5");
    assert_eq!(
        lines[8],
        r"  [Warning] C:\work\stray: Unregistered top-level folder is present under the audit root."
    );
    assert_eq!(lines.last().expect("line"), r"  2. 101 MB  C:\work\app\.git");
}

#[test]
fn a_shrinking_project_is_no_alert() {
    let rules = rules_with(vec![project("app")]);
    let report = build_audit_report_at(
        STYLE,
        "ws",
        &snapshot(vec![folder(r"C:\work\app", 0)]),
        Some(&snapshot(vec![folder(r"C:\work\app", u64::MAX)])),
        &rules,
        Ok(vec![]),
        5,
        false,
        0,
    )
    .expect("report");
    assert!(report.alerts.is_empty());
    assert_eq!(report.growth[0].delta_bytes, i64::MIN);
    assert!(print_audit_report(&report).contains(&"  no audit thresholds were exceeded".to_string()));
}

#[test]
fn audits_that_cannot_be_made_are_refused() {
    let failed = || Err(CliError::Io { context: "list".to_string(), source: "denied".to_string() });
    let mut rules = default_audit_rules();
    let mut s = snapshot(vec![]);
    assert!(build_audit_report(STYLE, "ws", &s, None, &rules, failed(), 5, false).is_ok());
    rules.known_top_level_folders = vec!["a".to_string()];
    let refused = |s: &Snapshot, rules: &AuditRules, now| {
        build_audit_report_at(STYLE, "ws", s, None, rules, failed(), 5, false, now)
            .expect_err("refused")
            .text()
    };
    assert_eq!(refused(&s, &rules, 0), "list: denied");
    s.roots.push("D:\\".to_string());
    assert_eq!(
        refused(&s, &rules, 0),
        "audit requires a snapshot with exactly one root"
    );
    s.roots.pop();
    rules.known_top_level_folders.clear();
    assert_eq!(
        refused(&s, &rules, u64::MAX),
        "scan timestamp is outside supported range"
    );
    s.scanned_at_unix = 253_402_300_800;
    assert_eq!(
        refused(&s, &rules, 0),
        "scan timestamp is invalid: timestamp was not in range"
    );
}
