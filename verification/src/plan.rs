//! What a command does next: whether to scan, to serve the cache or to refuse.
use crate::categories::CategoryConfigBootstrap;
use crate::cli::{CacheAction, CommandView, Commands};
use crate::error::{refuse, CliError};
use crate::journal::CacheUsageEventKind;
use crate::numbers::{decimal, decimal_text};
use crate::snapshot::StaleInfo;
use crate::text::{push_text, texts, trim, trim_text};
use crate::workspace::{name_refused, valid_name, validate_workspace_name, WorkspaceRegistry};
use vstd::prelude::*;

verus! {

// ---------------------------------------------------------------------------
// Scanning
// ---------------------------------------------------------------------------

/// How many entries a scan keeps: as many as asked for, else as configured, and
/// at least one.
pub fn scan_top_limit(top: Option<usize>, configured: usize) -> (r: usize)
    ensures
        ({
            let wanted = match top {
                Some(n) => n,
                None => configured,
            };
            r == if wanted == 0 {
                1
            } else {
                wanted
            }
        }),
{
    let wanted: usize = match top {
        Some(n) => n,
        None => configured,
    };
    if wanted == 0 {
        1
    } else {
        wanted
    }
}

/// What is known of the cached scan: whether it is stale, and whether it has
/// the requested roots.
#[derive(Debug, Clone, Copy, PartialEq, Eq, Structural)]
pub struct CachedScan {
    pub stale: bool,
    pub same_roots: bool,
}

/// What a request to scan leads to.
#[derive(Debug, Clone, Copy, PartialEq, Eq, Structural)]
pub enum ScanPlan {
    /// Scan.
    Scan,
    /// Show the cached scan.
    ServeCached,
    /// Ask whether to scan.
    AskFirst,
    /// Refuse: the workspace is for other roots.
    Refuse,
    /// Suggest another workspace for these roots.
    Suggest,
}

/// What a request to scan leads to. A workspace tracks one scope; a fresh scan
/// of it is not repeated unless forced or asked for. `interactive` says whether
/// someone can answer.
pub open spec fn scan_plan_of(
    force: bool,
    cached: Option<CachedScan>,
    interactive: bool,
) -> ScanPlan {
    match cached {
        None => ScanPlan::Scan,
        Some(scan) => if !scan.same_roots {
            if interactive {
                ScanPlan::Suggest
            } else {
                ScanPlan::Refuse
            }
        } else if force || scan.stale {
            ScanPlan::Scan
        } else if interactive {
            ScanPlan::AskFirst
        } else {
            ScanPlan::ServeCached
        },
    }
}

/// What a request to scan leads to.
pub fn scan_plan(force: bool, cached: Option<CachedScan>, interactive: bool) -> (r: ScanPlan)
    ensures
        r == scan_plan_of(force, cached, interactive),
{
    match cached {
        None => ScanPlan::Scan,
        Some(scan) => if !scan.same_roots {
            if interactive {
                ScanPlan::Suggest
            } else {
                ScanPlan::Refuse
            }
        } else if force || scan.stale {
            ScanPlan::Scan
        } else if interactive {
            ScanPlan::AskFirst
        } else {
            ScanPlan::ServeCached
        },
    }
}

/// Without someone to answer nothing is asked, and other roots are never
/// scanned into a workspace.
pub proof fn law_scripts_are_not_asked(force: bool, cached: Option<CachedScan>)
    ensures
        ({
            let plan = scan_plan_of(force, cached, false);
            &&& plan == ScanPlan::Scan || plan == ScanPlan::ServeCached || plan == ScanPlan::Refuse
            &&& plan == ScanPlan::Refuse <==> cached is Some && !cached->0.same_roots
        }),
{
}

/// A forced scan of the same roots always scans.
pub proof fn law_force_scans(cached: CachedScan, interactive: bool)
    requires
        cached.same_roots,
    ensures
        scan_plan_of(true, Some(cached), interactive) == ScanPlan::Scan,
{
}

/// What a skipped scan is recorded as: one that serves the cached snapshot,
/// because no one can answer or because the answer is no, saves a scan.
pub open spec fn skipped_scan_of(plan: ScanPlan, confirmed: bool) -> Option<CacheUsageEventKind> {
    if plan == ScanPlan::ServeCached || (plan == ScanPlan::AskFirst && !confirmed) {
        Some(CacheUsageEventKind::ScanAutoSkip)
    } else {
        None
    }
}

/// What a request to scan is recorded as where it serves the cached snapshot;
/// `confirmed` is the answer to the question whether to scan again.
pub fn skipped_scan(plan: ScanPlan, confirmed: bool) -> (r: Option<CacheUsageEventKind>)
    ensures
        r == skipped_scan_of(plan, confirmed),
{
    match plan {
        ScanPlan::ServeCached => Some(CacheUsageEventKind::ScanAutoSkip),
        ScanPlan::AskFirst => if confirmed {
            None
        } else {
            Some(CacheUsageEventKind::ScanAutoSkip)
        },
        ScanPlan::Scan | ScanPlan::Refuse | ScanPlan::Suggest => None,
    }
}

/// What a successful command is recorded as in the usage journal, if it is: the
/// views as readouts, an opened entry as navigation.
pub open spec fn usage_event_of(command: CommandView) -> Option<CacheUsageEventKind> {
    match command {
        CommandView::Summary => Some(CacheUsageEventKind::Summary),
        CommandView::Files => Some(CacheUsageEventKind::Files),
        CommandView::Folders => Some(CacheUsageEventKind::Folders),
        CommandView::Browse => Some(CacheUsageEventKind::Browse),
        CommandView::Open { .. } => Some(CacheUsageEventKind::CacheNavigation),
        _ => None,
    }
}

/// What a successful command is recorded as in the usage journal.
pub fn usage_event(command: &Commands) -> (r: Option<CacheUsageEventKind>)
    ensures
        r == usage_event_of(command@),
{
    match command {
        Commands::Summary => Some(CacheUsageEventKind::Summary),
        Commands::Files => Some(CacheUsageEventKind::Files),
        Commands::Folders => Some(CacheUsageEventKind::Folders),
        Commands::Browse => Some(CacheUsageEventKind::Browse),
        Commands::Open { .. } => Some(CacheUsageEventKind::CacheNavigation),
        Commands::Scan { .. }
        | Commands::Status
        | Commands::Cache { .. }
        | Commands::Config { .. }
        | Commands::Workspace { .. }
        | Commands::Audit { .. } => None,
    }
}

/// Views are recorded and count as readouts; opening an entry is recorded apart
/// from them; status and whatever only looks after the cache are not recorded.
pub proof fn law_only_views_count(command: CommandView)
    ensures
        usage_event_of(CommandView::Status) is None,
        usage_event_of(command) is Some <==> command is Summary || command is Files || command
            is Folders || command is Browse || command is Open,
        usage_event_of(command) == Some(CacheUsageEventKind::CacheNavigation) <==> command is Open,
        usage_event_of(command) != Some(CacheUsageEventKind::ScanAutoSkip),
{
}

/// A skipped scan is recorded exactly where a fresh scan of the same roots is
/// served, and never where one is forced.
pub proof fn law_served_scans_are_recorded(
    force: bool,
    cached: Option<CachedScan>,
    interactive: bool,
    confirmed: bool,
)
    ensures
        skipped_scan_of(scan_plan_of(force, cached, interactive), confirmed) is Some <==> !force
            && cached is Some && cached->0.same_roots && !cached->0.stale && !(interactive
            && confirmed),
{
}

/// What is said of roots that a workspace is not for.
pub open spec fn roots_differ(workspace: Seq<char>) -> Seq<char> {
    "scan roots differ from workspace `"@ + workspace
        + "`; run `dscan11 workspace create NAME` and rerun with `--workspace NAME`"@
}

/// The refusal of roots that a workspace is not for.
pub fn roots_differ_error(workspace: &str) -> (r: CliError)
    ensures
        r.says(roots_differ(workspace@)),
{
    CliError::Message(
        "scan roots differ from workspace `".to_owned().concat(workspace).concat(
            "`; run `dscan11 workspace create NAME` and rerun with `--workspace NAME`",
        ),
    )
}

/// What to do about roots that a workspace is not for.
#[derive(Debug, PartialEq, Eq)]
pub enum MismatchChoice {
    Cancel,
    Switch(String),
    Create(String),
}

/// What an answer to the suggestion of another workspace leads to: nothing,
/// a workspace that is there, or a new one.
pub fn mismatch_choice(registry: &WorkspaceRegistry, answer: &str) -> (r: Result<
    MismatchChoice,
    CliError,
>)
    requires
        registry.wf(),
    ensures
        ({
            let name = trim(answer@);
            if name.len() == 0 {
                r == Ok::<MismatchChoice, CliError>(MismatchChoice::Cancel)
            } else if !valid_name(name) {
                r matches Err(e) && e.says(name_refused(name))
            } else if registry.known().contains_key(name) {
                r matches Ok(MismatchChoice::Switch(n)) && n@ == name
            } else {
                r matches Ok(MismatchChoice::Create(n)) && n@ == name
            }
        }),
{
    let name = trim_text(answer);
    if name.as_str().is_empty() {
        return Ok(MismatchChoice::Cancel);
    }
    if let Err(e) = validate_workspace_name(name.as_str()) {
        return Err(e);
    }
    if registry.workspaces.contains_key(name.as_str()) {
        Ok(MismatchChoice::Switch(name))
    } else {
        Ok(MismatchChoice::Create(name))
    }
}

/// What is said of a cached scan that is still fresh.
pub fn fresh_notice(info: &StaleInfo) -> (r: String)
    ensures
        r@ == "Cached scan is still fresh ("@ + decimal(info.age_days as nat)
            + " days old; stale after "@ + decimal(info.stale_after_days as nat) + " days)."@,
{
    "Cached scan is still fresh (".to_owned().concat(decimal_text(info.age_days).as_str()).concat(
        " days old; stale after ",
    ).concat(decimal_text(info.stale_after_days).as_str()).concat(" days).")
}

/// The warning about a stale scan, where there is one to give.
pub fn warn_if_stale(info: &StaleInfo, silent: bool) -> (r: Option<String>)
    ensures
        r is Some <==> info.is_stale && !silent,
        r matches Some(text) ==> text@ == "Warning: cached scan is "@ + decimal(
            info.age_days as nat,
        ) + " days old; stale threshold is "@ + decimal(info.stale_after_days as nat)
            + " days. Run `dscan11 scan` to refresh."@,
{
    if silent || !info.is_stale {
        return None;
    }
    Some(
        "Warning: cached scan is ".to_owned().concat(decimal_text(info.age_days).as_str()).concat(
            " days old; stale threshold is ",
        ).concat(decimal_text(info.stale_after_days).as_str()).concat(
            " days. Run `dscan11 scan` to refresh.",
        ),
    )
}

/// The sign of life number `index` of a running scan.
pub fn heartbeat_char(index: usize) -> (r: char)
    ensures
        r == "--+--|"@[index as int % 6],
{
    proof {
        reveal_strlit("--+--|");
    }
    let at: usize = index % 6;
    if at == 2 {
        '+'
    } else if at == 5 {
        '|'
    } else {
        '-'
    }
}

// ---------------------------------------------------------------------------
// Auditing
// ---------------------------------------------------------------------------

/// What an audit starts from.
#[derive(Debug, Clone, Copy, PartialEq, Eq, Structural)]
pub enum AuditPlan {
    /// The cached scan.
    Reuse,
    /// A new scan.
    Scan,
    /// Nothing: the workspace is for other roots.
    Refuse,
}

/// What an audit starts from: the cached scan where it is fresh.
pub fn audit_plan(cached: Option<CachedScan>) -> (r: AuditPlan)
    ensures
        r == match cached {
            None => AuditPlan::Scan,
            Some(scan) => if !scan.same_roots {
                AuditPlan::Refuse
            } else if scan.stale {
                AuditPlan::Scan
            } else {
                AuditPlan::Reuse
            },
        },
{
    match cached {
        None => AuditPlan::Scan,
        Some(scan) => if !scan.same_roots {
            AuditPlan::Refuse
        } else if scan.stale {
            AuditPlan::Scan
        } else {
            AuditPlan::Reuse
        },
    }
}

// ---------------------------------------------------------------------------
// Output
// ---------------------------------------------------------------------------

/// Why a command gives no JSON, if it gives none.
pub open spec fn json_refused(command: CommandView) -> Option<Seq<char>> {
    match command {
        CommandView::Open { .. } => Some(
            "open launches a file browser and does not support --json"@,
        ),
        CommandView::RestoreBase => Some("cache restore-base does not support --json"@),
        CommandView::FastForward => Some("cache fast-forward does not support --json"@),
        _ => None,
    }
}

/// Checks that a command gives JSON where it is asked for.
pub fn check_output(command: &Commands, json: bool) -> (r: Result<(), CliError>)
    ensures
        if json && json_refused(command@) is Some {
            r matches Err(e) && e.says(json_refused(command@)->0)
        } else {
            r is Ok
        },
{
    if !json {
        return Ok(());
    }
    match command {
        Commands::Open { .. } => Err(
            refuse("open launches a file browser and does not support --json"),
        ),
        Commands::Cache { action } => match action {
            CacheAction::RestoreBase => Err(refuse("cache restore-base does not support --json")),
            CacheAction::FastForward => Err(refuse("cache fast-forward does not support --json")),
            _ => Ok(()),
        },
        _ => Ok(()),
    }
}

/// What is said of an editable category configuration.
pub open spec fn bootstrap_text(result: CategoryConfigBootstrap) -> Seq<Seq<char>> {
    if result.created {
        seq!["Created category config from defaults: "@ + result.category_config_path@]
    } else {
        seq![
            "Category config already exists: "@ + result.category_config_path@,
            "Delete it first or edit it directly."@,
        ]
    }
}

/// What is said of an editable category configuration.
pub fn print_category_config_bootstrap(result: &CategoryConfigBootstrap) -> (r: Vec<String>)
    ensures
        texts(r@) == bootstrap_text(*result),
{
    let mut out: Vec<String> = Vec::new();
    let path = result.category_config_path.as_str();
    if result.created {
        push_text(&mut out, "Created category config from defaults: ".to_owned().concat(path));
    } else {
        push_text(&mut out, "Category config already exists: ".to_owned().concat(path));
        push_text(&mut out, "Delete it first or edit it directly.".to_owned());
    }
    assert(texts(out@) =~= bootstrap_text(*result));
    out
}

} // verus!
