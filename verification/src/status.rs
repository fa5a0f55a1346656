//! The status of a workspace, and the settings as they are shown.
use crate::audit::{copy_texts, time_refused};
use crate::categories::{category_rules_status, CategoryRules, CategoryRulesStatus};
use crate::clock::{current_unix, format_unix_utc, read_from_clock, seconds_or, utc_second};
use crate::config::{AppConfig, CATEGORY_CONFIG_VERSION, CONFIG_VERSION, WORKSPACE_REGISTRY_VERSION};
use crate::double::Double;
use crate::error::CliError;
use crate::journal::{cache_mode, mode_of, CacheMode, CacheSavingsTotals, ManualCleanupTotals};
use crate::numbers::{decimal, decimal_text};
use crate::rates::{count_rate_text, human_count_rate};
use crate::ratio::{format_percent, is_fraction, percent_text, percent_value, share};
use crate::sizes::{duration_text, human_duration, human_rate, human_size, rate_text, size_text};
use crate::snapshot::{opt_text, staleness, ScanStats, Snapshot, StaleInfo, DAY, SNAPSHOT_VERSION};
use crate::text::{join_texts, joined, push_text, texts};
use crate::workspace::CachePaths;
use vstd::prelude::*;

verus! {

/// The version of the tool.
pub const APP_VERSION: &'static str = "0.1.0";

// ---------------------------------------------------------------------------
// Status
// ---------------------------------------------------------------------------

/// The status of a workspace.
#[derive(Debug, PartialEq, Eq)]
pub struct Status {
    pub app_version: String,
    pub snapshot_schema_version: u32,
    pub scanned_at_unix: u64,
    pub scanned_at_utc: String,
    pub stale_at_utc: Option<String>,
    pub stale: StaleInfo,
    pub workspace: String,
    pub cache_mode: CacheMode,
    pub roots: Vec<String>,
    pub cache_dir: String,
    pub snapshot_path: String,
    pub base_snapshot_path: String,
    pub total_bytes: u64,
    pub total_allocated_bytes: u64,
    pub total_capacity_bytes: Option<u64>,
    pub scope_drive_percent: Option<Double>,
    pub file_count: u64,
    pub folder_count: u64,
    pub skipped_count: usize,
    pub access_denied_count: u64,
    pub category_rules: Option<CategoryRulesStatus>,
    pub scan_stats: ScanStats,
    pub manual_cleanups: ManualCleanupTotals,
    pub cache_savings: CacheSavingsTotals,
}

/// When a scan becomes stale, in seconds; it stops at the largest number.
pub open spec fn stale_at(scanned: u64, stale_days: u64) -> u64 {
    let span = if stale_days * DAY <= u64::MAX {
        stale_days * DAY
    } else {
        u64::MAX as int
    };
    if scanned + span <= u64::MAX {
        (scanned + span) as u64
    } else {
        u64::MAX
    }
}

/// The status of category rules against a snapshot.
pub open spec fn rules_status(
    status: Option<CategoryRulesStatus>,
    snapshot: Snapshot,
    rules: Option<CategoryRules>,
) -> bool {
    match rules {
        None => status is None,
        Some(rules) => status matches Some(s) && s.source@ == rules.origin()
            && s.snapshot_fingerprint == snapshot.category_rules_fingerprint
            && s.current_fingerprint@ == rules.print() && s.changed_since_scan
            == match snapshot.category_rules_fingerprint {
            Some(print) => Some(print@ != rules.print()),
            None => None,
        },
    }
}

/// The percentage of the drive is this one.
pub open spec fn scope_percent(x: Option<Double>, bytes: u64, capacity: Option<u64>) -> bool {
    match capacity {
        Some(whole) => if whole == 0 {
            x is None
        } else {
            x matches Some(p) && ({
                let (n, d) = share(bytes as nat, whole as nat, 100);
                is_fraction(p, n, d)
            })
        },
        None => x is None,
    }
}

impl Status {
    /// This is the status of a workspace at a time.
    pub open spec fn describes(
        self,
        snapshot: Snapshot,
        paths: CachePaths,
        stale_days: u64,
        rules: Option<CategoryRules>,
        base: Result<Snapshot, CliError>,
        manual_cleanups: ManualCleanupTotals,
        cache_savings: CacheSavingsTotals,
        now: u64,
    ) -> bool {
        &&& self.app_version@ == APP_VERSION@
        &&& self.snapshot_schema_version == SNAPSHOT_VERSION
        &&& self.scanned_at_unix == snapshot.scanned_at_unix
        &&& self.scanned_at_utc@ == utc_second(snapshot.scanned_at_unix as int)
        &&& if stale_days == 0 {
            self.stale_at_utc is None
        } else {
            self.stale_at_utc matches Some(text) && text@ == utc_second(
                stale_at(snapshot.scanned_at_unix, stale_days) as int,
            )
        }
        &&& self.stale == staleness(snapshot.scanned_at_unix, now, stale_days)
        &&& self.workspace == paths.workspace_name
        &&& self.cache_mode == mode_of(base, snapshot)
        &&& texts(self.roots@) == texts(snapshot.roots@)
        &&& self.cache_dir == paths.base_dir
        &&& self.snapshot_path == paths.snapshot_path
        &&& self.base_snapshot_path == paths.base_snapshot_path
        &&& self.total_bytes == snapshot.total_bytes
        &&& self.total_allocated_bytes == snapshot.total_allocated_bytes
        &&& self.total_capacity_bytes == snapshot.total_capacity_bytes
        &&& scope_percent(
            self.scope_drive_percent,
            snapshot.total_allocated_bytes,
            snapshot.total_capacity_bytes,
        )
        &&& self.file_count == snapshot.file_count
        &&& self.folder_count == snapshot.folder_count
        &&& self.skipped_count == snapshot.skipped@.len()
        &&& self.access_denied_count == snapshot.access_denied_count
        &&& rules_status(self.category_rules, snapshot, rules)
        &&& self.scan_stats == snapshot.scan_stats
        &&& self.manual_cleanups == manual_cleanups
        &&& self.cache_savings == cache_savings
    }
}

/// The refusal of a status: a time that cannot be written.
pub open spec fn status_refused(scanned: u64, stale_days: u64) -> Option<Seq<char>> {
    if time_refused(scanned) is Some {
        time_refused(scanned)
    } else if stale_days == 0 {
        None
    } else {
        time_refused(stale_at(scanned, stale_days))
    }
}

/// The rules that a reference leads to.
pub open spec fn rules_behind(rules: Option<&CategoryRules>) -> Option<CategoryRules> {
    match rules {
        Some(rules) => Some(*rules),
        None => None,
    }
}

/// The status of a workspace at the time `now`.
pub fn status_at(
    snapshot: &Snapshot,
    paths: &CachePaths,
    config: &AppConfig,
    category_rules: Option<&CategoryRules>,
    base: &Result<Snapshot, CliError>,
    manual_cleanups: ManualCleanupTotals,
    cache_savings: CacheSavingsTotals,
    now: u64,
) -> (r: Result<Status, CliError>)
    ensures
        match status_refused(snapshot.scanned_at_unix, config.stale_days) {
            Some(message) => r matches Err(e) && e.says(message),
            None => r matches Ok(status) && status.describes(
                *snapshot,
                *paths,
                config.stale_days,
                rules_behind(category_rules),
                *base,
                manual_cleanups,
                cache_savings,
                now,
            ),
        },
{
    let rules = match category_rules {
        Some(rules) => Some(category_rules_status(snapshot, rules)),
        None => None,
    };
    let scanned_at_utc = match format_unix_utc(snapshot.scanned_at_unix) {
        Ok(text) => text,
        Err(e) => return Err(e),
    };
    let stale_at_utc = if config.stale_days == 0 {
        None
    } else {
        let span: u64 = if config.stale_days <= u64::MAX / DAY {
            config.stale_days * DAY
        } else {
            u64::MAX
        };
        match format_unix_utc(snapshot.scanned_at_unix.saturating_add(span)) {
            Ok(text) => Some(text),
            Err(e) => return Err(e),
        }
    };
    Ok(
        Status {
            app_version: APP_VERSION.to_owned(),
            snapshot_schema_version: SNAPSHOT_VERSION,
            scanned_at_unix: snapshot.scanned_at_unix,
            scanned_at_utc,
            stale_at_utc,
            stale: snapshot.stale_info_at(now, config.stale_days),
            workspace: paths.workspace_name.clone(),
            cache_mode: cache_mode(base, snapshot),
            roots: copy_texts(&snapshot.roots),
            cache_dir: paths.base_dir.clone(),
            snapshot_path: paths.snapshot_path.clone(),
            base_snapshot_path: paths.base_snapshot_path.clone(),
            total_bytes: snapshot.total_bytes,
            total_allocated_bytes: snapshot.total_allocated_bytes,
            total_capacity_bytes: snapshot.total_capacity_bytes,
            scope_drive_percent: percent_value(
                snapshot.total_allocated_bytes,
                snapshot.total_capacity_bytes,
            ),
            file_count: snapshot.file_count,
            folder_count: snapshot.folder_count,
            skipped_count: snapshot.skipped.len(),
            access_denied_count: snapshot.access_denied_count,
            category_rules: rules,
            scan_stats: snapshot.scan_stats,
            manual_cleanups,
            cache_savings,
        },
    )
}

/// The status of a workspace now; an unreadable clock makes the scan new.
pub fn status(
    snapshot: &Snapshot,
    paths: &CachePaths,
    config: &AppConfig,
    category_rules: Option<&CategoryRules>,
    base: &Result<Snapshot, CliError>,
    manual_cleanups: ManualCleanupTotals,
    cache_savings: CacheSavingsTotals,
) -> (r: Result<Status, CliError>)
    ensures
        match status_refused(snapshot.scanned_at_unix, config.stale_days) {
            Some(message) => r matches Err(e) && e.says(message),
            None => r matches Ok(status) && exists|reading: Result<u64, CliError>| #[trigger]
                read_from_clock(reading) && status.describes(
                    *snapshot,
                    *paths,
                    config.stale_days,
                    rules_behind(category_rules),
                    *base,
                    manual_cleanups,
                    cache_savings,
                    seconds_or(reading, snapshot.scanned_at_unix),
                ),
        },
{
    let reading = current_unix();
    let ghost given = reading;
    assert(read_from_clock(given));
    let now: u64 = match reading {
        Ok(seconds) => seconds,
        Err(_) => snapshot.scanned_at_unix,
    };
    status_at(
        snapshot,
        paths,
        config,
        category_rules,
        base,
        manual_cleanups,
        cache_savings,
        now,
    )
}

// ---------------------------------------------------------------------------
// Status as text
// ---------------------------------------------------------------------------

/// Version and freshness.
pub open spec fn freshness_lines(s: Status) -> Seq<Seq<char>> {
    seq![
        "Scan status"@,
        "Version"@,
        "  app: "@ + s.app_version@,
        "  snapshot schema: "@ + decimal(s.snapshot_schema_version as nat),
        "Scan freshness"@,
        "  scanned unix: "@ + decimal(s.scanned_at_unix as nat),
        "  scanned at: "@ + s.scanned_at_utc@,
        "  age: "@ + decimal(s.stale.age_days as nat) + " days"@ + if s.stale.is_stale {
            " (stale)"@
        } else {
            ""@
        },
        "  stale after: "@ + decimal(s.stale.stale_after_days as nat) + " days"@,
        "  stale on: "@ + match opt_text(s.stale_at_utc) {
            Some(text) => text,
            None => "disabled by stale-days 0"@,
        },
    ]
}

/// The cache.
pub open spec fn cache_lines(s: Status) -> Seq<Seq<char>> {
    seq![
        "Cache"@,
        "  workspace: "@ + s.workspace@,
        "  cache mode: "@ + match s.cache_mode {
            CacheMode::BaseScan => "base scan"@,
            CacheMode::PresentTracked => "present as tracked"@,
        },
        "  cache: "@ + s.cache_dir@,
        "  snapshot: "@ + s.snapshot_path@,
        "  base snapshot: "@ + s.base_snapshot_path@,
        "  roots: "@ + joined(texts(s.roots@), ", "@),
    ]
}

/// What was scanned of the drive.
pub open spec fn scope_lines(s: Status) -> Seq<Seq<char>> {
    let head = seq![
        "Drive scope"@,
        "  total on disk: "@ + size_text(s.total_allocated_bytes as nat),
    ];
    let logical = if s.total_allocated_bytes != s.total_bytes {
        head.push("  logical size: "@ + size_text(s.total_bytes as nat))
    } else {
        head
    };
    logical + seq![
        "  drive capacity: "@ + match s.total_capacity_bytes {
            Some(n) => size_text(n as nat),
            None => "n/a"@,
        },
        "  scope of drive: "@ + match percent_text(
            s.total_allocated_bytes,
            s.total_capacity_bytes,
        ) {
            Some(percent) => percent,
            None => "n/a"@,
        },
    ]
}

/// What was found.
pub open spec fn inventory_lines(s: Status) -> Seq<Seq<char>> {
    seq![
        "Inventory"@,
        "  files: "@ + decimal(s.file_count as nat),
        "  folders: "@ + decimal(s.folder_count as nat),
        "  skipped: "@ + decimal(s.skipped_count as nat),
        "  access denied: "@ + decimal(s.access_denied_count as nat),
    ]
}

/// What was removed by hand.
pub open spec fn cleanup_lines(c: ManualCleanupTotals) -> Seq<Seq<char>> {
    let head = seq![
        "Manual cleanups"@,
        "  manual cleanups: "@ + decimal(c.events as nat) + " event(s), "@ + decimal(
            c.removed_files as nat,
        ) + " file(s), "@ + decimal(c.removed_folders as nat) + " folder(s), "@ + c.human_on_disk@
            + " on disk"@,
    ];
    if c.allocated_bytes != c.bytes {
        head.push("  manual cleanup logical size: "@ + c.human_size@)
    } else {
        head
    }
}

/// What the cache has saved.
pub open spec fn savings_lines(c: CacheSavingsTotals) -> Seq<Seq<char>> {
    seq![
        "Cache savings"@,
        "  avoided readouts: "@ + decimal(c.counted_readouts as nat),
        "  estimated scan work avoided: "@ + c.estimated_on_disk_not_rewalked@ + " on disk, "@
            + decimal(c.estimated_files_not_rechecked as nat) + " file checks, "@ + decimal(
            c.estimated_folders_not_rechecked as nat,
        ) + " folder checks, "@ + c.estimated_scan_time_saved@,
        "  cache navigations: "@ + decimal(c.cache_navigation_count as nat),
        "  savings basis: "@ + c.basis@,
    ]
}

/// Whether the category rules have changed.
pub open spec fn rules_lines(rules: Option<CategoryRulesStatus>) -> Seq<Seq<char>> {
    match rules {
        None => Seq::empty(),
        Some(r) => seq![
            "Category rules"@,
            "  category rules: "@ + match r.changed_since_scan {
                Some(false) => "unchanged"@,
                Some(true) => "changed since scan; run dscan11 scan to refresh category totals"@,
                None => "unknown; run dscan11 scan to record category rules"@,
            },
        ],
    }
}

/// How fast the scan was.
pub open spec fn speed_lines(stats: ScanStats) -> Seq<Seq<char>> {
    seq![
        "Initial Scan Performance"@,
        "  elapsed: "@ + duration_text(stats.elapsed_ms as nat),
        "  effective average scan rate: "@ + rate_text(stats.allocated_bytes_per_second),
        "  effective average logical rate: "@ + rate_text(stats.logical_bytes_per_second),
        "  file rate: "@ + count_rate_text(stats.files_per_second) + "/s"@,
        "  folder rate: "@ + count_rate_text(stats.folders_per_second) + "/s"@,
        "  Rates are effective averages for this scan, not raw disk benchmark results."@,
    ]
}

/// The status as text.
pub open spec fn status_lines(s: Status) -> Seq<Seq<char>> {
    freshness_lines(s) + cache_lines(s) + scope_lines(s) + inventory_lines(s) + cleanup_lines(
        s.manual_cleanups,
    ) + savings_lines(s.cache_savings) + rules_lines(s.category_rules) + speed_lines(
        s.scan_stats,
    )
}

fn say(out: &mut Vec<String>, head: &str, value: &str)
    ensures
        texts(final(out)@) == texts(old(out)@).push(head@ + value@),
{
    push_text(out, head.to_owned().concat(value));
}

fn count(out: &mut Vec<String>, head: &str, value: u64)
    ensures
        texts(final(out)@) == texts(old(out)@).push(head@ + decimal(value as nat)),
{
    push_text(out, head.to_owned().concat(decimal_text(value).as_str()));
}

fn title(out: &mut Vec<String>, text: &str)
    ensures
        texts(final(out)@) == texts(old(out)@).push(text@),
{
    push_text(out, text.to_owned());
}

fn push_freshness(out: &mut Vec<String>, s: &Status)
    ensures
        texts(final(out)@) == texts(old(out)@) + freshness_lines(*s),
{
    let ghost start = texts(out@);
    title(out, "Scan status");
    title(out, "Version");
    say(out, "  app: ", s.app_version.as_str());
    count(out, "  snapshot schema: ", s.snapshot_schema_version as u64);
    title(out, "Scan freshness");
    count(out, "  scanned unix: ", s.scanned_at_unix);
    say(out, "  scanned at: ", s.scanned_at_utc.as_str());
    let note = if s.stale.is_stale {
        " (stale)"
    } else {
        ""
    };
    push_text(
        out,
        "  age: ".to_owned().concat(decimal_text(s.stale.age_days).as_str()).concat(" days").concat(
            note,
        ),
    );
    push_text(
        out,
        "  stale after: ".to_owned().concat(
            decimal_text(s.stale.stale_after_days).as_str(),
        ).concat(" days"),
    );
    let on = match &s.stale_at_utc {
        Some(text) => text.as_str(),
        None => "disabled by stale-days 0",
    };
    say(out, "  stale on: ", on);
    assert(texts(out@) =~= start + freshness_lines(*s));
}

fn push_cache(out: &mut Vec<String>, s: &Status)
    ensures
        texts(final(out)@) == texts(old(out)@) + cache_lines(*s),
{
    let ghost start = texts(out@);
    title(out, "Cache");
    say(out, "  workspace: ", s.workspace.as_str());
    let mode = match s.cache_mode {
        CacheMode::BaseScan => "base scan",
        CacheMode::PresentTracked => "present as tracked",
    };
    say(out, "  cache mode: ", mode);
    say(out, "  cache: ", s.cache_dir.as_str());
    say(out, "  snapshot: ", s.snapshot_path.as_str());
    say(out, "  base snapshot: ", s.base_snapshot_path.as_str());
    say(out, "  roots: ", join_texts(s.roots.as_slice(), ", ").as_str());
    assert(texts(out@) =~= start + cache_lines(*s));
}

fn push_scope(out: &mut Vec<String>, s: &Status)
    ensures
        texts(final(out)@) == texts(old(out)@) + scope_lines(*s),
{
    let ghost start = texts(out@);
    title(out, "Drive scope");
    say(out, "  total on disk: ", human_size(s.total_allocated_bytes).as_str());
    if s.total_allocated_bytes != s.total_bytes {
        say(out, "  logical size: ", human_size(s.total_bytes).as_str());
    }
    let capacity = match s.total_capacity_bytes {
        Some(n) => human_size(n),
        None => "n/a".to_owned(),
    };
    say(out, "  drive capacity: ", capacity.as_str());
    let percent = match format_percent(s.total_allocated_bytes, s.total_capacity_bytes) {
        Some(text) => text,
        None => "n/a".to_owned(),
    };
    say(out, "  scope of drive: ", percent.as_str());
    assert(texts(out@) =~= start + scope_lines(*s));
}

fn push_inventory(out: &mut Vec<String>, s: &Status)
    ensures
        texts(final(out)@) == texts(old(out)@) + inventory_lines(*s),
{
    let ghost start = texts(out@);
    title(out, "Inventory");
    count(out, "  files: ", s.file_count);
    count(out, "  folders: ", s.folder_count);
    count(out, "  skipped: ", s.skipped_count as u64);
    count(out, "  access denied: ", s.access_denied_count);
    assert(texts(out@) =~= start + inventory_lines(*s));
}

fn push_cleanups(out: &mut Vec<String>, c: &ManualCleanupTotals)
    ensures
        texts(final(out)@) == texts(old(out)@) + cleanup_lines(*c),
{
    let ghost start = texts(out@);
    title(out, "Manual cleanups");
    push_text(
        out,
        "  manual cleanups: ".to_owned().concat(decimal_text(c.events as u64).as_str()).concat(
            " event(s), ",
        ).concat(decimal_text(c.removed_files as u64).as_str()).concat(" file(s), ").concat(
            decimal_text(c.removed_folders as u64).as_str(),
        ).concat(" folder(s), ").concat(c.human_on_disk.as_str()).concat(" on disk"),
    );
    if c.allocated_bytes != c.bytes {
        say(out, "  manual cleanup logical size: ", c.human_size.as_str());
    }
    assert(texts(out@) =~= start + cleanup_lines(*c));
}

fn push_savings(out: &mut Vec<String>, c: &CacheSavingsTotals)
    ensures
        texts(final(out)@) == texts(old(out)@) + savings_lines(*c),
{
    let ghost start = texts(out@);
    title(out, "Cache savings");
    count(out, "  avoided readouts: ", c.counted_readouts as u64);
    push_text(
        out,
        "  estimated scan work avoided: ".to_owned().concat(
            c.estimated_on_disk_not_rewalked.as_str(),
        ).concat(" on disk, ").concat(
            decimal_text(c.estimated_files_not_rechecked).as_str(),
        ).concat(" file checks, ").concat(
            decimal_text(c.estimated_folders_not_rechecked).as_str(),
        ).concat(" folder checks, ").concat(c.estimated_scan_time_saved.as_str()),
    );
    count(out, "  cache navigations: ", c.cache_navigation_count as u64);
    say(out, "  savings basis: ", c.basis.as_str());
    assert(texts(out@) =~= start + savings_lines(*c));
}

fn push_rules(out: &mut Vec<String>, rules: &Option<CategoryRulesStatus>)
    ensures
        texts(final(out)@) == texts(old(out)@) + rules_lines(*rules),
{
    let ghost start = texts(out@);
    if let Some(r) = rules {
        title(out, "Category rules");
        let message = match r.changed_since_scan {
            Some(false) => "unchanged",
            Some(true) => "changed since scan; run dscan11 scan to refresh category totals",
            None => "unknown; run dscan11 scan to record category rules",
        };
        say(out, "  category rules: ", message);
    }
    assert(texts(out@) =~= start + rules_lines(*rules));
}

fn push_speed(out: &mut Vec<String>, stats: &ScanStats)
    ensures
        texts(final(out)@) == texts(old(out)@) + speed_lines(*stats),
{
    let ghost start = texts(out@);
    title(out, "Initial Scan Performance");
    say(out, "  elapsed: ", human_duration(stats.elapsed_ms).as_str());
    say(
        out,
        "  effective average scan rate: ",
        human_rate(stats.allocated_bytes_per_second).as_str(),
    );
    say(
        out,
        "  effective average logical rate: ",
        human_rate(stats.logical_bytes_per_second).as_str(),
    );
    push_text(
        out,
        "  file rate: ".to_owned().concat(human_count_rate(stats.files_per_second).as_str()).concat(
            "/s",
        ),
    );
    push_text(
        out,
        "  folder rate: ".to_owned().concat(
            human_count_rate(stats.folders_per_second).as_str(),
        ).concat("/s"),
    );
    title(out, "  Rates are effective averages for this scan, not raw disk benchmark results.");
    assert(texts(out@) =~= start + speed_lines(*stats));
}

/// The lines that show the status.
pub fn print_status(s: &Status) -> (r: Vec<String>)
    ensures
        texts(r@) == status_lines(*s),
{
    let mut out: Vec<String> = Vec::new();
    push_freshness(&mut out, s);
    push_cache(&mut out, s);
    push_scope(&mut out, s);
    push_inventory(&mut out, s);
    push_cleanups(&mut out, &s.manual_cleanups);
    push_savings(&mut out, &s.cache_savings);
    push_rules(&mut out, &s.category_rules);
    push_speed(&mut out, &s.scan_stats);
    assert(texts(out@) =~= status_lines(*s));
    out
}

// ---------------------------------------------------------------------------
// Versions of state files
// ---------------------------------------------------------------------------

/// What the field of a JSON object holds as an unsigned number: nothing where
/// the text is no JSON, an inner nothing where the field is no such number.
pub uninterp spec fn json_number_field(text: Seq<char>, field: Seq<char>) -> Option<Option<u64>>;

/// Calls `serde_json::from_str` for a `serde_json::Value` and reads the field
/// with `Value::get` and `Value::as_u64`; the result has the name
/// `json_number_field`.
#[verifier::external_body]
fn json_number(text: &str, field: &str) -> (r: Option<Option<u64>>)
    ensures
        r == json_number_field(text@, field@),
{
    match serde_json::from_str::<serde_json::Value>(text) {
        Ok(value) => Some(value.get(field).and_then(serde_json::Value::as_u64)),
        Err(_) => None,
    }
}

/// The version of a state file, given what its version field holds: that of
/// old files where there is none that fits, and none of a file that is no JSON.
pub fn version_from(found: Option<Option<u64>>, legacy_version: u32) -> (r: Option<u32>)
    ensures
        r == match found {
            None => None,
            Some(None) => Some(legacy_version),
            Some(Some(n)) => if n <= u32::MAX {
                Some(n as u32)
            } else {
                Some(legacy_version)
            },
        },
{
    match found {
        None => None,
        Some(None) => Some(legacy_version),
        Some(Some(n)) => if n <= u32::MAX as u64 {
            Some(n as u32)
        } else {
            Some(legacy_version)
        },
    }
}

/// The version that a state file's text gives.
pub open spec fn text_version(text: Seq<char>, legacy_version: u32) -> Option<u32> {
    match json_number_field(text, "version"@) {
        None => None,
        Some(None) => Some(legacy_version),
        Some(Some(n)) => if n <= u32::MAX {
            Some(n as u32)
        } else {
            Some(legacy_version)
        },
    }
}

/// The version of a state file, from what came of reading it: nothing where it
/// is missing.
pub fn read_json_version(
    path: &str,
    read: Result<Option<String>, String>,
    legacy_version: u32,
) -> (r:
    Result<Option<u32>, CliError>)
    ensures
        match read {
            Err(cause) => r matches Err(CliError::Io { context, source }) && context@
                == "failed to read "@ + path@ && source == cause,
            Ok(None) => r == Ok::<Option<u32>, CliError>(None),
            Ok(Some(text)) => r == Ok::<Option<u32>, CliError>(
                text_version(text@, legacy_version),
            ),
        },
{
    match read {
        Err(source) => Err(
            CliError::Io { context: "failed to read ".to_owned().concat(path), source },
        ),
        Ok(None) => Ok(None),
        Ok(Some(text)) => Ok(version_from(json_number(text.as_str(), "version"), legacy_version)),
    }
}

// ---------------------------------------------------------------------------
// Settings
// ---------------------------------------------------------------------------

/// The settings as they are shown.
#[derive(Debug, PartialEq, Eq)]
pub struct ConfigView {
    pub app_version: String,
    pub config_path: String,
    pub category_config_path: String,
    pub workspace_registry_path: String,
    pub supported_config_version: u32,
    pub supported_category_config_version: u32,
    pub supported_workspace_registry_version: u32,
    pub config_version: u32,
    pub category_config_version: Option<u32>,
    pub workspace_registry_version: Option<u32>,
}

/// The settings as they are shown.
pub fn config_view(
    config: &AppConfig,
    paths: &CachePaths,
    category_config_version: Option<u32>,
    workspace_registry_version: Option<u32>,
) -> (r: ConfigView)
    ensures
        r.app_version@ == APP_VERSION@,
        r.config_path == paths.config_path,
        r.category_config_path == paths.category_config_path,
        r.workspace_registry_path == paths.workspace_registry_path,
        r.supported_config_version == CONFIG_VERSION,
        r.supported_category_config_version == CATEGORY_CONFIG_VERSION,
        r.supported_workspace_registry_version == WORKSPACE_REGISTRY_VERSION,
        r.config_version == config.version,
        r.category_config_version == category_config_version,
        r.workspace_registry_version == workspace_registry_version,
{
    ConfigView {
        app_version: APP_VERSION.to_owned(),
        config_path: paths.config_path.clone(),
        category_config_path: paths.category_config_path.clone(),
        workspace_registry_path: paths.workspace_registry_path.clone(),
        supported_config_version: CONFIG_VERSION,
        supported_category_config_version: CATEGORY_CONFIG_VERSION,
        supported_workspace_registry_version: WORKSPACE_REGISTRY_VERSION,
        config_version: config.version,
        category_config_version,
        workspace_registry_version,
    }
}

/// A version, where there is one.
pub open spec fn version_text(version: Option<u32>) -> Seq<char> {
    match version {
        Some(n) => decimal(n as nat),
        None => "missing"@,
    }
}

/// The settings as text.
pub open spec fn config_lines(view: ConfigView, config: AppConfig) -> Seq<Seq<char>> {
    seq![
        "Config"@,
        "  app version: "@ + view.app_version@,
        "  path: "@ + view.config_path@,
        "  category config: "@ + view.category_config_path@,
        "  workspace registry: "@ + view.workspace_registry_path@,
        "  config schema: "@ + decimal(view.config_version as nat),
        "  category config schema: "@ + version_text(view.category_config_version),
        "  workspace registry schema: "@ + version_text(view.workspace_registry_version),
        "  stale days: "@ + decimal(config.stale_days as nat),
        "  top limit: "@ + decimal(config.top_limit as nat),
        "  skip names: "@ + joined(texts(config.skip_names@), ", "@),
    ]
}

fn version_of(version: Option<u32>) -> (r: String)
    ensures
        r@ == version_text(version),
{
    match version {
        Some(n) => decimal_text(n as u64),
        None => "missing".to_owned(),
    }
}

/// The lines that show the settings.
pub fn print_config(view: &ConfigView, config: &AppConfig) -> (r: Vec<String>)
    ensures
        texts(r@) == config_lines(*view, *config),
{
    let mut out: Vec<String> = Vec::new();
    title(&mut out, "Config");
    say(&mut out, "  app version: ", view.app_version.as_str());
    say(&mut out, "  path: ", view.config_path.as_str());
    say(&mut out, "  category config: ", view.category_config_path.as_str());
    say(&mut out, "  workspace registry: ", view.workspace_registry_path.as_str());
    count(&mut out, "  config schema: ", view.config_version as u64);
    say(
        &mut out,
        "  category config schema: ",
        version_of(view.category_config_version).as_str(),
    );
    say(
        &mut out,
        "  workspace registry schema: ",
        version_of(view.workspace_registry_version).as_str(),
    );
    count(&mut out, "  stale days: ", config.stale_days);
    count(&mut out, "  top limit: ", config.top_limit as u64);
    say(&mut out, "  skip names: ", join_texts(config.skip_names.as_slice(), ", ").as_str());
    assert(texts(out@) =~= config_lines(*view, *config));
    out
}

} // verus!
