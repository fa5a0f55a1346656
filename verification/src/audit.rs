//! The audit report: what a snapshot says against the rules.
use crate::audit_rules::{
    rules_refused, slashed, slashed_lower, validate_audit_rules, AuditProjectRule, AuditRules,
};
use crate::clock::{
    clock_failed, current_unix, format_unix_utc, read_from_clock, utc_second, LAST_SECOND,
};
use crate::config::AUDIT_REPORT_VERSION;
use crate::double::{mb_to_bytes, megabytes_bytes, Double};
use crate::error::{refuse, CliError};
use crate::names::NameMap;
use crate::numbers::{decimal, decimal_text};
use crate::scan::first_entries;
use crate::sizes::{human_size, size_text};
use crate::snapshot::{SizedEntry, Snapshot};
use crate::text::{
    begins, from_chars, join_texts, joined, lower, lower_char, push_text, same_text, stands_at,
    texts, to_lower, trim_back,
};
use crate::paths::{file_name, file_name_of, join, join_path, PathStyle};
use vstd::prelude::*;

verus! {

// ---------------------------------------------------------------------------
// Findings
// ---------------------------------------------------------------------------

/// How bad a finding is.
#[derive(Debug, Clone, Copy, PartialEq, Eq, Structural)]
pub enum AuditSeverity {
    Info,
    Warning,
    Alert,
}

/// A finding.
#[derive(Debug, PartialEq, Eq)]
pub struct AuditAlert {
    pub severity: AuditSeverity,
    pub rule_id: String,
    pub path: String,
    pub message: String,
    pub measured_bytes: Option<u64>,
    pub threshold_bytes: Option<u64>,
}

/// What a finding says.
pub struct AlertView {
    pub severity: AuditSeverity,
    pub rule_id: Seq<char>,
    pub path: Seq<char>,
    pub message: Seq<char>,
    pub measured_bytes: Option<u64>,
    pub threshold_bytes: Option<u64>,
}

impl View for AuditAlert {
    type V = AlertView;

    open spec fn view(&self) -> AlertView {
        AlertView {
            severity: self.severity,
            rule_id: self.rule_id@,
            path: self.path@,
            message: self.message@,
            measured_bytes: self.measured_bytes,
            threshold_bytes: self.threshold_bytes,
        }
    }
}

/// What a list of findings says.
pub open spec fn alert_views(list: Seq<AuditAlert>) -> Seq<AlertView> {
    list.map_values(|a: AuditAlert| a@)
}

/// How a project has grown.
#[derive(Debug, PartialEq, Eq)]
pub struct AuditFolderDelta {
    pub path: String,
    pub previous_bytes: u64,
    pub current_bytes: u64,
    pub delta_bytes: i64,
}

/// What a growth says.
pub struct DeltaView {
    pub path: Seq<char>,
    pub previous_bytes: u64,
    pub current_bytes: u64,
    pub delta_bytes: i64,
}

impl View for AuditFolderDelta {
    type V = DeltaView;

    open spec fn view(&self) -> DeltaView {
        DeltaView {
            path: self.path@,
            previous_bytes: self.previous_bytes,
            current_bytes: self.current_bytes,
            delta_bytes: self.delta_bytes,
        }
    }
}

/// What a list of growths says.
pub open spec fn delta_views(list: Seq<AuditFolderDelta>) -> Seq<DeltaView> {
    list.map_values(|d: AuditFolderDelta| d@)
}

/// The audit report.
#[derive(Debug, PartialEq, Eq)]
pub struct AuditReport {
    pub schema_version: u32,
    pub command: String,
    pub workspace: String,
    pub roots: Vec<String>,
    pub generated_at_unix: u64,
    pub generated_at_utc: String,
    pub scanned_at_unix: u64,
    pub scanned_at_utc: String,
    pub reused_cached_scan: bool,
    pub alerts: Vec<AuditAlert>,
    pub largest_folders: Vec<SizedEntry>,
    pub growth: Vec<AuditFolderDelta>,
}

/// A folder or file directly under the audit root.
#[derive(Debug, PartialEq, Eq)]
pub struct RootEntry {
    pub name: String,
    pub path: String,
    pub is_dir: bool,
}

// ---------------------------------------------------------------------------
// Keys and thresholds
// ---------------------------------------------------------------------------

/// A path as audits compare it: slashes, none at the end, lower case.
pub open spec fn audit_key(path: Seq<char>) -> Seq<char> {
    lower(trim_back(slashed(path), |c: char| c == '/'))
}

/// What the key of anything inside a folder begins with.
pub open spec fn audit_prefix(path: Seq<char>) -> Seq<char> {
    let key = audit_key(path);
    if key.len() > 0 && key.last() == '/' {
        key
    } else {
        key.push('/')
    }
}

proof fn lemma_trim_lower(s: Seq<char>)
    ensures
        trim_back(lower(s), |c: char| c == '/') == lower(trim_back(s, |c: char| c == '/')),
    decreases s.len(),
{
    let kind = |c: char| c == '/';
    if s.len() > 0 {
        assert(lower(s).last() == crate::text::lower_char(s.last()));
        assert(kind(lower(s).last()) == kind(s.last()));
        if kind(s.last()) {
            assert(lower(s).drop_last() =~= lower(s.drop_last()));
            lemma_trim_lower(s.drop_last());
        }
    } else {
        assert(lower(s) =~= s);
    }
}

/// The path as audits compare it.
pub fn normalize_path_string(path: &str) -> (r: Vec<char>)
    ensures
        r@ == audit_key(path@),
{
    let mut key = slashed_lower(path);
    let ghost kind = |c: char| c == '/';
    let ghost whole = key@;
    while key.len() > 0 && key[key.len() - 1] == '/'
        invariant
            kind == (|c: char| c == '/'),
            trim_back(whole, kind) == trim_back(key@, kind),
        decreases key@.len(),
    {
        let ghost before = key@;
        key.pop();
        assert(key@ =~= before.drop_last());
    }
    proof {
        lemma_trim_lower(slashed(path@));
    }
    key
}

/// What the key of anything inside the folder begins with.
pub fn normalize_path_prefix(path: &str) -> (r: Vec<char>)
    ensures
        r@ == audit_prefix(path@),
{
    let mut key = normalize_path_string(path);
    if !(key.len() > 0 && key[key.len() - 1] == '/') {
        key.push('/');
    }
    key
}

/// The bytes of the folders by key; where two have one key the later counts.
pub open spec fn folder_index(folders: Seq<SizedEntry>) -> Map<Seq<char>, u64>
    decreases folders.len(),
{
    if folders.len() == 0 {
        Map::empty()
    } else {
        folder_index(folders.drop_last()).insert(
            audit_key(folders.last().path@),
            folders.last().bytes,
        )
    }
}

/// The bytes of the cached folders by key.
pub fn audit_folder_index(snapshot: &Snapshot) -> (r: NameMap<u64>)
    ensures
        r.wf(),
        r.map() == folder_index(snapshot.largest_folders@),
{
    let mut index: NameMap<u64> = NameMap::new();
    let folders = &snapshot.largest_folders;
    assert(folders@.take(0) == Seq::<SizedEntry>::empty());
    for i in 0..folders.len()
        invariant
            index.wf(),
            index.map() == folder_index(folders@.take(i as int)),
    {
        assert(folders@.take(i + 1).drop_last() == folders@.take(i as int));
        assert(folders@.take(i + 1).last() == folders@[i as int]);
        let key = normalize_path_string(folders[i].path.as_str());
        index.insert(from_chars(key.as_slice()), folders[i].bytes);
    }
    assert(folders@.take(folders@.len() as int) == folders@);
    index
}

/// The value of a key, where it has one.
pub open spec fn found(index: Map<Seq<char>, u64>, key: Seq<char>) -> Option<u64> {
    if index.contains_key(key) {
        Some(index[key])
    } else {
        None
    }
}

fn look_up(index: &NameMap<u64>, path: &str) -> (r: Option<u64>)
    requires
        index.wf(),
    ensures
        r == found(index.map(), audit_key(path@)),
{
    let key = from_chars(normalize_path_string(path).as_slice());
    match index.get(key.as_str()) {
        Some(bytes) => Some(*bytes),
        None => None,
    }
}

/// The threshold that holds, in bytes: the project's own, else the default.
pub open spec fn threshold(own: Option<Double>, default: Option<Double>) -> Option<u64> {
    match own {
        Some(mb) => megabytes_bytes(mb),
        None => match default {
            Some(mb) => megabytes_bytes(mb),
            None => None,
        },
    }
}

fn threshold_bytes(own: Option<Double>, default: Option<Double>) -> (r: Option<u64>)
    ensures
        r == threshold(own, default),
{
    match own {
        Some(mb) => mb_to_bytes(mb),
        None => match default {
            Some(mb) => mb_to_bytes(mb),
            None => None,
        },
    }
}

/// The names in lower case.
pub open spec fn lower_names(names: Seq<Seq<char>>) -> Set<Seq<char>> {
    Set::new(|x: Seq<char>| exists|i: int| 0 <= i < names.len() && x == lower(#[trigger] names[i]))
}

fn among(names: &Vec<String>, name: &str) -> (r: bool)
    ensures
        r == lower_names(texts(names@)).contains(lower(name@)),
{
    let ghost all = texts(names@);
    let wanted = to_lower(name);
    for i in 0..names.len()
        invariant
            all == texts(names@),
            wanted@ == lower(name@),
            forall|k: int| 0 <= k < i ==> lower(#[trigger] all[k]) != lower(name@),
    {
        assert(all[i as int] == names@[i as int]@);
        if same_text(to_lower(names[i].as_str()).as_str(), wanted.as_str()) {
            return true;
        }
    }
    false
}

// ---------------------------------------------------------------------------
// The checks
// ---------------------------------------------------------------------------

/// The finding about a folder that no rule knows.
pub open spec fn unknown_folder(path: Seq<char>) -> AlertView {
    AlertView {
        severity: AuditSeverity::Warning,
        rule_id: "unknown_top_level_folder"@,
        path,
        message: "Unregistered top-level folder is present under the audit root."@,
        measured_bytes: None,
        threshold_bytes: None,
    }
}

/// The folders under the root that no rule knows; `.git` needs none.
pub open spec fn unknown_folders(known: Seq<Seq<char>>, entries: Seq<RootEntry>) -> Seq<AlertView>
    decreases entries.len(),
{
    if entries.len() == 0 {
        Seq::empty()
    } else {
        let before = unknown_folders(known, entries.drop_last());
        let entry = entries.last();
        if entry.is_dir && entry.name@ != ".git"@ && !lower_names(known).contains(
            lower(entry.name@),
        ) {
            before.push(unknown_folder(entry.path@))
        } else {
            before
        }
    }
}

/// The finding about a size over its threshold, where it is.
pub open spec fn over_size(
    rule_id: Seq<char>,
    subject: Seq<char>,
    path: Seq<char>,
    size: Option<u64>,
    limit: Option<u64>,
) -> Seq<AlertView> {
    match (size, limit) {
        (Some(bytes), Some(most)) => if bytes > most {
            seq![
                AlertView {
                    severity: AuditSeverity::Alert,
                    rule_id,
                    path,
                    message: subject + " is "@ + size_text(bytes as nat) + "; threshold is "@
                        + size_text(most as nat) + "."@,
                    measured_bytes: Some(bytes),
                    threshold_bytes: Some(most),
                },
            ]
        } else {
            Seq::empty()
        },
        _ => Seq::empty(),
    }
}

/// A cached folder is generated output of the project.
pub open spec fn generated(
    style: PathStyle,
    folder: SizedEntry,
    project: Seq<char>,
    names: Seq<Seq<char>>,
) -> bool {
    &&& begins(audit_key(folder.path@), audit_prefix(project))
    &&& file_name(style, folder.path@) matches Some(name) && lower_names(names).contains(lower(name))
}

/// The findings about generated output of the project.
pub open spec fn generated_folders(
    style: PathStyle,
    folders: Seq<SizedEntry>,
    project: Seq<char>,
    names: Seq<Seq<char>>,
) -> Seq<AlertView>
    decreases folders.len(),
{
    if folders.len() == 0 {
        Seq::empty()
    } else {
        let before = generated_folders(style, folders.drop_last(), project, names);
        let folder = folders.last();
        if generated(style, folder, project, names) {
            before.push(
                AlertView {
                    severity: AuditSeverity::Warning,
                    rule_id: "generated_output"@,
                    path: folder.path@,
                    message: "Generated output folder detected."@,
                    measured_bytes: Some(folder.bytes),
                    threshold_bytes: None,
                },
            )
        } else {
            before
        }
    }
}

/// The names of generated folders that hold for a project.
pub open spec fn watched_names(project: AuditProjectRule, rules: AuditRules) -> Seq<Seq<char>> {
    match project.generated_path_names {
        Some(names) => texts(names@),
        None => texts(rules.generated_path_names@),
    }
}

/// The findings about one project: its size, that of its repository, and its
/// generated output.
pub open spec fn project_alerts(
    style: PathStyle,
    root: Seq<char>,
    project: AuditProjectRule,
    rules: AuditRules,
    folders: Seq<SizedEntry>,
) -> Seq<AlertView> {
    let index = folder_index(folders);
    let path = join(style, root, project.path@);
    let git = join(style, path, ".git"@);
    over_size(
        "project_size"@,
        "Project"@,
        path,
        found(index, audit_key(path)),
        threshold(project.max_size_mb, rules.default_thresholds.max_size_mb),
    ) + over_size(
        "git_size"@,
        ".git"@,
        git,
        found(index, audit_key(git)),
        threshold(project.max_git_size_mb, rules.default_thresholds.max_git_size_mb),
    ) + if project.watch_generated_outputs {
        generated_folders(style, folders, path, watched_names(project, rules))
    } else {
        Seq::empty()
    }
}

/// The findings about the first `n` projects.
pub open spec fn all_project_alerts(
    style: PathStyle,
    root: Seq<char>,
    rules: AuditRules,
    folders: Seq<SizedEntry>,
    n: int,
) -> Seq<AlertView>
    decreases n,
{
    if n <= 0 {
        Seq::empty()
    } else {
        all_project_alerts(style, root, rules, folders, n - 1) + project_alerts(
            style,
            root,
            rules.projects@[n - 1],
            rules,
            folders,
        )
    }
}

/// A difference as it is recorded.
pub open spec fn clamped(delta: int) -> i64 {
    if delta > i64::MAX {
        i64::MAX
    } else if delta < i64::MIN {
        i64::MIN
    } else {
        delta as i64
    }
}

/// The growth of a project between two scans that both know it.
pub open spec fn growth_of(
    style: PathStyle,
    root: Seq<char>,
    project: AuditProjectRule,
    now: Map<Seq<char>, u64>,
    before: Map<Seq<char>, u64>,
) -> Option<DeltaView> {
    let path = join(style, root, project.path@);
    match (found(now, audit_key(path)), found(before, audit_key(path))) {
        (Some(current), Some(previous)) => Some(
            DeltaView {
                path,
                previous_bytes: previous,
                current_bytes: current,
                delta_bytes: clamped(current - previous),
            },
        ),
        _ => None,
    }
}

/// The finding about growth over its threshold, where it is.
pub open spec fn growth_alert(delta: DeltaView, limit: Option<u64>) -> Seq<AlertView> {
    let grown = delta.current_bytes - delta.previous_bytes;
    match limit {
        Some(most) => if grown > most {
            seq![
                AlertView {
                    severity: AuditSeverity::Warning,
                    rule_id: "project_growth"@,
                    path: delta.path,
                    message: "Project grew by "@ + size_text(grown as nat) + "; threshold is "@
                        + size_text(most as nat) + "."@,
                    measured_bytes: Some(grown as u64),
                    threshold_bytes: Some(most),
                },
            ]
        } else {
            Seq::empty()
        },
        None => Seq::empty(),
    }
}

/// The growth of the first `n` projects.
pub open spec fn all_growth(
    style: PathStyle,
    root: Seq<char>,
    rules: AuditRules,
    now: Map<Seq<char>, u64>,
    before: Map<Seq<char>, u64>,
    n: int,
) -> Seq<DeltaView>
    decreases n,
{
    if n <= 0 {
        Seq::empty()
    } else {
        let rest = all_growth(style, root, rules, now, before, n - 1);
        match growth_of(style, root, rules.projects@[n - 1], now, before) {
            Some(delta) => rest.push(delta),
            None => rest,
        }
    }
}

/// The findings about the growth of the first `n` projects.
pub open spec fn all_growth_alerts(
    style: PathStyle,
    root: Seq<char>,
    rules: AuditRules,
    now: Map<Seq<char>, u64>,
    before: Map<Seq<char>, u64>,
    n: int,
) -> Seq<AlertView>
    decreases n,
{
    if n <= 0 {
        Seq::empty()
    } else {
        let rest = all_growth_alerts(style, root, rules, now, before, n - 1);
        let project = rules.projects@[n - 1];
        match growth_of(style, root, project, now, before) {
            Some(delta) => rest + growth_alert(
                delta,
                threshold(project.growth_alert_mb, rules.default_thresholds.growth_alert_mb),
            ),
            None => rest,
        }
    }
}

fn unknown_folder_alerts(known: &Vec<String>, entries: &Vec<RootEntry>) -> (r: Vec<AuditAlert>)
    ensures
        alert_views(r@) == unknown_folders(texts(known@), entries@),
{
    let mut alerts: Vec<AuditAlert> = Vec::new();
    assert(alert_views(alerts@) =~= Seq::<AlertView>::empty());
    for i in 0..entries.len()
        invariant
            alert_views(alerts@) == unknown_folders(texts(known@), entries@.take(i as int)),
    {
        assert(entries@.take(i + 1).drop_last() == entries@.take(i as int));
        assert(entries@.take(i + 1).last() == entries@[i as int]);
        let entry = &entries[i];
        if entry.is_dir && !same_text(entry.name.as_str(), ".git") && !among(
            known,
            entry.name.as_str(),
        ) {
            let ghost before = alert_views(alerts@);
            let alert = AuditAlert {
                severity: AuditSeverity::Warning,
                rule_id: "unknown_top_level_folder".to_owned(),
                path: entry.path.clone(),
                message: "Unregistered top-level folder is present under the audit root.".to_owned(),
                measured_bytes: None,
                threshold_bytes: None,
            };
            alerts.push(alert);
            assert(alert_views(alerts@) =~= before.push(alert@));
        }
    }
    assert(entries@.take(entries@.len() as int) == entries@);
    alerts
}

fn push_over_size(
    alerts: &mut Vec<AuditAlert>,
    rule_id: &str,
    subject: &str,
    path: &str,
    size: Option<u64>,
    limit: Option<u64>,
)
    ensures
        alert_views(final(alerts)@) == alert_views(old(alerts)@) + over_size(
            rule_id@,
            subject@,
            path@,
            size,
            limit,
        ),
{
    let ghost before = alert_views(alerts@);
    if let (Some(bytes), Some(most)) = (size, limit) {
        if bytes > most {
            let alert = AuditAlert {
                severity: AuditSeverity::Alert,
                rule_id: rule_id.to_owned(),
                path: path.to_owned(),
                message: subject.to_owned().concat(" is ").concat(human_size(bytes).as_str()).concat(
                    "; threshold is ",
                ).concat(human_size(most).as_str()).concat("."),
                measured_bytes: Some(bytes),
                threshold_bytes: Some(most),
            };
            alerts.push(alert);
            assert(alert_views(alerts@) =~= before.push(alert@));
            assert(alert_views(alerts@) =~= before + over_size(
                rule_id@,
                subject@,
                path@,
                size,
                limit,
            ));
            return ;
        }
    }
    assert(alert_views(alerts@) =~= before + Seq::<AlertView>::empty());
}

fn push_generated(
    style: PathStyle,
    alerts: &mut Vec<AuditAlert>,
    folders: &Vec<SizedEntry>,
    project: &str,
    names: &Vec<String>,
)
    ensures
        alert_views(final(alerts)@) == alert_views(old(alerts)@) + generated_folders(
            style,
            folders@,
            project@,
            texts(names@),
        ),
{
    let ghost start = alert_views(alerts@);
    let prefix = normalize_path_prefix(project);
    assert(folders@.take(0) == Seq::<SizedEntry>::empty());
    assert(start + Seq::<AlertView>::empty() =~= start);
    for i in 0..folders.len()
        invariant
            prefix@ == audit_prefix(project@),
            alert_views(alerts@) == start + generated_folders(
                style,
                folders@.take(i as int),
                project@,
                texts(names@),
            ),
    {
        let ghost now = folders@.take(i as int);
        let ghost next = folders@.take(i + 1);
        assert(next.drop_last() == now);
        assert(next.last() == folders@[i as int]);
        let folder = &folders[i];
        let key = normalize_path_string(folder.path.as_str());
        let mut hit = false;
        if stands_at(key.as_slice(), prefix.as_slice(), 0) {
            if let Some(name) = file_name_of(style, folder.path.as_str()) {
                hit = among(names, name.as_str());
            }
        }
        assert(hit == generated(style, *folder, project@, texts(names@)));
        if hit {
            let ghost before = alert_views(alerts@);
            let alert = AuditAlert {
                severity: AuditSeverity::Warning,
                rule_id: "generated_output".to_owned(),
                path: folder.path.clone(),
                message: "Generated output folder detected.".to_owned(),
                measured_bytes: Some(folder.bytes),
                threshold_bytes: None,
            };
            alerts.push(alert);
            assert(alert_views(alerts@) =~= before.push(alert@));
            assert(alert_views(alerts@) =~= start + generated_folders(
                style,
                next,
                project@,
                texts(names@),
            ));
        }
    }
    assert(folders@.take(folders@.len() as int) == folders@);
}

fn push_project(
    style: PathStyle,
    alerts: &mut Vec<AuditAlert>,
    root: &str,
    project: &AuditProjectRule,
    rules: &AuditRules,
    index: &NameMap<u64>,
    folders: &Vec<SizedEntry>,
)
    requires
        index.wf(),
        index.map() == folder_index(folders@),
    ensures
        alert_views(final(alerts)@) == alert_views(old(alerts)@) + project_alerts(
            style,
            root@,
            *project,
            *rules,
            folders@,
        ),
{
    let ghost start = alert_views(alerts@);
    let path = join_path(style, root, project.path.as_str());
    push_over_size(
        alerts,
        "project_size",
        "Project",
        path.as_str(),
        look_up(index, path.as_str()),
        threshold_bytes(project.max_size_mb, rules.default_thresholds.max_size_mb),
    );
    let git = join_path(style, path.as_str(), ".git");
    push_over_size(
        alerts,
        "git_size",
        ".git",
        git.as_str(),
        look_up(index, git.as_str()),
        threshold_bytes(project.max_git_size_mb, rules.default_thresholds.max_git_size_mb),
    );
    if project.watch_generated_outputs {
        match &project.generated_path_names {
            Some(names) => {
                push_generated(style, alerts, folders, path.as_str(), names);
            },
            None => {
                push_generated(style, alerts, folders, path.as_str(), &rules.generated_path_names);
            },
        }
    }
    assert(alert_views(alerts@) =~= start + project_alerts(style, root@, *project, *rules, folders@));
}

fn project_growth(
    style: PathStyle,
    root: &str,
    project: &AuditProjectRule,
    now: &NameMap<u64>,
    before: &NameMap<u64>,
) -> (r: Option<AuditFolderDelta>)
    requires
        now.wf(),
        before.wf(),
    ensures
        match growth_of(style, root@, *project, now.map(), before.map()) {
            Some(delta) => r matches Some(d) && d@ == delta,
            None => r is None,
        },
{
    let path = join_path(style, root, project.path.as_str());
    if let (Some(current), Some(previous)) = (
        look_up(now, path.as_str()),
        look_up(before, path.as_str()),
    ) {
        let delta: i128 = current as i128 - previous as i128;
        let delta_bytes: i64 = if delta > i64::MAX as i128 {
            i64::MAX
        } else if delta < i64::MIN as i128 {
            i64::MIN
        } else {
            delta as i64
        };
        return Some(
            AuditFolderDelta { path, previous_bytes: previous, current_bytes: current, delta_bytes },
        );
    }
    None
}

fn push_growth_alert(alerts: &mut Vec<AuditAlert>, delta: &AuditFolderDelta, limit: Option<u64>)
    ensures
        alert_views(final(alerts)@) == alert_views(old(alerts)@) + growth_alert(delta@, limit),
{
    let ghost before = alert_views(alerts@);
    if let Some(most) = limit {
        if delta.current_bytes > delta.previous_bytes {
            let grown: u64 = delta.current_bytes - delta.previous_bytes;
            if grown > most {
                let alert = AuditAlert {
                    severity: AuditSeverity::Warning,
                    rule_id: "project_growth".to_owned(),
                    path: delta.path.clone(),
                    message: "Project grew by ".to_owned().concat(
                        human_size(grown).as_str(),
                    ).concat("; threshold is ").concat(human_size(most).as_str()).concat("."),
                    measured_bytes: Some(grown),
                    threshold_bytes: Some(most),
                };
                alerts.push(alert);
                assert(alert_views(alerts@) =~= before.push(alert@));
                assert(alert_views(alerts@) =~= before + growth_alert(delta@, limit));
                return ;
            }
        }
    }
    assert(alert_views(alerts@) =~= before + Seq::<AlertView>::empty());
}

// ---------------------------------------------------------------------------
// The report
// ---------------------------------------------------------------------------

/// All findings: about the root, about the projects, and about their growth.
pub open spec fn all_alerts(
    style: PathStyle,
    root: Seq<char>,
    rules: AuditRules,
    entries: Seq<RootEntry>,
    folders: Seq<SizedEntry>,
    previous: Option<Seq<SizedEntry>>,
) -> Seq<AlertView> {
    let n = rules.projects@.len() as int;
    let unknown = if rules.known_top_level_folders@.len() == 0 {
        Seq::empty()
    } else {
        unknown_folders(texts(rules.known_top_level_folders@), entries)
    };
    unknown + all_project_alerts(style, root, rules, folders, n) + match previous {
        Some(earlier) => all_growth_alerts(
            style,
            root,
            rules,
            folder_index(folders),
            folder_index(earlier),
            n,
        ),
        None => Seq::empty(),
    }
}

/// The growth of all projects since an earlier snapshot.
pub open spec fn growth_since(
    style: PathStyle,
    root: Seq<char>,
    rules: AuditRules,
    folders: Seq<SizedEntry>,
    previous: Option<Seq<SizedEntry>>,
) -> Seq<DeltaView> {
    match previous {
        Some(earlier) => all_growth(
            style,
            root,
            rules,
            folder_index(folders),
            folder_index(earlier),
            rules.projects@.len() as int,
        ),
        None => Seq::empty(),
    }
}

/// The folders of an earlier snapshot, where there is one.
pub open spec fn earlier_folders(previous: Option<Snapshot>) -> Option<Seq<SizedEntry>> {
    match previous {
        Some(snapshot) => Some(snapshot.largest_folders@),
        None => None,
    }
}

/// The refusal of a time that cannot be written.
pub open spec fn time_refused(unix: u64) -> Option<Seq<char>> {
    if unix > i64::MAX {
        Some("scan timestamp is outside supported range"@)
    } else if unix > LAST_SECOND {
        Some("scan timestamp is invalid: timestamp was not in range"@)
    } else {
        None
    }
}

impl AuditReport {
    /// This is the report on a snapshot.
    pub open spec fn reports(
        self,
        style: PathStyle,
        workspace: Seq<char>,
        snapshot: Snapshot,
        previous: Option<Snapshot>,
        rules: AuditRules,
        entries: Seq<RootEntry>,
        limit: nat,
        reused: bool,
        now: u64,
    ) -> bool {
        let root = snapshot.roots@[0]@;
        let folders = snapshot.largest_folders@;
        &&& self.schema_version == AUDIT_REPORT_VERSION
        &&& self.command@ == "audit"@
        &&& self.workspace@ == workspace
        &&& texts(self.roots@) == texts(snapshot.roots@)
        &&& self.generated_at_unix == now
        &&& self.generated_at_utc@ == utc_second(now as int)
        &&& self.scanned_at_unix == snapshot.scanned_at_unix
        &&& self.scanned_at_utc@ == utc_second(snapshot.scanned_at_unix as int)
        &&& self.reused_cached_scan == reused
        &&& alert_views(self.alerts@) == all_alerts(
            style,
            root,
            rules,
            entries,
            folders,
            earlier_folders(previous),
        )
        &&& self.largest_folders@ == first_entries(folders, limit)
        &&& delta_views(self.growth@) == growth_since(
            style,
            root,
            rules,
            folders,
            earlier_folders(previous),
        )
    }
}

/// The error of an audit that cannot be made, if it cannot: refused rules, a
/// snapshot of several roots, an unreadable root where it matters, and times
/// that cannot be written, in this order.
pub open spec fn audit_refused(
    snapshot: Snapshot,
    rules: AuditRules,
    entries: Result<Vec<RootEntry>, CliError>,
    now: u64,
    e: CliError,
) -> bool {
    if rules_refused(rules) is Some {
        e.says(rules_refused(rules)->0)
    } else if snapshot.roots@.len() != 1 {
        e.says("audit requires a snapshot with exactly one root"@)
    } else if rules.known_top_level_folders@.len() > 0 && entries is Err {
        e == entries->Err_0
    } else if time_refused(now) is Some {
        e.says(time_refused(now)->0)
    } else {
        e.says(time_refused(snapshot.scanned_at_unix)->0)
    }
}

/// An audit can be made.
pub open spec fn auditable(
    snapshot: Snapshot,
    rules: AuditRules,
    entries: Result<Vec<RootEntry>, CliError>,
    now: u64,
) -> bool {
    &&& rules_refused(rules) is None
    &&& snapshot.roots@.len() == 1
    &&& rules.known_top_level_folders@.len() > 0 ==> entries is Ok
    &&& time_refused(now) is None
    &&& time_refused(snapshot.scanned_at_unix) is None
}

/// What stands under the root, where it could be read.
pub open spec fn listed_entries(entries: Result<Vec<RootEntry>, CliError>) -> Seq<RootEntry> {
    match entries {
        Ok(list) => list@,
        Err(_) => Seq::empty(),
    }
}

/// Whether an audit by these rules looks at what stands under the root.
pub fn needs_root_entries(rules: &AuditRules) -> (r: bool)
    ensures
        r == (rules.known_top_level_folders@.len() > 0),
{
    rules.known_top_level_folders.len() > 0
}

/// Copies a list of texts.
pub fn copy_texts(list: &Vec<String>) -> (r: Vec<String>)
    ensures
        texts(r@) == texts(list@),
{
    let mut out: Vec<String> = Vec::new();
    let ghost all = texts(list@);
    assert(texts(out@) =~= all.take(0));
    for i in 0..list.len()
        invariant
            all == texts(list@),
            texts(out@) == all.take(i as int),
    {
        let ghost before = texts(out@);
        out.push(list[i].clone());
        assert(texts(out@) =~= before.push(all[i as int]));
        assert(all.take(i + 1) =~= before.push(all[i as int]));
    }
    assert(all.take(all.len() as int) =~= all);
    out
}

/// Copies the first entries of a list, at most `limit`.
pub fn copy_first(list: &Vec<SizedEntry>, limit: usize) -> (r: Vec<SizedEntry>)
    ensures
        r@ == first_entries(list@, limit as nat),
{
    let count: usize = if list.len() < limit {
        list.len()
    } else {
        limit
    };
    let mut out: Vec<SizedEntry> = Vec::new();
    for i in 0..count
        invariant
            count <= list@.len(),
            out@ == list@.take(i as int),
    {
        out.push(list[i].clone());
    }
    assert(list@.take(list@.len() as int) == list@);
    out
}

/// The report on a snapshot at the time `now`. `entries` is what stands under
/// the root, empty where there is no root any more.
pub fn build_audit_report_at(
    style: PathStyle,
    workspace: &str,
    snapshot: &Snapshot,
    previous: Option<&Snapshot>,
    rules: &AuditRules,
    entries: Result<Vec<RootEntry>, CliError>,
    limit: usize,
    reused_cached_scan: bool,
    now: u64,
) -> (r: Result<AuditReport, CliError>)
    ensures
        match r {
            Ok(report) => auditable(*snapshot, *rules, entries, now) && report.reports(
                style,
                workspace@,
                *snapshot,
                match previous {
                    Some(p) => Some(*p),
                    None => None,
                },
                *rules,
                listed_entries(entries),
                limit as nat,
                reused_cached_scan,
                now,
            ),
            Err(e) => !auditable(*snapshot, *rules, entries, now) && audit_refused(
                *snapshot,
                *rules,
                entries,
                now,
                e,
            ),
        },
{
    if let Err(e) = validate_audit_rules(rules) {
        return Err(e);
    }
    if snapshot.roots.len() != 1 {
        return Err(refuse("audit requires a snapshot with exactly one root"));
    }
    let root = snapshot.roots[0].as_str();
    let ghost folders = snapshot.largest_folders@;
    let mut alerts: Vec<AuditAlert> = Vec::new();
    if rules.known_top_level_folders.len() > 0 {
        match &entries {
            Ok(list) => {
                alerts = unknown_folder_alerts(&rules.known_top_level_folders, list);
            },
            Err(_) => {},
        }
        match entries {
            Ok(_) => {},
            Err(e) => {
                return Err(e);
            },
        }
    }
    let ghost unknown = alert_views(alerts@);
    assert(unknown =~= if rules.known_top_level_folders@.len() == 0 {
        Seq::empty()
    } else {
        unknown_folders(texts(rules.known_top_level_folders@), listed_entries(entries))
    });
    let index = audit_folder_index(snapshot);
    assert(unknown + Seq::<AlertView>::empty() =~= unknown);
    for i in 0..rules.projects.len()
        invariant
            index.wf(),
            folders == snapshot.largest_folders@,
            index.map() == folder_index(folders),
            root@ == snapshot.roots@[0]@,
            alert_views(alerts@) == unknown + all_project_alerts(
                style,
                root@,
                *rules,
                folders,
                i as int,
            ),
    {
        push_project(
            style,
            &mut alerts,
            root,
            &rules.projects[i],
            rules,
            &index,
            &snapshot.largest_folders,
        );
        assert(alert_views(alerts@) =~= unknown + all_project_alerts(
            style,
            root@,
            *rules,
            folders,
            i + 1,
        ));
    }
    let ghost so_far = alert_views(alerts@);
    let mut growth: Vec<AuditFolderDelta> = Vec::new();
    assert(delta_views(growth@) =~= Seq::<DeltaView>::empty());
    assert(so_far + Seq::<AlertView>::empty() =~= so_far);
    if let Some(earlier) = previous {
        let before = audit_folder_index(earlier);
        for i in 0..rules.projects.len()
            invariant
                index.wf(),
                before.wf(),
                index.map() == folder_index(folders),
                before.map() == folder_index(earlier.largest_folders@),
                alert_views(alerts@) == so_far + all_growth_alerts(
                    style,
                    root@,
                    *rules,
                    index.map(),
                    before.map(),
                    i as int,
                ),
                delta_views(growth@) == all_growth(
                    style,
                    root@,
                    *rules,
                    index.map(),
                    before.map(),
                    i as int,
                ),
        {
            let project = &rules.projects[i];
            if let Some(delta) = project_growth(style, root, project, &index, &before) {
                push_growth_alert(
                    &mut alerts,
                    &delta,
                    threshold_bytes(
                        project.growth_alert_mb,
                        rules.default_thresholds.growth_alert_mb,
                    ),
                );
                let ghost known = delta_views(growth@);
                growth.push(delta);
                assert(delta_views(growth@) =~= known.push(delta@));
                assert(alert_views(alerts@) =~= so_far + all_growth_alerts(
                    style,
                    root@,
                    *rules,
                    index.map(),
                    before.map(),
                    i + 1,
                ));
            }
        }
    }
    let generated_at_utc = match format_unix_utc(now) {
        Ok(text) => text,
        Err(e) => return Err(e),
    };
    let scanned_at_utc = match format_unix_utc(snapshot.scanned_at_unix) {
        Ok(text) => text,
        Err(e) => return Err(e),
    };
    Ok(
        AuditReport {
            schema_version: AUDIT_REPORT_VERSION,
            command: "audit".to_owned(),
            workspace: workspace.to_owned(),
            roots: copy_texts(&snapshot.roots),
            generated_at_unix: now,
            generated_at_utc,
            scanned_at_unix: snapshot.scanned_at_unix,
            scanned_at_utc,
            reused_cached_scan,
            alerts,
            largest_folders: copy_first(&snapshot.largest_folders, limit),
            growth,
        },
    )
}

/// The report on a snapshot as of now.
pub fn build_audit_report(
    style: PathStyle,
    workspace: &str,
    snapshot: &Snapshot,
    previous: Option<&Snapshot>,
    rules: &AuditRules,
    entries: Result<Vec<RootEntry>, CliError>,
    limit: usize,
    reused_cached_scan: bool,
) -> (r: Result<AuditReport, CliError>)
    ensures
        match r {
            Ok(report) => read_from_clock(Ok(report.generated_at_unix)) && auditable(
                *snapshot,
                *rules,
                entries,
                report.generated_at_unix,
            ) && report.reports(
                style,
                workspace@,
                *snapshot,
                match previous {
                    Some(p) => Some(*p),
                    None => None,
                },
                *rules,
                listed_entries(entries),
                limit as nat,
                reused_cached_scan,
                report.generated_at_unix,
            ),
            Err(e) => match rules_refused(*rules) {
                Some(message) => e.says(message),
                None => (read_from_clock(Err(e)) && clock_failed(e)) || (exists|now: u64|
                    {
                        &&& read_from_clock(Ok(now))
                        &&& !auditable(*snapshot, *rules, entries, now)
                        &&& #[trigger] audit_refused(*snapshot, *rules, entries, now, e)
                    }),
            },
        },
{
    match current_unix() {
        Ok(now) => build_audit_report_at(
            style,
            workspace,
            snapshot,
            previous,
            rules,
            entries,
            limit,
            reused_cached_scan,
            now,
        ),
        Err(e) => match validate_audit_rules(rules) {
            Ok(_) => Err(e),
            Err(refused) => Err(refused),
        },
    }
}

/// A project is reported for its size exactly where the size is known, a
/// threshold holds and the size is over it.
pub proof fn law_size_alert_exactly_over_threshold(
    rule_id: Seq<char>,
    subject: Seq<char>,
    path: Seq<char>,
    size: Option<u64>,
    limit: Option<u64>,
)
    ensures
        over_size(rule_id, subject, path, size, limit).len() == 1 <==> size is Some && limit is Some
            && size->0 > limit->0,
        over_size(rule_id, subject, path, size, limit).len() <= 1,
{
}

/// Rules without projects and known folders find nothing.
pub proof fn law_no_rules_no_findings(
    style: PathStyle,
    root: Seq<char>,
    rules: AuditRules,
    entries: Seq<RootEntry>,
    folders: Seq<SizedEntry>,
    previous: Option<Seq<SizedEntry>>,
)
    requires
        rules.projects@.len() == 0,
        rules.known_top_level_folders@.len() == 0,
    ensures
        all_alerts(style, root, rules, entries, folders, previous).len() == 0,
        growth_since(style, root, rules, folders, previous).len() == 0,
{
}

/// Each folder directly under the root that is known, up to case, is silent.
pub proof fn law_known_folders_are_silent(known: Seq<Seq<char>>, entries: Seq<RootEntry>)
    requires
        forall|i: int|
            0 <= i < entries.len() ==> lower_names(known).contains(
                lower((#[trigger] entries[i]).name@),
            ),
    ensures
        unknown_folders(known, entries).len() == 0,
    decreases entries.len(),
{
    if entries.len() > 0 {
        let init = entries.drop_last();
        assert forall|i: int| 0 <= i < init.len() implies lower_names(known).contains(
            lower((#[trigger] init[i]).name@),
        ) by {
            assert(init[i] == entries[i]);
        }
        law_known_folders_are_silent(known, init);
        assert(lower_names(known).contains(lower(entries[entries.len() - 1].name@)));
    }
}

// ---------------------------------------------------------------------------
// What an audit finds
// ---------------------------------------------------------------------------

/// The cached folders know this path, the last of them that does with so many
/// bytes.
pub open spec fn known_with(folders: Seq<SizedEntry>, path: Seq<char>, bytes: u64) -> bool {
    exists|k: int|
        {
            &&& 0 <= k < folders.len()
            &&& audit_key((#[trigger] folders[k]).path@) == audit_key(path)
            &&& folders[k].bytes == bytes
            &&& forall|m: int|
                k < m < folders.len() ==> audit_key((#[trigger] folders[m]).path@) != audit_key(path)
        }
}

/// So many bytes are the most that may be: a usable limit of the project's own,
/// or a usable default where the project has none.
pub open spec fn most_allowed(own: Option<Double>, default: Option<Double>, most: u64) -> bool {
    ||| own matches Some(mb) && mb.amount() && most == mb.scaled(20)
    ||| own is None && default is Some && default->0.amount() && most == default->0.scaled(20)
}

/// What is found of a path that is over its limit.
pub open spec fn is_over(
    a: AlertView,
    folders: Seq<SizedEntry>,
    path: Seq<char>,
    own: Option<Double>,
    default: Option<Double>,
    rule_id: Seq<char>,
    subject: Seq<char>,
) -> bool {
    exists|bytes: u64, most: u64|
        {
            &&& #[trigger] known_with(folders, path, bytes)
            &&& #[trigger] most_allowed(own, default, most)
            &&& bytes > most
            &&& a.severity == AuditSeverity::Alert
            &&& a.rule_id == rule_id
            &&& a.path == path
            &&& a.measured_bytes == Some(bytes)
            &&& a.threshold_bytes == Some(most)
            &&& a.message == subject + " is "@ + size_text(bytes as nat) + "; threshold is "@
                + size_text(most as nat) + "."@
        }
}

/// A name is one of the names, up to case.
pub open spec fn one_of(names: Seq<Seq<char>>, name: Seq<char>) -> bool {
    exists|i: int|
        0 <= i < names.len() && (#[trigger] names[i]).len() == name.len() && forall|k: int|
            0 <= k < name.len() ==> lower_char(names[i][k]) == lower_char(#[trigger] name[k])
}

/// What is found of a cached folder below a project that bears a watched name.
pub open spec fn is_output(
    style: PathStyle,
    a: AlertView,
    folder: SizedEntry,
    project: Seq<char>,
    names: Seq<Seq<char>>,
) -> bool {
    &&& audit_prefix(project).is_prefix_of(audit_key(folder.path@))
    &&& file_name(style, folder.path@) is Some
    &&& one_of(names, file_name(style, folder.path@)->0)
    &&& a.severity == AuditSeverity::Warning
    &&& a.rule_id == "generated_output"@
    &&& a.path == folder.path@
    &&& a.message == "Generated output folder detected."@
    &&& a.measured_bytes == Some(folder.bytes)
    &&& a.threshold_bytes is None
}

proof fn lemma_one_of(names: Seq<Seq<char>>, name: Seq<char>)
    ensures
        one_of(names, name) <==> lower_names(names).contains(lower(name)),
{
    if lower_names(names).contains(lower(name)) {
        let i = choose|i: int| 0 <= i < names.len() && lower(name) == lower(#[trigger] names[i]);
        assert(lower(names[i]).len() == names[i].len());
        assert forall|k: int| 0 <= k < name.len() implies lower_char(names[i][k]) == lower_char(
            #[trigger] name[k],
        ) by {
            assert(lower(name)[k] == lower(names[i])[k]);
        }
    }
    if one_of(names, name) {
        let i = choose|i: int|
            0 <= i < names.len() && (#[trigger] names[i]).len() == name.len() && forall|k: int|
                0 <= k < name.len() ==> lower_char(names[i][k]) == lower_char(#[trigger] name[k]);
        assert(lower(names[i]) =~= lower(name));
    }
}

proof fn lemma_known(folders: Seq<SizedEntry>, path: Seq<char>)
    ensures
        forall|bytes: u64| #[trigger] known_with(folders, path, bytes) <==> found(
            folder_index(folders),
            audit_key(path),
        ) == Some(bytes),
    decreases folders.len(),
{
    let key = audit_key(path);
    if folders.len() > 0 {
        let init = folders.drop_last();
        lemma_known(init, path);
        let end = folders.len() - 1;
        assert forall|bytes: u64| #[trigger] known_with(folders, path, bytes) <==> found(
            folder_index(folders),
            key,
        ) == Some(bytes) by {
            if audit_key(folders.last().path@) == key {
                assert(audit_key(folders[end].path@) == key);
                if folders.last().bytes == bytes {
                    assert(known_with(folders, path, bytes));
                }
            } else {
                if known_with(init, path, bytes) {
                    let k = choose|k: int|
                        {
                            &&& 0 <= k < init.len()
                            &&& audit_key((#[trigger] init[k]).path@) == key
                            &&& init[k].bytes == bytes
                            &&& forall|m: int|
                                k < m < init.len() ==> audit_key((#[trigger] init[m]).path@) != key
                        };
                    assert(folders[k] == init[k]);
                    assert forall|m: int| k < m < folders.len() implies audit_key(
                        (#[trigger] folders[m]).path@,
                    ) != key by {
                        if m < init.len() {
                            assert(folders[m] == init[m]);
                        }
                    }
                }
                if known_with(folders, path, bytes) {
                    let k = choose|k: int|
                        {
                            &&& 0 <= k < folders.len()
                            &&& audit_key((#[trigger] folders[k]).path@) == key
                            &&& folders[k].bytes == bytes
                            &&& forall|m: int|
                                k < m < folders.len() ==> audit_key((#[trigger] folders[m]).path@)
                                    != key
                        };
                    assert(init[k] == folders[k]);
                    assert forall|m: int| k < m < init.len() implies audit_key(
                        (#[trigger] init[m]).path@,
                    ) != key by {
                        assert(init[m] == folders[m]);
                    }
                }
            }
        }
    }
}

proof fn lemma_over(
    a: AlertView,
    folders: Seq<SizedEntry>,
    path: Seq<char>,
    own: Option<Double>,
    default: Option<Double>,
    rule_id: Seq<char>,
    subject: Seq<char>,
)
    ensures
        over_size(
            rule_id,
            subject,
            path,
            found(folder_index(folders), audit_key(path)),
            threshold(own, default),
        ).contains(a) <==> is_over(a, folders, path, own, default, rule_id, subject),
{
    lemma_known(folders, path);
    let size = found(folder_index(folders), audit_key(path));
    let limit = threshold(own, default);
    let list = over_size(rule_id, subject, path, size, limit);
    if list.contains(a) {
        assert(list[0] == a);
        assert(known_with(folders, path, size->0));
        assert(most_allowed(own, default, limit->0));
    }
    if is_over(a, folders, path, own, default, rule_id, subject) {
        let (bytes, most) = choose|bytes: u64, most: u64|
            {
                &&& #[trigger] known_with(folders, path, bytes)
                &&& #[trigger] most_allowed(own, default, most)
                &&& bytes > most
                &&& a.severity == AuditSeverity::Alert
                &&& a.rule_id == rule_id
                &&& a.path == path
                &&& a.measured_bytes == Some(bytes)
                &&& a.threshold_bytes == Some(most)
                &&& a.message == subject + " is "@ + size_text(bytes as nat) + "; threshold is "@
                    + size_text(most as nat) + "."@
            };
        assert(size == Some(bytes));
        assert(limit == Some(most));
        assert(list[0] == a);
    }
}

proof fn lemma_outputs(
    style: PathStyle,
    a: AlertView,
    folders: Seq<SizedEntry>,
    project: Seq<char>,
    names: Seq<Seq<char>>,
)
    ensures
        generated_folders(style, folders, project, names).contains(a) <==> exists|k: int|
            0 <= k < folders.len() && is_output(style, a, #[trigger] folders[k], project, names),
    decreases folders.len(),
{
    let list = generated_folders(style, folders, project, names);
    if folders.len() > 0 {
        let init = folders.drop_last();
        let before = generated_folders(style, init, project, names);
        let folder = folders.last();
        lemma_outputs(style, a, init, project, names);
        if let Some(name) = file_name(style, folder.path@) {
            lemma_one_of(names, name);
        }
        let key = audit_key(folder.path@);
        let head = audit_prefix(project);
        assert(begins(key, head) <==> head.is_prefix_of(key));
        if list.contains(a) {
            let i = choose|i: int| 0 <= i < list.len() && list[i] == a;
            if i < before.len() {
                assert(before[i] == a);
                let k = choose|k: int|
                    0 <= k < init.len() && is_output(style, a, #[trigger] init[k], project, names);
                assert(folders[k] == init[k]);
            } else {
                assert(is_output(style, a, folders[folders.len() - 1], project, names));
            }
        }
        if exists|k: int|
            0 <= k < folders.len() && is_output(style, a, #[trigger] folders[k], project, names) {
            let k = choose|k: int|
                0 <= k < folders.len() && is_output(style, a, #[trigger] folders[k], project, names);
            if k < init.len() {
                assert(init[k] == folders[k]);
                let i = choose|i: int| 0 <= i < before.len() && before[i] == a;
                assert(list[i] == a);
            } else {
                assert(list.last() == a);
            }
        }
    }
}

/// Of a project is found exactly: that it is over its limit, that its repository
/// is, and each cached folder below it that bears a watched name, where outputs
/// are watched. Its own limit counts where it has one, the default only where it
/// has none.
pub proof fn law_what_is_found_of_a_project(
    style: PathStyle,
    root: Seq<char>,
    project: AuditProjectRule,
    rules: AuditRules,
    folders: Seq<SizedEntry>,
    a: AlertView,
)
    ensures
        ({
            let path = join(style, root, project.path@);
            let names = match project.generated_path_names {
                Some(names) => texts(names@),
                None => texts(rules.generated_path_names@),
            };
            project_alerts(style, root, project, rules, folders).contains(a) <==> {
                ||| is_over(
                    a,
                    folders,
                    path,
                    project.max_size_mb,
                    rules.default_thresholds.max_size_mb,
                    "project_size"@,
                    "Project"@,
                )
                ||| is_over(
                    a,
                    folders,
                    join(style, path, ".git"@),
                    project.max_git_size_mb,
                    rules.default_thresholds.max_git_size_mb,
                    "git_size"@,
                    ".git"@,
                )
                ||| project.watch_generated_outputs && exists|k: int|
                    0 <= k < folders.len() && is_output(
                        style,
                        a,
                        #[trigger] folders[k],
                        path,
                        names,
                    )
            }
        }),
{
    let index = folder_index(folders);
    let path = join(style, root, project.path@);
    let git = join(style, path, ".git"@);
    let names = watched_names(project, rules);
    let x = over_size(
        "project_size"@,
        "Project"@,
        path,
        found(index, audit_key(path)),
        threshold(project.max_size_mb, rules.default_thresholds.max_size_mb),
    );
    let y = over_size(
        "git_size"@,
        ".git"@,
        git,
        found(index, audit_key(git)),
        threshold(project.max_git_size_mb, rules.default_thresholds.max_git_size_mb),
    );
    let z = if project.watch_generated_outputs {
        generated_folders(style, folders, path, names)
    } else {
        Seq::empty()
    };
    lemma_contains_added(x + y, z, a);
    lemma_contains_added(x, y, a);
    lemma_outputs(style, a, folders, path, names);
    lemma_over(
        a,
        folders,
        path,
        project.max_size_mb,
        rules.default_thresholds.max_size_mb,
        "project_size"@,
        "Project"@,
    );
    lemma_over(
        a,
        folders,
        git,
        project.max_git_size_mb,
        rules.default_thresholds.max_git_size_mb,
        "git_size"@,
        ".git"@,
    );
}

proof fn lemma_contains_added<T>(x: Seq<T>, y: Seq<T>, a: T)
    ensures
        (x + y).contains(a) <==> x.contains(a) || y.contains(a),
{
    let s = x + y;
    if s.contains(a) {
        let i = choose|i: int| 0 <= i < s.len() && s[i] == a;
        if i < x.len() {
            assert(x[i] == a);
        } else {
            assert(y[i - x.len()] == a);
        }
    }
    if x.contains(a) {
        let i = choose|i: int| 0 <= i < x.len() && x[i] == a;
        assert(s[i] == a);
    }
    if y.contains(a) {
        let i = choose|i: int| 0 <= i < y.len() && y[i] == a;
        assert(s[x.len() + i] == a);
    }
}

/// Where a project states its own limits, the findings do not depend on the
/// defaults; where it states none, it is as if it stated the defaults.
pub proof fn law_own_limits_replace_the_defaults(
    style: PathStyle,
    root: Seq<char>,
    project: AuditProjectRule,
    rules: AuditRules,
    other: AuditRules,
    folders: Seq<SizedEntry>,
)
    requires
        rules.generated_path_names == other.generated_path_names,
    ensures
        project.max_size_mb is Some && project.max_git_size_mb is Some ==> project_alerts(
            style,
            root,
            project,
            rules,
            folders,
        ) == project_alerts(style, root, project, other, folders),
        project.max_size_mb is None && project.max_git_size_mb is None
            && rules.default_thresholds.max_size_mb is Some
            && rules.default_thresholds.max_git_size_mb is Some ==> project_alerts(
            style,
            root,
            project,
            rules,
            folders,
        ) == project_alerts(
            style,
            root,
            AuditProjectRule {
                max_size_mb: rules.default_thresholds.max_size_mb,
                max_git_size_mb: rules.default_thresholds.max_git_size_mb,
                ..project
            },
            other,
            folders,
        ),
{
}

/// What is found of a project that grew by more than it may between two scans
/// that both know it.
pub open spec fn is_growth(
    style: PathStyle,
    a: AlertView,
    root: Seq<char>,
    project: AuditProjectRule,
    rules: AuditRules,
    folders: Seq<SizedEntry>,
    earlier: Seq<SizedEntry>,
) -> bool {
    let path = join(style, root, project.path@);
    exists|now: u64, then: u64, most: u64|
        {
            &&& #[trigger] known_with(folders, path, now)
            &&& #[trigger] known_with(earlier, path, then)
            &&& #[trigger] most_allowed(
                project.growth_alert_mb,
                rules.default_thresholds.growth_alert_mb,
                most,
            )
            &&& now - then > most
            &&& a.severity == AuditSeverity::Warning
            &&& a.rule_id == "project_growth"@
            &&& a.path == path
            &&& a.measured_bytes == Some((now - then) as u64)
            &&& a.threshold_bytes == Some(most)
            &&& a.message == "Project grew by "@ + size_text((now - then) as nat)
                + "; threshold is "@ + size_text(most as nat) + "."@
        }
}

proof fn lemma_growth(
    style: PathStyle,
    a: AlertView,
    root: Seq<char>,
    rules: AuditRules,
    folders: Seq<SizedEntry>,
    earlier: Seq<SizedEntry>,
    n: int,
)
    requires
        0 <= n <= rules.projects@.len(),
    ensures
        all_growth_alerts(
            style,
            root,
            rules,
            folder_index(folders),
            folder_index(earlier),
            n,
        ).contains(a) <==> exists|i: int|
            0 <= i < n && is_growth(
                style,
                a,
                root,
                #[trigger] rules.projects@[i],
                rules,
                folders,
                earlier,
            ),
    decreases n,
{
    if n > 0 {
        lemma_growth(style, a, root, rules, folders, earlier, n - 1);
        let (now, before) = (folder_index(folders), folder_index(earlier));
        let project = rules.projects@[n - 1];
        let path = join(style, root, project.path@);
        lemma_known(folders, path);
        lemma_known(earlier, path);
        let limit = threshold(project.growth_alert_mb, rules.default_thresholds.growth_alert_mb);
        let rest = all_growth_alerts(style, root, rules, now, before, n - 1);
        match growth_of(style, root, project, now, before) {
            Some(delta) => {
                let last = growth_alert(delta, limit);
                lemma_contains_added(rest, last, a);
                assert(known_with(folders, path, delta.current_bytes));
                assert(known_with(earlier, path, delta.previous_bytes));
                if last.contains(a) {
                    assert(last[0] == a);
                    assert(most_allowed(
                        project.growth_alert_mb,
                        rules.default_thresholds.growth_alert_mb,
                        limit->0,
                    ));
                    assert(is_growth(style, a, root, project, rules, folders, earlier));
                }
                if is_growth(style, a, root, project, rules, folders, earlier) {
                    assert(last[0] == a);
                }
            },
            None => {
                assert(!is_growth(style, a, root, project, rules, folders, earlier));
            },
        }
    }
}

proof fn lemma_projects(
    style: PathStyle,
    a: AlertView,
    root: Seq<char>,
    rules: AuditRules,
    folders: Seq<SizedEntry>,
    n: int,
)
    requires
        0 <= n <= rules.projects@.len(),
    ensures
        all_project_alerts(style, root, rules, folders, n).contains(a) <==> exists|i: int|
            0 <= i < n && project_alerts(
                style,
                root,
                #[trigger] rules.projects@[i],
                rules,
                folders,
            ).contains(a),
    decreases n,
{
    if n > 0 {
        lemma_projects(style, a, root, rules, folders, n - 1);
        lemma_contains_added(
            all_project_alerts(style, root, rules, folders, n - 1),
            project_alerts(style, root, rules.projects@[n - 1], rules, folders),
            a,
        );
    }
}

/// The growth of a project that both scans know is listed with both sizes and
/// their difference, and nothing else is.
pub proof fn law_growth_is_listed(
    style: PathStyle,
    root: Seq<char>,
    rules: AuditRules,
    folders: Seq<SizedEntry>,
    earlier: Seq<SizedEntry>,
    d: DeltaView,
)
    ensures
        growth_since(style, root, rules, folders, None).len() == 0,
        growth_since(style, root, rules, folders, Some(earlier)).len() <= rules.projects@.len(),
        growth_since(style, root, rules, folders, Some(earlier)).contains(d) <==> {
            &&& exists|i: int|
                0 <= i < rules.projects@.len() && d.path == join(
                    style,
                    root,
                    (#[trigger] rules.projects@[i]).path@,
                )
            &&& known_with(folders, d.path, d.current_bytes)
            &&& known_with(earlier, d.path, d.previous_bytes)
            &&& d.delta_bytes == vstd::math::max(
                i64::MIN as int,
                vstd::math::min(d.current_bytes - d.previous_bytes, i64::MAX as int),
            )
        },
{
    lemma_growth_listed(style, root, rules, folders, earlier, d, rules.projects@.len() as int);
}

proof fn lemma_growth_listed(
    style: PathStyle,
    root: Seq<char>,
    rules: AuditRules,
    folders: Seq<SizedEntry>,
    earlier: Seq<SizedEntry>,
    d: DeltaView,
    n: int,
)
    requires
        0 <= n <= rules.projects@.len(),
    ensures
        ({
            let list = all_growth(
                style,
                root,
                rules,
                folder_index(folders),
                folder_index(earlier),
                n,
            );
            &&& list.len() <= n
            &&& list.contains(d) <==> {
                &&& exists|i: int|
                    0 <= i < n && d.path == join(style, root, (#[trigger] rules.projects@[i]).path@)
                &&& known_with(folders, d.path, d.current_bytes)
                &&& known_with(earlier, d.path, d.previous_bytes)
                &&& d.delta_bytes == vstd::math::max(
                i64::MIN as int,
                vstd::math::min(d.current_bytes - d.previous_bytes, i64::MAX as int),
            )
            }
        }),
    decreases n,
{
    if n > 0 {
        let (now, before) = (folder_index(folders), folder_index(earlier));
        lemma_growth_listed(style, root, rules, folders, earlier, d, n - 1);
        let project = rules.projects@[n - 1];
        let path = join(style, root, project.path@);
        lemma_known(folders, path);
        lemma_known(earlier, path);
        let rest = all_growth(style, root, rules, now, before, n - 1);
        let list = all_growth(style, root, rules, now, before, n);
        match growth_of(style, root, project, now, before) {
            Some(delta) => {
                assert(list == rest.push(delta));
                assert(list == rest + seq![delta]);
                lemma_contains_added(rest, seq![delta], d);
                assert(seq![delta].contains(d) <==> delta == d) by {
                    assert(seq![delta][0] == delta);
                }
                assert(known_with(folders, path, delta.current_bytes));
                assert(known_with(earlier, path, delta.previous_bytes));
            },
            None => {},
        }
    }
}

/// Nothing is found twice: one unknown folder for one entry, one output for one
/// folder, and at most one size for a project and one for its repository.
pub proof fn law_nothing_is_found_twice(
    style: PathStyle,
    root: Seq<char>,
    project: AuditProjectRule,
    rules: AuditRules,
    entries: Seq<RootEntry>,
    folders: Seq<SizedEntry>,
    known: Seq<Seq<char>>,
    names: Seq<Seq<char>>,
    previous: Option<Seq<SizedEntry>>,
)
    ensures
        unknown_folders(known, entries).len() <= entries.len(),
        generated_folders(style, folders, project.path@, names).len() <= folders.len(),
        project_alerts(style, root, project, rules, folders).len() <= 2 + folders.len(),
        !project.watch_generated_outputs ==> project_alerts(
            style,
            root,
            project,
            rules,
            folders,
        ).len() <= 2,
        all_alerts(style, root, rules, entries, folders, previous).len() <= entries.len()
            + rules.projects@.len() * (3 + folders.len()),
{
    let path = join(style, root, project.path@);
    lemma_unknown_count(known, entries);
    lemma_unknown_count(texts(rules.known_top_level_folders@), entries);
    lemma_output_count(style, folders, project.path@, names);
    lemma_output_count(style, folders, path, watched_names(project, rules));
    let n = rules.projects@.len() as int;
    lemma_project_count(style, root, rules, folders, n);
    if let Some(earlier) = previous {
        lemma_growth_count(
            style,
            root,
            rules,
            folder_index(folders),
            folder_index(earlier),
            n,
        );
    }
    assert(n * (2 + folders.len()) + n == n * (3 + folders.len())) by (nonlinear_arith);
}

proof fn lemma_unknown_count(known: Seq<Seq<char>>, entries: Seq<RootEntry>)
    ensures
        unknown_folders(known, entries).len() <= entries.len(),
    decreases entries.len(),
{
    if entries.len() > 0 {
        lemma_unknown_count(known, entries.drop_last());
    }
}

proof fn lemma_output_count(
    style: PathStyle,
    folders: Seq<SizedEntry>,
    project: Seq<char>,
    names: Seq<Seq<char>>,
)
    ensures
        generated_folders(style, folders, project, names).len() <= folders.len(),
    decreases folders.len(),
{
    if folders.len() > 0 {
        lemma_output_count(style, folders.drop_last(), project, names);
    }
}

proof fn lemma_project_count(
    style: PathStyle,
    root: Seq<char>,
    rules: AuditRules,
    folders: Seq<SizedEntry>,
    n: int,
)
    requires
        0 <= n <= rules.projects@.len(),
    ensures
        all_project_alerts(style, root, rules, folders, n).len() <= n * (2 + folders.len()),
    decreases n,
{
    if n > 0 {
        let project = rules.projects@[n - 1];
        lemma_project_count(style, root, rules, folders, n - 1);
        lemma_output_count(
            style,
            folders,
            join(style, root, project.path@),
            watched_names(project, rules),
        );
        assert(n * (2 + folders.len()) == (n - 1) * (2 + folders.len()) + (2 + folders.len()))
            by (nonlinear_arith);
    }
}

proof fn lemma_growth_count(
    style: PathStyle,
    root: Seq<char>,
    rules: AuditRules,
    now: Map<Seq<char>, u64>,
    before: Map<Seq<char>, u64>,
    n: int,
)
    requires
        0 <= n <= rules.projects@.len(),
    ensures
        all_growth_alerts(style, root, rules, now, before, n).len() <= n,
    decreases n,
{
    if n > 0 {
        lemma_growth_count(style, root, rules, now, before, n - 1);
    }
}

/// What is found of a folder directly under the root that no rule knows.
pub open spec fn is_unknown(a: AlertView, entry: RootEntry, known: Seq<Seq<char>>) -> bool {
    &&& entry.is_dir
    &&& entry.name@ != ".git"@
    &&& !one_of(known, entry.name@)
    &&& a.severity == AuditSeverity::Warning
    &&& a.rule_id == "unknown_top_level_folder"@
    &&& a.path == entry.path@
    &&& a.message == "Unregistered top-level folder is present under the audit root."@
    &&& a.measured_bytes is None
    &&& a.threshold_bytes is None
}

proof fn lemma_unknown(a: AlertView, known: Seq<Seq<char>>, entries: Seq<RootEntry>)
    ensures
        unknown_folders(known, entries).contains(a) <==> exists|k: int|
            0 <= k < entries.len() && is_unknown(a, #[trigger] entries[k], known),
    decreases entries.len(),
{
    let list = unknown_folders(known, entries);
    if entries.len() > 0 {
        let init = entries.drop_last();
        let before = unknown_folders(known, init);
        lemma_unknown(a, known, init);
        lemma_one_of(known, entries.last().name@);
        if list.contains(a) {
            let i = choose|i: int| 0 <= i < list.len() && list[i] == a;
            if i < before.len() {
                assert(before[i] == a);
                let k = choose|k: int|
                    0 <= k < init.len() && is_unknown(a, #[trigger] init[k], known);
                assert(entries[k] == init[k]);
            } else {
                assert(is_unknown(a, entries[entries.len() - 1], known));
            }
        }
        if exists|k: int| 0 <= k < entries.len() && is_unknown(a, #[trigger] entries[k], known) {
            let k = choose|k: int|
                0 <= k < entries.len() && is_unknown(a, #[trigger] entries[k], known);
            if k < init.len() {
                assert(init[k] == entries[k]);
                let i = choose|i: int| 0 <= i < before.len() && before[i] == a;
                assert(list[i] == a);
            } else {
                assert(list.last() == a);
            }
        }
    }
}

/// A report holds exactly: each unknown folder under the root, where known ones
/// are listed; what is found of each project; and, where there is an earlier
/// scan, each project that grew by more than it may.
pub proof fn law_what_an_audit_finds(
    style: PathStyle,
    report: AuditReport,
    workspace: Seq<char>,
    snapshot: Snapshot,
    previous: Option<Snapshot>,
    rules: AuditRules,
    entries: Seq<RootEntry>,
    limit: nat,
    reused: bool,
    now: u64,
    a: AlertView,
)
    requires
        report.reports(
            style,
            workspace,
            snapshot,
            previous,
            rules,
            entries,
            limit,
            reused,
            now,
        ),
    ensures
        ({
            let root = snapshot.roots@[0]@;
            let folders = snapshot.largest_folders@;
            alert_views(report.alerts@).contains(a) <==> {
                ||| rules.known_top_level_folders@.len() > 0 && exists|k: int|
                    0 <= k < entries.len() && is_unknown(
                        a,
                        #[trigger] entries[k],
                        texts(rules.known_top_level_folders@),
                    )
                ||| exists|i: int|
                    0 <= i < rules.projects@.len() && project_alerts(
                        style,
                        root,
                        #[trigger] rules.projects@[i],
                        rules,
                        folders,
                    ).contains(a)
                ||| previous is Some && exists|i: int|
                    0 <= i < rules.projects@.len() && is_growth(
                        style,
                        a,
                        root,
                        #[trigger] rules.projects@[i],
                        rules,
                        folders,
                        previous->0.largest_folders@,
                    )
            }
        }),
{
    let root = snapshot.roots@[0]@;
    let folders = snapshot.largest_folders@;
    let n = rules.projects@.len() as int;
    let known = texts(rules.known_top_level_folders@);
    lemma_unknown(a, known, entries);
    lemma_projects(style, a, root, rules, folders, n);
    let x = if rules.known_top_level_folders@.len() == 0 {
        Seq::empty()
    } else {
        unknown_folders(known, entries)
    };
    let y = all_project_alerts(style, root, rules, folders, n);
    let z = match previous {
        Some(earlier) => all_growth_alerts(
            style,
            root,
            rules,
            folder_index(folders),
            folder_index(earlier.largest_folders@),
            n,
        ),
        None => Seq::empty(),
    };
    if let Some(earlier) = previous {
        lemma_growth(style, a, root, rules, folders, earlier.largest_folders@, n);
    }
    lemma_contains_added(x + y, z, a);
    lemma_contains_added(x, y, a);
}

// ---------------------------------------------------------------------------
// The report as text
// ---------------------------------------------------------------------------

/// The word for a severity.
pub open spec fn severity_word(severity: AuditSeverity) -> Seq<char> {
    match severity {
        AuditSeverity::Info => "Info"@,
        AuditSeverity::Warning => "Warning"@,
        AuditSeverity::Alert => "Alert"@,
    }
}

fn severity_text(severity: AuditSeverity) -> (r: &'static str)
    ensures
        r@ == severity_word(severity),
{
    match severity {
        AuditSeverity::Info => "Info",
        AuditSeverity::Warning => "Warning",
        AuditSeverity::Alert => "Alert",
    }
}

/// The line of a finding.
pub open spec fn alert_line(alert: AuditAlert) -> Seq<char> {
    "  ["@ + severity_word(alert.severity) + "] "@ + alert.path@ + ": "@ + alert.message@
}

/// The line of a folder; `at` counts from zero.
pub open spec fn folder_line(at: nat, folder: SizedEntry) -> Seq<char> {
    "  "@ + decimal(at + 1) + ". "@ + size_text(folder.bytes as nat) + "  "@ + folder.path@
}

/// The head of the report.
pub open spec fn report_head(report: AuditReport) -> Seq<Seq<char>> {
    seq![
        "Audit report"@,
        "  workspace: "@ + report.workspace@,
        "  scanned at: "@ + report.scanned_at_utc@,
        "  generated at: "@ + report.generated_at_utc@,
        "  roots: "@ + joined(texts(report.roots@), ", "@),
        "  alerts: "@ + decimal(report.alerts@.len()),
    ]
}

/// The findings of the report.
pub open spec fn report_alerts(alerts: Seq<AuditAlert>) -> Seq<Seq<char>> {
    if alerts.len() == 0 {
        seq!["  no audit thresholds were exceeded"@]
    } else {
        seq![""@, "Alerts"@] + alerts.map_values(|a: AuditAlert| alert_line(a))
    }
}

/// The folders of the report.
pub open spec fn report_folders(folders: Seq<SizedEntry>) -> Seq<Seq<char>> {
    if folders.len() == 0 {
        Seq::empty()
    } else {
        seq![""@, "Largest folders"@] + Seq::new(
            folders.len(),
            |i: int| folder_line(i as nat, folders[i]),
        )
    }
}

/// The report as text.
pub open spec fn report_lines(report: AuditReport) -> Seq<Seq<char>> {
    report_head(report) + report_alerts(report.alerts@) + report_folders(report.largest_folders@)
}

fn push_alert_lines(out: &mut Vec<String>, alerts: &Vec<AuditAlert>)
    ensures
        texts(final(out)@) == texts(old(out)@) + report_alerts(alerts@),
{
    let ghost start = texts(out@);
    let ghost goal = report_alerts(alerts@);
    if alerts.len() == 0 {
        push_text(out, "  no audit thresholds were exceeded".to_owned());
        assert(texts(out@) =~= start + goal);
        return ;
    }
    push_text(out, "".to_owned());
    push_text(out, "Alerts".to_owned());
    assert(texts(out@) =~= start + goal.take(2));
    for i in 0..alerts.len()
        invariant
            alerts@.len() > 0,
            goal == report_alerts(alerts@),
            texts(out@) == start + goal.take(i + 2),
    {
        let alert = &alerts[i];
        let line = "  [".to_owned().concat(severity_text(alert.severity)).concat("] ").concat(
            alert.path.as_str(),
        ).concat(": ").concat(alert.message.as_str());
        assert(line@ == goal[i + 2]);
        push_text(out, line);
        assert(texts(out@) =~= start + goal.take(i + 3));
    }
    assert(goal.take(goal.len() as int) =~= goal);
}

fn push_folder_lines(out: &mut Vec<String>, folders: &Vec<SizedEntry>)
    ensures
        texts(final(out)@) == texts(old(out)@) + report_folders(folders@),
{
    let ghost start = texts(out@);
    let ghost goal = report_folders(folders@);
    if folders.len() == 0 {
        assert(texts(out@) =~= start + goal);
        return ;
    }
    push_text(out, "".to_owned());
    push_text(out, "Largest folders".to_owned());
    assert(texts(out@) =~= start + goal.take(2));
    for i in 0..folders.len()
        invariant
            folders@.len() > 0,
            goal == report_folders(folders@),
            texts(out@) == start + goal.take(i + 2),
    {
        let folder = &folders[i];
        let line = "  ".to_owned().concat(decimal_text(i as u64 + 1).as_str()).concat(". ").concat(
            human_size(folder.bytes).as_str(),
        ).concat("  ").concat(folder.path.as_str());
        assert(line@ == goal[i + 2]);
        push_text(out, line);
        assert(texts(out@) =~= start + goal.take(i + 3));
    }
    assert(goal.take(goal.len() as int) =~= goal);
}

/// The lines of the report.
pub fn print_audit_report(report: &AuditReport) -> (r: Vec<String>)
    ensures
        texts(r@) == report_lines(*report),
{
    let mut out: Vec<String> = Vec::new();
    push_text(&mut out, "Audit report".to_owned());
    push_text(&mut out, "  workspace: ".to_owned().concat(report.workspace.as_str()));
    push_text(&mut out, "  scanned at: ".to_owned().concat(report.scanned_at_utc.as_str()));
    push_text(&mut out, "  generated at: ".to_owned().concat(report.generated_at_utc.as_str()));
    push_text(
        &mut out,
        "  roots: ".to_owned().concat(join_texts(report.roots.as_slice(), ", ").as_str()),
    );
    push_text(
        &mut out,
        "  alerts: ".to_owned().concat(decimal_text(report.alerts.len() as u64).as_str()),
    );
    assert(texts(out@) =~= report_head(*report));
    push_alert_lines(&mut out, &report.alerts);
    push_folder_lines(&mut out, &report.largest_folders);
    out
}

} // verus!
