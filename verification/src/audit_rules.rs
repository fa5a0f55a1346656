//! Audit rules: what a project may take, and how rules are validated, made up
//! and read from a workspace inventory.
use crate::config::{FileRead, AUDIT_REPORT_VERSION};
use crate::double::Double;
use crate::error::{refuse, CliError};
use crate::names::{in_name_order, NameMap};
use crate::numbers::{decimal, decimal_text};
use crate::snapshot::opt_text;
use crate::text::{
    begins, begins_with, contains_part, from_chars, has_part, is_blank, lines, lines_of, lower,
    pieces, split, stands_at, text_contains, texts, to_chars, to_lower, trim, trim_text, Kind,
};
use crate::categories::Separator;
use crate::paths::slice_of;
use vstd::prelude::*;

verus! {

/// The rules of an audit.
#[derive(Debug, PartialEq, Eq)]
pub struct AuditRules {
    pub schema_version: Option<u32>,
    pub audit_workspace: Option<String>,
    pub root: Option<String>,
    pub default_thresholds: AuditDefaultThresholds,
    pub generated_path_names: Vec<String>,
    pub known_top_level_folders: Vec<String>,
    pub projects: Vec<AuditProjectRule>,
}

/// Thresholds in megabytes for projects that set none.
#[derive(Debug, Clone, Copy, PartialEq, Eq)]
pub struct AuditDefaultThresholds {
    pub max_size_mb: Option<Double>,
    pub max_git_size_mb: Option<Double>,
    pub growth_alert_mb: Option<Double>,
}

impl Default for AuditDefaultThresholds {
    fn default() -> (r: Self)
        ensures
            r == (AuditDefaultThresholds {
                max_size_mb: None,
                max_git_size_mb: None,
                growth_alert_mb: None,
            }),
    {
        AuditDefaultThresholds { max_size_mb: None, max_git_size_mb: None, growth_alert_mb: None }
    }
}

/// The rules of one project.
#[derive(Debug, PartialEq, Eq)]
pub struct AuditProjectRule {
    pub path: String,
    pub classification: Option<String>,
    pub max_size_mb: Option<Double>,
    pub max_git_size_mb: Option<Double>,
    pub growth_alert_mb: Option<Double>,
    pub watch_generated_outputs: bool,
    pub generated_path_names: Option<Vec<String>>,
}

// ---------------------------------------------------------------------------
// Validation
// ---------------------------------------------------------------------------

/// What validation says of accepted rules.
#[derive(Debug, PartialEq, Eq)]
pub struct AuditRulesValidation {
    pub valid: bool,
    pub rule_count: usize,
    pub warnings: Vec<String>,
}

/// Backslashes turned round.
pub open spec fn slashed(s: Seq<char>) -> Seq<char> {
    s.map_values(
        |c: char|
            if c == '\\' {
                '/'
            } else {
                c
            },
    )
}

/// A project path as it is compared.
pub open spec fn project_key(path: Seq<char>) -> Seq<char> {
    lower(slashed(path))
}

/// The text with backslashes turned round, in lower case.
pub fn slashed_lower(s: &str) -> (r: Vec<char>)
    ensures
        r@ == lower(slashed(s@)),
{
    let chars = to_chars(s);
    let ghost all = lower(slashed(chars@));
    let mut out: Vec<char> = Vec::new();
    for i in 0..chars.len()
        invariant
            all == lower(slashed(chars@)),
            out@ == all.take(i as int),
    {
        let c = chars[i];
        out.push(
            if c == '\\' {
                '/'
            } else {
                crate::text::to_lower_char(c)
            },
        );
        assert(all[i as int] == out@.last());
        assert(all.take(i + 1) =~= all.take(i as int).push(all[i as int]));
    }
    assert(all.take(chars@.len() as int) =~= all);
    out
}

/// The refusal of a threshold, where it is no usable amount.
pub open spec fn threshold_refused(label: Seq<char>, value: Option<Double>) -> Option<Seq<char>> {
    match value {
        Some(v) => if v.amount() {
            None
        } else {
            Some(
                "audit threshold `"@ + label + "` must be a non-negative finite number"@,
            )
        },
        None => None,
    }
}

/// The first of three refusals.
pub open spec fn first_refusal(
    a: Option<Seq<char>>,
    b: Option<Seq<char>>,
    c: Option<Seq<char>>,
) -> Option<Seq<char>> {
    if a is Some {
        a
    } else if b is Some {
        b
    } else {
        c
    }
}

/// Why the rules of a project are refused, if they are.
pub open spec fn project_refused(project: AuditProjectRule) -> Option<Seq<char>> {
    let key = project_key(project.path@);
    if trim(project.path@).len() == 0 {
        Some("audit project path must not be empty"@)
    } else if has_part(key, ".."@) || begins(key, "/"@) {
        Some(
            "audit project path `"@ + project.path@
                + "` must be relative and must not contain `..`"@,
        )
    } else {
        first_refusal(
            threshold_refused("max_size_mb"@, project.max_size_mb),
            threshold_refused("max_git_size_mb"@, project.max_git_size_mb),
            threshold_refused("growth_alert_mb"@, project.growth_alert_mb),
        )
    }
}

/// Why some project from `from` on is refused: the first one decides.
pub open spec fn projects_refused(projects: Seq<AuditProjectRule>, from: int) -> Option<Seq<char>>
    decreases projects.len() - from,
{
    if from >= projects.len() {
        None
    } else if project_refused(projects[from]) is Some {
        project_refused(projects[from])
    } else {
        projects_refused(projects, from + 1)
    }
}

/// Why audit rules are refused, if they are: a later schema, a project, a
/// default threshold, in this order.
pub open spec fn rules_refused(rules: AuditRules) -> Option<Seq<char>> {
    let later = match rules.schema_version {
        Some(version) => if version > AUDIT_REPORT_VERSION {
            Some(
                "unsupported audit rules version "@ + decimal(version as nat)
                    + "; this dscan11 supports "@ + decimal(AUDIT_REPORT_VERSION as nat),
            )
        } else {
            None
        },
        None => None,
    };
    first_refusal(
        later,
        projects_refused(rules.projects@, 0),
        first_refusal(
            threshold_refused("default max_size_mb"@, rules.default_thresholds.max_size_mb),
            threshold_refused(
                "default max_git_size_mb"@,
                rules.default_thresholds.max_git_size_mb,
            ),
            threshold_refused(
                "default growth_alert_mb"@,
                rules.default_thresholds.growth_alert_mb,
            ),
        ),
    )
}

/// An earlier project has the same path.
pub open spec fn repeated(projects: Seq<AuditProjectRule>, i: int) -> bool {
    exists|k: int|
        0 <= k < i && project_key((#[trigger] projects[k]).path@) == project_key(
            projects[i].path@,
        )
}

/// A warning for each project whose path stood before.
pub open spec fn repeat_warnings(projects: Seq<AuditProjectRule>, n: int) -> Seq<Seq<char>>
    decreases n,
{
    if n <= 0 {
        Seq::empty()
    } else if repeated(projects, n - 1) {
        repeat_warnings(projects, n - 1).push(
            "duplicate project rule for `"@ + projects[n - 1].path@ + "`"@,
        )
    } else {
        repeat_warnings(projects, n - 1)
    }
}

fn validate_optional_mb(label: &str, value: Option<Double>) -> (r: Result<(), CliError>)
    ensures
        match threshold_refused(label@, value) {
            Some(message) => r matches Err(e) && e.says(message),
            None => r is Ok,
        },
{
    if let Some(v) = value {
        if !v.is_amount() {
            return Err(
                CliError::Message(
                    "audit threshold `".to_owned().concat(label).concat(
                        "` must be a non-negative finite number",
                    ),
                ),
            );
        }
    }
    Ok(())
}

fn check_thresholds(
    labels: (&str, &str, &str),
    values: (Option<Double>, Option<Double>, Option<Double>),
) -> (r: Result<(), CliError>)
    ensures
        match first_refusal(
            threshold_refused(labels.0@, values.0),
            threshold_refused(labels.1@, values.1),
            threshold_refused(labels.2@, values.2),
        ) {
            Some(message) => r matches Err(e) && e.says(message),
            None => r is Ok,
        },
{
    if let Err(e) = validate_optional_mb(labels.0, values.0) {
        return Err(e);
    }
    if let Err(e) = validate_optional_mb(labels.1, values.1) {
        return Err(e);
    }
    validate_optional_mb(labels.2, values.2)
}

fn check_project(project: &AuditProjectRule) -> (r: Result<(), CliError>)
    ensures
        match project_refused(*project) {
            Some(message) => r matches Err(e) && e.says(message),
            None => r is Ok,
        },
{
    if is_blank(project.path.as_str()) {
        return Err(refuse("audit project path must not be empty"));
    }
    let key = slashed_lower(project.path.as_str());
    let dots = to_chars("..");
    let slash = to_chars("/");
    if contains_part(key.as_slice(), dots.as_slice()) || stands_at(
        key.as_slice(),
        slash.as_slice(),
        0,
    ) {
        return Err(
            CliError::Message(
                "audit project path `".to_owned().concat(project.path.as_str()).concat(
                    "` must be relative and must not contain `..`",
                ),
            ),
        );
    }
    check_thresholds(
        ("max_size_mb", "max_git_size_mb", "growth_alert_mb"),
        (project.max_size_mb, project.max_git_size_mb, project.growth_alert_mb),
    )
}

/// Validates audit rules. A path that stands twice is a warning.
pub fn validate_audit_rules(rules: &AuditRules) -> (r: Result<AuditRulesValidation, CliError>)
    ensures
        match rules_refused(*rules) {
            Some(message) => r matches Err(e) && e.says(message),
            None => r matches Ok(v) && v.valid && v.rule_count == rules.projects@.len() && texts(
                v.warnings@,
            ) == repeat_warnings(rules.projects@, rules.projects@.len() as int),
        },
{
    if let Some(version) = rules.schema_version {
        if version > AUDIT_REPORT_VERSION {
            return Err(
                CliError::Message(
                    "unsupported audit rules version ".to_owned().concat(
                        decimal_text(version as u64).as_str(),
                    ).concat("; this dscan11 supports ").concat(
                        decimal_text(AUDIT_REPORT_VERSION as u64).as_str(),
                    ),
                ),
            );
        }
    }
    let mut warnings: Vec<String> = Vec::new();
    let mut seen: NameMap<()> = NameMap::new();
    let ghost projects = rules.projects@;
    assert(texts(warnings@) =~= Seq::<Seq<char>>::empty());
    for i in 0..rules.projects.len()
        invariant
            projects == rules.projects@,
            rules.schema_version matches Some(version) ==> version <= AUDIT_REPORT_VERSION,
            projects_refused(projects, 0) == projects_refused(projects, i as int),
            seen.wf(),
            forall|key: Seq<char>| #[trigger]
                seen.map().contains_key(key) <==> exists|k: int|
                    0 <= k < i && project_key((#[trigger] projects[k]).path@) == key,
            texts(warnings@) == repeat_warnings(projects, i as int),
    {
        let project = &rules.projects[i];
        if let Err(e) = check_project(project) {
            return Err(e);
        }
        let key = from_chars(slashed_lower(project.path.as_str()).as_slice());
        let ghost before = texts(warnings@);
        let ghost name = key@;
        let ghost known = seen.map();
        if seen.contains_key(key.as_str()) {
            let warning = "duplicate project rule for `".to_owned().concat(
                project.path.as_str(),
            ).concat("`");
            warnings.push(warning);
            assert(texts(warnings@) =~= before.push(warning@));
        } else {
            seen.insert(key, ());
        }
        assert(seen.map().dom() =~= known.dom().insert(name));
        assert forall|k: Seq<char>| #[trigger] seen.map().contains_key(k) <==> exists|j: int|
            0 <= j < i + 1 && project_key((#[trigger] projects[j]).path@) == k by {
            if known.contains_key(k) {
                let j = choose|j: int|
                    0 <= j < i && project_key((#[trigger] projects[j]).path@) == k;
                assert(project_key(projects[j].path@) == k);
            }
            assert(project_key(projects[i as int].path@) == name);
            assert(seen.map().contains_key(k) <==> known.contains_key(k) || k == name);
        }
    }
    let defaults = &rules.default_thresholds;
    if let Err(e) = check_thresholds(
        ("default max_size_mb", "default max_git_size_mb", "default growth_alert_mb"),
        (defaults.max_size_mb, defaults.max_git_size_mb, defaults.growth_alert_mb),
    ) {
        return Err(e);
    }
    Ok(AuditRulesValidation { valid: true, rule_count: rules.projects.len(), warnings })
}

/// The rules, from what came of reading their file.
pub fn load_audit_rules(path: &str, read: FileRead<AuditRules>) -> (r: Result<
    AuditRules,
    CliError,
>)
    ensures
        match read {
            FileRead::Missing(cause) => r matches Err(CliError::Io { context, source })
                && context@ == "failed to read audit rules "@ + path@ && source == cause,
            FileRead::Failed(cause) => r matches Err(CliError::Io { context, source })
                && context@ == "failed to read audit rules "@ + path@ && source == cause,
            FileRead::Unparsed(cause) => r matches Err(CliError::Json { context, source })
                && context@ == "failed to parse audit rules "@ + path@ && source == cause,
            FileRead::Parsed(rules) => r == Ok::<AuditRules, CliError>(rules),
        },
{
    match read {
        FileRead::Missing(source) => Err(
            CliError::Io { context: "failed to read audit rules ".to_owned().concat(path), source },
        ),
        FileRead::Failed(source) => Err(
            CliError::Io { context: "failed to read audit rules ".to_owned().concat(path), source },
        ),
        FileRead::Unparsed(source) => Err(
            CliError::Json {
                context: "failed to parse audit rules ".to_owned().concat(path),
                source,
            },
        ),
        FileRead::Parsed(rules) => Ok(rules),
    }
}

// ---------------------------------------------------------------------------
// Default rules
// ---------------------------------------------------------------------------

/// The bits of 25.0.
pub const MB_25: u64 = 0x4039_0000_0000_0000;

/// The bits of 100.0.
pub const MB_100: u64 = 0x4059_0000_0000_0000;

/// The bits of 250.0.
pub const MB_250: u64 = 0x406f_4000_0000_0000;

/// The bits of 500.0.
pub const MB_500: u64 = 0x407f_4000_0000_0000;

/// The folders that count as generated, unless set otherwise.
pub open spec fn default_generated_names() -> Seq<Seq<char>> {
    seq!["target"@, "target-fresh"@, ".venv"@, "node_modules"@, "dist"@, ".cache"@]
}

/// The rules are the default ones, but for the projects and the folders known.
pub open spec fn default_frame(rules: AuditRules) -> bool {
    &&& rules.schema_version == Some(AUDIT_REPORT_VERSION)
    &&& rules.audit_workspace is None
    &&& rules.root is None
    &&& rules.default_thresholds == (AuditDefaultThresholds {
        max_size_mb: Some(Double { bits: MB_500 }),
        max_git_size_mb: Some(Double { bits: MB_100 }),
        growth_alert_mb: Some(Double { bits: MB_250 }),
    })
    &&& texts(rules.generated_path_names@) == default_generated_names()
}

/// The default rules; they are valid.
pub fn default_audit_rules() -> (r: AuditRules)
    ensures
        default_frame(r),
        r.known_top_level_folders@.len() == 0,
        r.projects@.len() == 0,
        rules_refused(r) is None,
{
    let generated_path_names = vec![
        "target".to_owned(),
        "target-fresh".to_owned(),
        ".venv".to_owned(),
        "node_modules".to_owned(),
        "dist".to_owned(),
        ".cache".to_owned(),
    ];
    assert(texts(generated_path_names@) =~= default_generated_names());
    AuditRules {
        schema_version: Some(AUDIT_REPORT_VERSION),
        audit_workspace: None,
        root: None,
        default_thresholds: AuditDefaultThresholds {
            max_size_mb: Some(Double { bits: MB_500 }),
            max_git_size_mb: Some(Double { bits: MB_100 }),
            growth_alert_mb: Some(Double { bits: MB_250 }),
        },
        generated_path_names,
        known_top_level_folders: Vec::new(),
        projects: Vec::new(),
    }
}

/// The rules to write to a new file; a file that is there is kept.
pub fn write_default_audit_rules(path: &str, present: bool) -> (r: Result<AuditRules, CliError>)
    ensures
        if present {
            r matches Err(e) && e.says("audit rules already exist: "@ + path@)
        } else {
            r matches Ok(rules) && default_frame(rules) && rules.known_top_level_folders@.len()
                == 0 && rules.projects@.len() == 0
        },
{
    if present {
        return Err(
            CliError::Message("audit rules already exist: ".to_owned().concat(path)),
        );
    }
    Ok(default_audit_rules())
}

// ---------------------------------------------------------------------------
// Inventory
// ---------------------------------------------------------------------------

/// The text without `head` before it, however often it stands there.
pub open spec fn without_heads(s: Seq<char>, head: Seq<char>) -> Seq<char>
    decreases s.len(),
{
    if head.len() > 0 && begins(s, head) {
        without_heads(s.skip(head.len() as int), head)
    } else {
        s
    }
}

/// The place of the first grave accent from `from` on, the length where there
/// is none.
pub open spec fn accent_at(s: Seq<char>, from: int) -> int
    decreases s.len() - from,
{
    if from >= s.len() || s[from] == '`' {
        from
    } else {
        accent_at(s, from + 1)
    }
}

/// The folder that a heading of the inventory names.
pub open spec fn heading(line: Seq<char>) -> Option<Seq<char>> {
    let rest = without_heads(trim(line), "### `"@);
    let end = accent_at(rest, 0);
    if begins(trim(line), "### `"@) && end < rest.len() {
        Some(rest.take(end))
    } else {
        None
    }
}

/// The classification that a line of the inventory gives.
pub open spec fn classification(line: Seq<char>) -> Option<Seq<char>> {
    if begins(trim(line), "- `Classification`:"@) {
        Some(trim(without_heads(trim(line), "- `Classification`:"@)))
    } else {
        None
    }
}

fn strip_heads(s: &Vec<char>, head: &Vec<char>) -> (r: Vec<char>)
    requires
        head@.len() > 0,
    ensures
        r@ == without_heads(s@, head@),
{
    let mut at: usize = 0;
    let size: usize = s.len();
    assert(s@.skip(0) == s@);
    while stands_at(s.as_slice(), head.as_slice(), at)
        invariant
            at <= size,
            size == s@.len(),
            head@.len() > 0,
            without_heads(s@, head@) == without_heads(s@.skip(at as int), head@),
        decreases size - at,
    {
        proof {
            let rest = s@.skip(at as int);
            assert(rest.subrange(0, head@.len() as int) =~= s@.subrange(
                at as int,
                at + head@.len(),
            ));
            assert(rest.skip(head@.len() as int) =~= s@.skip(at + head@.len()));
        }
        at = at + head.len();
    }
    proof {
        let rest = s@.skip(at as int);
        if begins(rest, head@) {
            assert(rest.subrange(0, head@.len() as int) =~= s@.subrange(
                at as int,
                at + head@.len(),
            ));
        }
    }
    let out = slice_of(s.as_slice(), at, size);
    assert(out@ =~= s@.skip(at as int));
    out
}

/// The folder that a heading of the inventory names.
pub fn parse_inventory_heading(line: &str) -> (r: Option<String>)
    ensures
        opt_text(r) == heading(line@),
{
    let trimmed = trim_text(line);
    if !begins_with(trimmed.as_str(), "### `") {
        return None;
    }
    let head = to_chars("### `");
    proof {
        reveal_strlit("### `");
    }
    let rest = strip_heads(&to_chars(trimmed.as_str()), &head);
    for i in 0..rest.len()
        invariant
            rest@ == without_heads(trim(line@), "### `"@),
            begins(trim(line@), "### `"@),
            accent_at(rest@, 0) == accent_at(rest@, i as int),
    {
        if rest[i] == '`' {
            let name = slice_of(rest.as_slice(), 0, i);
            assert(name@ =~= rest@.take(i as int));
            return Some(from_chars(name.as_slice()));
        }
    }
    None
}

/// The classification that a line of the inventory gives.
pub fn parse_inventory_classification(line: &str) -> (r: Option<String>)
    ensures
        opt_text(r) == classification(line@),
{
    let trimmed = trim_text(line);
    if !begins_with(trimmed.as_str(), "- `Classification`:") {
        return None;
    }
    let head = to_chars("- `Classification`:");
    proof {
        reveal_strlit("- `Classification`:");
    }
    let rest = strip_heads(&to_chars(trimmed.as_str()), &head);
    Some(trim_text(from_chars(rest.as_slice()).as_str()))
}

/// What the lines read so far say: the folder whose entry is open, the
/// classification last given, and the folders whose entries are closed.
pub struct Inventory {
    pub folder: Option<Seq<char>>,
    pub class: Option<Seq<char>>,
    pub closed: Seq<(Seq<char>, Option<Seq<char>>)>,
}

/// The inventory with the open entry closed.
pub open spec fn closed(inventory: Inventory) -> Inventory {
    match inventory.folder {
        Some(folder) => Inventory {
            folder: None,
            class: None,
            closed: inventory.closed.push((folder, inventory.class)),
        },
        None => inventory,
    }
}

/// The inventory with one more line.
pub open spec fn with_line(inventory: Inventory, line: Seq<char>) -> Inventory {
    match heading(line) {
        Some(folder) => Inventory { folder: Some(folder), ..closed(inventory) },
        None => match classification(line) {
            Some(class) => Inventory { class: Some(class), ..inventory },
            None => inventory,
        },
    }
}

/// What the lines say.
pub open spec fn inventory_of(all: Seq<Seq<char>>) -> Inventory
    decreases all.len(),
{
    if all.len() == 0 {
        Inventory { folder: None, class: None, closed: Seq::empty() }
    } else {
        with_line(inventory_of(all.drop_last()), all.last())
    }
}

/// The folders of an inventory with their classifications.
pub open spec fn inventory_folders(contents: Seq<char>) -> Seq<(Seq<char>, Option<Seq<char>>)> {
    closed(inventory_of(lines(contents))).closed
}

/// This is the rule for a folder of the inventory.
pub open spec fn inventory_rule(
    rule: AuditProjectRule,
    folder: (Seq<char>, Option<Seq<char>>),
) -> bool {
    let small = has_part(lower(folder.0), "dscan11"@);
    &&& rule.path@ == folder.0
    &&& opt_text(rule.classification) == folder.1
    &&& rule.max_size_mb == Some(
        Double {
            bits: if small {
                MB_250
            } else {
                MB_500
            },
        },
    )
    &&& rule.max_git_size_mb == Some(
        Double {
            bits: if small {
                MB_25
            } else {
                MB_100
            },
        },
    )
    &&& rule.growth_alert_mb is None
    &&& rule.watch_generated_outputs
    &&& rule.generated_path_names is None
}

/// These are the rules for the folders of the inventory.
pub open spec fn inventory_rules(
    rules: Seq<AuditProjectRule>,
    folders: Seq<(Seq<char>, Option<Seq<char>>)>,
) -> bool {
    &&& rules.len() == folders.len()
    &&& forall|i: int| 0 <= i < rules.len() ==> inventory_rule(#[trigger] rules[i], folders[i])
}

/// The rule for a folder of the inventory.
pub fn inventory_project_rule(path: String, classification: Option<String>) -> (r: AuditProjectRule)
    ensures
        inventory_rule(r, (path@, opt_text(classification))),
{
    let small = text_contains(to_lower(path.as_str()).as_str(), "dscan11");
    AuditProjectRule {
        path,
        classification,
        max_size_mb: Some(
            Double {
                bits: if small {
                    MB_250
                } else {
                    MB_500
                },
            },
        ),
        max_git_size_mb: Some(
            Double {
                bits: if small {
                    MB_25
                } else {
                    MB_100
                },
            },
        ),
        growth_alert_mb: None,
        watch_generated_outputs: true,
        generated_path_names: None,
    }
}

/// The first names of the project paths.
pub open spec fn first_names(projects: Seq<AuditProjectRule>) -> Set<Seq<char>> {
    Set::new(
        |x: Seq<char>|
            x.len() > 0 && exists|i: int|
                0 <= i < projects.len() && x == first_name((#[trigger] projects[i]).path@),
    )
}

/// What stands before the first separator.
pub open spec fn first_name(path: Seq<char>) -> Seq<char> {
    pieces(path, |c: char| Separator::of(c))[0]
}

fn top_level_names(projects: &Vec<AuditProjectRule>) -> (r: Vec<String>)
    ensures
        texts(r@) == in_name_order(first_names(projects@)),
{
    let ghost all = projects@;
    let mut set: NameMap<()> = NameMap::new();
    for i in 0..projects.len()
        invariant
            all == projects@,
            set.wf(),
            set.map().dom() =~= first_names(all.take(i as int)),
    {
        let parts = split::<Separator>(projects[i].path.as_str());
        let name = parts[0].clone();
        let ghost now = all.take(i as int);
        let ghost next = all.take(i + 1);
        proof {
            assert(texts(parts@)[0] == parts@[0]@);
            assert(name@ == first_name(all[i as int].path@));
            assert forall|x: Seq<char>|
                #![auto]
                first_names(next).contains(x) <==> first_names(now).contains(x) || (x == name@
                    && x.len() > 0) by {
                if first_names(next).contains(x) {
                    let k = choose|k: int|
                        0 <= k < next.len() && x == first_name((#[trigger] next[k]).path@);
                    if k < i {
                        assert(now[k] == next[k]);
                    }
                }
                if first_names(now).contains(x) {
                    let k = choose|k: int|
                        0 <= k < now.len() && x == first_name((#[trigger] now[k]).path@);
                    assert(next[k] == now[k]);
                }
                assert(next[i as int] == all[i as int]);
            }
        }
        if !name.as_str().is_empty() {
            set.insert(name, ());
        }
    }
    assert(all.take(all.len() as int) == all);
    proof {
        set.lemma_keys();
    }
    let mut list: Vec<String> = Vec::new();
    let count: usize = set.len();
    assert(texts(list@) =~= set.keys().take(0));
    for i in 0..count
        invariant
            set.wf(),
            count == set.keys().len(),
            texts(list@) =~= set.keys().take(i as int),
    {
        let ghost before = texts(list@);
        let name = set.name_at(i).clone();
        list.push(name);
        assert(texts(list@) =~= before.push(name@));
    }
    assert(set.keys().take(set.keys().len() as int) == set.keys());
    list
}

fn close_entry(
    projects: &mut Vec<AuditProjectRule>,
    folder: Option<String>,
    class: Option<String>,
    Ghost(done): Ghost<Seq<(Seq<char>, Option<Seq<char>>)>>,
) -> (rest: Option<String>)
    requires
        inventory_rules(old(projects)@, done),
    ensures
        ({
            let before = Inventory {
                folder: opt_text(folder),
                class: opt_text(class),
                closed: done,
            };
            &&& inventory_rules(final(projects)@, closed(before).closed)
            &&& opt_text(rest) == closed(before).class
        }),
{
    match folder {
        Some(path) => {
            let rule = inventory_project_rule(path, class);
            projects.push(rule);
            None
        },
        None => class,
    }
}

/// The rules that a workspace inventory stands for, from what came of reading
/// it: a project for each folder it has a heading for.
pub fn audit_rules_from_inventory(path: &str, read: Result<String, String>) -> (r: Result<
    AuditRules,
    CliError,
>)
    ensures
        match read {
            Err(cause) => r matches Err(CliError::Io { context, source }) && context@
                == "failed to read workspace inventory "@ + path@ && source == cause,
            Ok(contents) => inventory_outcome(contents@, r),
        },
{
    let contents = match read {
        Ok(contents) => contents,
        Err(source) => {
            return Err(
                CliError::Io {
                    context: "failed to read workspace inventory ".to_owned().concat(path),
                    source,
                },
            );
        },
    };
    let mut rules = default_audit_rules();
    let mut projects: Vec<AuditProjectRule> = Vec::new();
    let mut folder: Option<String> = None;
    let mut class: Option<String> = None;
    let list = lines_of(contents.as_str());
    let ghost all = lines(contents@);
    let ghost mut done: Seq<(Seq<char>, Option<Seq<char>>)> = Seq::empty();
    assert(all.take(0) == Seq::<Seq<char>>::empty());
    for i in 0..list.len()
        invariant
            all == texts(list@),
            inventory_rules(projects@, done),
            inventory_of(all.take(i as int)) == (Inventory {
                folder: opt_text(folder),
                class: opt_text(class),
                closed: done,
            }),
    {
        assert(all.take(i + 1).drop_last() == all.take(i as int));
        assert(all.take(i + 1).last() == list@[i as int]@);
        let line = list[i].as_str();
        match parse_inventory_heading(line) {
            Some(name) => {
                let rest = close_entry(&mut projects, folder, class, Ghost(done));
                proof {
                    done = closed(inventory_of(all.take(i as int))).closed;
                }
                folder = Some(name);
                class = rest;
            },
            None => {
                if let Some(given) = parse_inventory_classification(line) {
                    class = Some(given);
                }
            },
        }
    }
    assert(all.take(all.len() as int) == all);
    close_entry(&mut projects, folder, class, Ghost(done));
    rules.projects = projects;
    rules.known_top_level_folders = top_level_names(&rules.projects);
    proof {
        lemma_same_refusal(rules, inventory_folders(contents@));
    }
    match validate_audit_rules(&rules) {
        Ok(_) => Ok(rules),
        Err(e) => Err(e),
    }
}

/// Why the rules for the folders of an inventory are refused, if they are.
pub open spec fn folders_refused(
    folders: Seq<(Seq<char>, Option<Seq<char>>)>,
    from: int,
) -> Option<Seq<char>>
    decreases folders.len() - from,
{
    if from >= folders.len() {
        None
    } else {
        let path = folders[from].0;
        let key = project_key(path);
        if trim(path).len() == 0 {
            Some("audit project path must not be empty"@)
        } else if has_part(key, ".."@) || begins(key, "/"@) {
            Some(
                "audit project path `"@ + path
                    + "` must be relative and must not contain `..`"@,
            )
        } else {
            folders_refused(folders, from + 1)
        }
    }
}

proof fn lemma_projects_refused(
    projects: Seq<AuditProjectRule>,
    folders: Seq<(Seq<char>, Option<Seq<char>>)>,
    from: int,
)
    requires
        inventory_rules(projects, folders),
        0 <= from,
    ensures
        projects_refused(projects, from) == folders_refused(folders, from),
    decreases projects.len() - from,
{
    if from < projects.len() {
        assert(inventory_rule(projects[from], folders[from]));
        lemma_projects_refused(projects, folders, from + 1);
    }
}

proof fn lemma_same_refusal(rules: AuditRules, folders: Seq<(Seq<char>, Option<Seq<char>>)>)
    requires
        default_frame(rules),
        inventory_rules(rules.projects@, folders),
    ensures
        rules_refused(rules) == folders_refused(folders, 0),
{
    lemma_projects_refused(rules.projects@, folders, 0);
}

/// What comes of an inventory.
pub open spec fn inventory_outcome(contents: Seq<char>, r: Result<AuditRules, CliError>) -> bool {
    match folders_refused(inventory_folders(contents), 0) {
        Some(message) => r matches Err(e) && e.says(message),
        None => r matches Ok(rules) && default_frame(rules) && inventory_rules(
            rules.projects@,
            inventory_folders(contents),
        ) && texts(rules.known_top_level_folders@) == in_name_order(first_names(rules.projects@)),
    }
}

} // verus!
