//! Settings, schema versions, and what a state file's content means.
use crate::error::CliError;
use crate::numbers::{decimal, decimal_text};
use crate::snapshot::{Snapshot, SNAPSHOT_VERSION};
use crate::text::texts;
use vstd::prelude::*;

verus! {

/// The schema of the settings file.
pub const CONFIG_VERSION: u32 = 1;

/// The schema of the category rules file.
pub const CATEGORY_CONFIG_VERSION: u32 = 1;

/// The schema of the workspace registry.
pub const WORKSPACE_REGISTRY_VERSION: u32 = 1;

/// The schema of cleanup journal entries.
pub const CLEANUP_JOURNAL_VERSION: u32 = 1;

/// The schema of cache usage journal entries.
pub const CACHE_USAGE_JOURNAL_VERSION: u32 = 1;

/// The schema of audit reports.
pub const AUDIT_REPORT_VERSION: u32 = 1;

/// Days after which a scan counts as stale, unless set otherwise.
pub const DEFAULT_STALE_DAYS: u64 = 15;

/// Entries that a scan keeps, unless set otherwise.
pub const DEFAULT_TOP_LIMIT: usize = 1_000;

/// Entries that an audit's scan keeps at least.
pub const DEFAULT_AUDIT_TOP_LIMIT: usize = 10_000;

// ---------------------------------------------------------------------------
// Output
// ---------------------------------------------------------------------------

/// How results are written.
#[derive(Debug, Clone, Copy, PartialEq, Eq, Structural)]
pub enum OutputMode {
    Human,
    Json,
}

impl OutputMode {
    /// The mode that the `--json` flag asks for.
    pub fn from_json(json: bool) -> (r: Self)
        ensures
            r == if json {
                OutputMode::Json
            } else {
                OutputMode::Human
            },
    {
        if json {
            OutputMode::Json
        } else {
            OutputMode::Human
        }
    }

    /// Whether results are written as JSON.
    pub fn is_json(self) -> (r: bool)
        ensures
            r == (self == OutputMode::Json),
    {
        matches!(self, OutputMode::Json)
    }
}

// ---------------------------------------------------------------------------
// Versions
// ---------------------------------------------------------------------------

/// The refusal of a file from a later version.
pub open spec fn unsupported_version(label: Seq<char>, version: u32, supported: u32) -> Seq<char> {
    "unsupported "@ + label + " version "@ + decimal(version as nat)
        + "; this dscan11 supports "@ + decimal(supported as nat)
}

/// The version of a state file, refused where it is later than what this
/// version knows.
pub fn supported_version(version: u32, label: &str, supported: u32) -> (r: Result<u32, String>)
    ensures
        if version > supported {
            r matches Err(text) && text@ == unsupported_version(label@, version, supported)
        } else {
            r == Ok::<u32, String>(version)
        },
{
    if version > supported {
        return Err(
            "unsupported ".to_owned().concat(label).concat(" version ").concat(
                decimal_text(version as u64).as_str(),
            ).concat("; this dscan11 supports ").concat(decimal_text(supported as u64).as_str()),
        );
    }
    Ok(version)
}

// ---------------------------------------------------------------------------
// Reading state files
// ---------------------------------------------------------------------------

/// What came of reading a JSON file: there is none, it could not be read, it
/// could not be parsed, or this is what it holds.
pub enum FileRead<T> {
    Missing(String),
    Failed(String),
    Unparsed(String),
    Parsed(T),
}

/// The refusal of a snapshot of another schema.
pub open spec fn foreign_snapshot(version: u32) -> Seq<char> {
    "snapshot version "@ + decimal(version as nat)
        + " is unsupported by this dscan11 version "@ + decimal(SNAPSHOT_VERSION as nat)
        + "; run `dscan11 scan` to refresh"@
}

/// What a loaded snapshot file amounts to. `kind` is the word for the missing
/// scan.
pub open spec fn snapshot_outcome(
    kind: Seq<char>,
    path: Seq<char>,
    read: FileRead<Snapshot>,
    r: Result<Snapshot, CliError>,
) -> bool {
    match read {
        FileRead::Missing(_) => r matches Err(e) && e.says(
            "no "@ + kind + " scan found at "@ + path + "; run `dscan11 scan` first"@,
        ),
        FileRead::Failed(cause) => r matches Err(CliError::Io { context, source }) && context@
            == "failed to read snapshot "@ + path && source == cause,
        FileRead::Unparsed(cause) => r matches Err(CliError::Json { context, source })
            && context@ == "failed to parse snapshot "@ + path && source == cause,
        FileRead::Parsed(snapshot) => if snapshot.version == SNAPSHOT_VERSION {
            r == Ok::<Snapshot, CliError>(snapshot)
        } else {
            r matches Err(e) && e.says(foreign_snapshot(snapshot.version))
        },
    }
}

fn load_snapshot_from(kind: &str, path: &str, read: FileRead<Snapshot>) -> (r: Result<
    Snapshot,
    CliError,
>)
    ensures
        snapshot_outcome(kind@, path@, read, r),
{
    match read {
        FileRead::Missing(_) => Err(
            CliError::Message(
                "no ".to_owned().concat(kind).concat(" scan found at ").concat(path).concat(
                    "; run `dscan11 scan` first",
                ),
            ),
        ),
        FileRead::Failed(source) => Err(
            CliError::Io { context: "failed to read snapshot ".to_owned().concat(path), source },
        ),
        FileRead::Unparsed(source) => Err(
            CliError::Json { context: "failed to parse snapshot ".to_owned().concat(path), source },
        ),
        FileRead::Parsed(snapshot) => {
            if snapshot.version != SNAPSHOT_VERSION {
                return Err(
                    CliError::Message(
                        "snapshot version ".to_owned().concat(
                            decimal_text(snapshot.version as u64).as_str(),
                        ).concat(" is unsupported by this dscan11 version ").concat(
                            decimal_text(SNAPSHOT_VERSION as u64).as_str(),
                        ).concat("; run `dscan11 scan` to refresh"),
                    ),
                );
            }
            Ok(snapshot)
        },
    }
}

/// The active snapshot, from what came of reading its file.
pub fn load_snapshot(path: &str, read: FileRead<Snapshot>) -> (r: Result<Snapshot, CliError>)
    ensures
        snapshot_outcome("cached"@, path@, read, r),
{
    load_snapshot_from("cached", path, read)
}

/// The snapshot of the last full scan, from what came of reading its file.
pub fn load_base_snapshot(path: &str, read: FileRead<Snapshot>) -> (r: Result<Snapshot, CliError>)
    ensures
        snapshot_outcome("base"@, path@, read, r),
{
    load_snapshot_from("base", path, read)
}

// ---------------------------------------------------------------------------
// Settings
// ---------------------------------------------------------------------------

/// The settings.
#[derive(Debug, PartialEq, Eq)]
pub struct AppConfig {
    pub version: u32,
    pub stale_days: u64,
    pub top_limit: usize,
    pub skip_names: Vec<String>,
}

/// The folders that a scan leaves out, unless set otherwise.
pub open spec fn default_skip_names() -> Seq<Seq<char>> {
    seq![
        "System Volume Information"@,
        "$Recycle.Bin"@,
        "Windows"@,
        "Recovery"@,
        "Config.Msi"@,
        "$WinREAgent"@,
    ]
}

impl AppConfig {
    /// These are the settings of a fresh install.
    pub open spec fn is_default(self) -> bool {
        &&& self.version == CONFIG_VERSION
        &&& self.stale_days == DEFAULT_STALE_DAYS
        &&& self.top_limit == DEFAULT_TOP_LIMIT
        &&& texts(self.skip_names@) == default_skip_names()
    }
}

impl Default for AppConfig {
    fn default() -> (r: Self)
        ensures
            r.is_default(),
    {
        let skip_names = vec![
            "System Volume Information".to_owned(),
            "$Recycle.Bin".to_owned(),
            "Windows".to_owned(),
            "Recovery".to_owned(),
            "Config.Msi".to_owned(),
            "$WinREAgent".to_owned(),
        ];
        assert(texts(skip_names@) =~= default_skip_names());
        AppConfig {
            version: CONFIG_VERSION,
            stale_days: DEFAULT_STALE_DAYS,
            top_limit: DEFAULT_TOP_LIMIT,
            skip_names,
        }
    }
}

/// The settings, from what came of reading their file; a missing file means
/// those of a fresh install.
pub fn load_or_default_config(path: &str, read: FileRead<AppConfig>) -> (r: Result<
    AppConfig,
    CliError,
>)
    ensures
        match read {
            FileRead::Missing(_) => r matches Ok(config) && config.is_default(),
            FileRead::Failed(cause) => r matches Err(CliError::Io { context, source })
                && context@ == "failed to read config "@ + path@ && source == cause,
            FileRead::Unparsed(cause) => r matches Err(CliError::Json { context, source })
                && context@ == "failed to parse config "@ + path@ && source == cause,
            FileRead::Parsed(config) => r == Ok::<AppConfig, CliError>(config),
        },
{
    match read {
        FileRead::Missing(_) => Ok(AppConfig::default()),
        FileRead::Failed(source) => Err(
            CliError::Io { context: "failed to read config ".to_owned().concat(path), source },
        ),
        FileRead::Unparsed(source) => Err(
            CliError::Json { context: "failed to parse config ".to_owned().concat(path), source },
        ),
        FileRead::Parsed(config) => Ok(config),
    }
}

/// How many entries an audit's scan keeps: as many as configured, as an audit
/// needs and as are to be shown, whichever is most.
pub fn audit_scan_top_limit(config: &AppConfig, display_limit: usize) -> (r: usize)
    ensures
        r >= config.top_limit,
        r >= DEFAULT_AUDIT_TOP_LIMIT,
        r >= display_limit,
        r == config.top_limit || r == DEFAULT_AUDIT_TOP_LIMIT || r == display_limit,
{
    let mut limit: usize = config.top_limit;
    if limit < DEFAULT_AUDIT_TOP_LIMIT {
        limit = DEFAULT_AUDIT_TOP_LIMIT;
    }
    if limit < display_limit {
        limit = display_limit;
    }
    limit
}

} // verus!
