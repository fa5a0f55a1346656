//! Workspaces: independent caches, one of them active.
use crate::clock::{clock_failed, current_unix, read_from_clock};
use crate::config::{FileRead, WORKSPACE_REGISTRY_VERSION};
use crate::error::{refuse, CliError};
use crate::names::NameMap;
use crate::numbers::{decimal, decimal_text};
use crate::text::{joined, pieces, same_text, texts, to_chars};
use crate::paths::{
    drive_prefix, file_name, file_name_of, join, join_path, kept_names, main_slash, names,
    prefix_len, rooted, separators, slash, verbatim, walked, PathStyle,
};
use vstd::prelude::*;

verus! {

/// The folder of the tool under the local application data.
pub open spec fn app_dir_name() -> Seq<char> {
    "dscan11"@
}

/// The folder of the workspaces.
pub open spec fn workspaces_dir_name() -> Seq<char> {
    "workspaces"@
}

/// The file of the registry.
pub open spec fn registry_file() -> Seq<char> {
    "workspaces.json"@
}

/// The workspace of a fresh install.
pub open spec fn default_name() -> Seq<char> {
    "default"@
}

/// The name of the workspace of a fresh install.
pub fn default_workspace_name() -> (r: &'static str)
    ensures
        r@ == default_name(),
{
    "default"
}

// ---------------------------------------------------------------------------
// Names
// ---------------------------------------------------------------------------

/// A character that a workspace name may hold.
pub open spec fn portable(c: char) -> bool {
    ('a' <= c && c <= 'z') || ('A' <= c && c <= 'Z') || ('0' <= c && c <= '9') || c == '.' || c
        == '-' || c == '_'
}

/// Every character is one that a workspace name may hold.
pub open spec fn all_portable(name: Seq<char>) -> bool {
    forall|i: int| 0 <= i < name.len() ==> portable(#[trigger] name[i])
}

/// A workspace may have this name.
pub open spec fn valid_name(name: Seq<char>) -> bool {
    name.len() > 0 && name != "."@ && name != ".."@ && all_portable(name)
}

/// The refusal of a name.
pub open spec fn name_refused(name: Seq<char>) -> Seq<char> {
    if name == "."@ || name == ".."@ {
        "invalid workspace name \""@ + name + "\"; workspace names cannot be \".\" or \"..\""@
    } else {
        "invalid workspace name \""@ + name
            + "\"; use letters, numbers, dots, dashes, or underscores only"@
    }
}

/// Checks the name of a workspace.
pub fn validate_workspace_name(name: &str) -> (r: Result<(), CliError>)
    ensures
        if valid_name(name@) {
            r is Ok
        } else {
            r matches Err(e) && e.says(name_refused(name@))
        },
{
    if same_text(name, ".") || same_text(name, "..") {
        return Err(
            CliError::Message(
                "invalid workspace name \"".to_owned().concat(name).concat(
                    "\"; workspace names cannot be \".\" or \"..\"",
                ),
            ),
        );
    }
    let chars = to_chars(name);
    let mut bad = chars.len() == 0;
    for i in 0..chars.len()
        invariant
            chars@ == name@,
            bad <==> chars@.len() == 0 || exists|k: int|
                0 <= k < i && !portable(#[trigger] chars@[k]),
    {
        let c = chars[i];
        let fine = ('a' <= c && c <= 'z') || ('A' <= c && c <= 'Z') || ('0' <= c && c <= '9') || c
            == '.' || c == '-' || c == '_';
        if !fine {
            bad = true;
        }
    }
    if bad {
        return Err(
            CliError::Message(
                "invalid workspace name \"".to_owned().concat(name).concat(
                    "\"; use letters, numbers, dots, dashes, or underscores only",
                ),
            ),
        );
    }
    Ok(())
}

// ---------------------------------------------------------------------------
// Paths
// ---------------------------------------------------------------------------

/// Where a workspace and the tool keep their files.
#[derive(Debug, PartialEq, Eq)]
pub struct CachePaths {
    pub app_dir: String,
    pub base_dir: String,
    pub workspaces_dir: String,
    pub workspace_registry_path: String,
    pub workspace_name: String,
    pub config_path: String,
    pub category_config_path: String,
    pub snapshot_path: String,
    pub base_snapshot_path: String,
    pub cleanup_journal_path: String,
    pub cache_usage_journal_path: String,
}

/// The folder of a workspace.
pub open spec fn workspace_dir(style: PathStyle, app_dir: Seq<char>, name: Seq<char>) -> Seq<char> {
    join(style, join(style, app_dir, workspaces_dir_name()), name)
}

impl CachePaths {
    /// These are the paths of a workspace.
    pub open spec fn lead_to(self, style: PathStyle, app_dir: Seq<char>, name: Seq<char>) -> bool {
        let base = workspace_dir(style, app_dir, name);
        &&& self.app_dir@ == app_dir
        &&& self.base_dir@ == base
        &&& self.workspaces_dir@ == join(style, app_dir, workspaces_dir_name())
        &&& self.workspace_registry_path@ == join(style, app_dir, registry_file())
        &&& self.workspace_name@ == name
        &&& self.config_path@ == join(style, app_dir, "config.json"@)
        &&& self.category_config_path@ == join(style, app_dir, "categories.json"@)
        &&& self.snapshot_path@ == join(style, base, "snapshot.json"@)
        &&& self.base_snapshot_path@ == join(style, base, "base-snapshot.json"@)
        &&& self.cleanup_journal_path@ == join(style, base, "cleanup-journal.jsonl"@)
        &&& self.cache_usage_journal_path@ == join(style, base, "cache-usage-journal.jsonl"@)
    }
}

/// Where the tool keeps its files: under `LOCALAPPDATA`, else under the profile.
pub fn locate_app_dir(
    style: PathStyle,
    local_app_data: Option<&str>,
    user_profile: Option<&str>,
) -> (r: Result<
    String,
    CliError,
>)
    ensures
        match (local_app_data, user_profile) {
            (Some(base), _) => r matches Ok(dir) && dir@ == join(style, base@, app_dir_name()),
            (None, Some(home)) => r matches Ok(dir) && dir@ == join(
                style,
                join(style, join(style, home@, "AppData"@), "Local"@),
                app_dir_name(),
            ),
            (None, None) => r matches Err(e) && e.says(
                "unable to locate LOCALAPPDATA or USERPROFILE"@,
            ),
        },
{
    match local_app_data {
        Some(base) => Ok(join_path(style, base, "dscan11")),
        None => match user_profile {
            Some(home) => {
                let data = join_path(style, join_path(style, home, "AppData").as_str(), "Local");
                Ok(join_path(style, data.as_str(), "dscan11"))
            },
            None => Err(refuse("unable to locate LOCALAPPDATA or USERPROFILE")),
        },
    }
}

/// The path of the registry.
pub fn workspace_registry_path(style: PathStyle, app_dir: &str) -> (r: String)
    ensures
        r@ == join(style, app_dir@, registry_file()),
{
    join_path(style, app_dir, "workspaces.json")
}

/// The paths of a workspace.
pub fn workspace_cache_paths(style: PathStyle, app_dir: &str, workspace_name: &str) -> (r: Result<
    CachePaths,
    CliError,
>)
    ensures
        if valid_name(workspace_name@) {
            r matches Ok(paths) && paths.lead_to(style, app_dir@, workspace_name@)
        } else {
            r matches Err(e) && e.says(name_refused(workspace_name@))
        },
{
    if let Err(e) = validate_workspace_name(workspace_name) {
        return Err(e);
    }
    let workspaces_dir = join_path(style, app_dir, "workspaces");
    let base_dir = join_path(style, workspaces_dir.as_str(), workspace_name);
    let base = base_dir.as_str();
    Ok(
        CachePaths {
            app_dir: app_dir.to_owned(),
            workspace_registry_path: workspace_registry_path(style, app_dir),
            workspace_name: workspace_name.to_owned(),
            config_path: join_path(style, app_dir, "config.json"),
            category_config_path: join_path(style, app_dir, "categories.json"),
            snapshot_path: join_path(style, base, "snapshot.json"),
            base_snapshot_path: join_path(style, base, "base-snapshot.json"),
            cleanup_journal_path: join_path(style, base, "cleanup-journal.jsonl"),
            cache_usage_journal_path: join_path(style, base, "cache-usage-journal.jsonl"),
            workspaces_dir,
            base_dir,
        },
    )
}

/// What stands before a name that is joined to a folder.
spec fn before_name(style: PathStyle, base: Seq<char>) -> Seq<char> {
    if verbatim(style, base) {
        let head = base.take(prefix_len(style, base)).push('\\');
        if names(style, base).len() == 0 {
            head
        } else {
            head + joined(names(style, base), seq!['\\']) + seq!['\\']
        }
    } else if base.len() == 0 || slash(style, base.last()) || (drive_prefix(style, base) && base.len() == 2) {
        base
    } else {
        base.push(main_slash(style))
    }
}

/// A text without separators is one piece.
proof fn lemma_one_piece(style: PathStyle, name: Seq<char>)
    requires
        all_portable(name),
    ensures
        pieces(name, separators(style, false)) == seq![name],
    decreases name.len(),
{
    if name.len() > 0 {
        let init = name.drop_last();
        assert forall|i: int| 0 <= i < init.len() implies portable(#[trigger] init[i]) by {
            assert(init[i] == name[i]);
        }
        lemma_one_piece(style, init);
        assert(portable(name[name.len() - 1]));
        assert(pieces(name, separators(style, false)) =~= seq![name]) by {
            assert(init.push(name.last()) == name);
            assert(seq![init].drop_last().push(init.push(name.last())) =~= seq![name]);
        }
    } else {
        assert(name == Seq::<char>::empty());
    }
}

/// A valid name is one component: joined to a folder it stands behind it.
proof fn lemma_join_name(style: PathStyle, base: Seq<char>, name: Seq<char>)
    requires
        valid_name(name),
    ensures
        join(style, base, name) == before_name(style, base) + name,
{
    assert(portable(name[0]));
    if name.len() >= 2 {
        assert(portable(name[1]));
    }
    if verbatim(style, base) {
        reveal_strlit(".");
        reveal_strlit("..");
        assert("."@ =~= seq!['.']);
        assert(".."@ =~= seq!['.', '.']);
        assert(name.skip(0) == name);
        lemma_one_piece(style, name);
        let parts = seq![name];
        assert(parts.drop_last() == Seq::<Seq<char>>::empty());
        assert(kept_names(parts.drop_last(), rooted(style, name), false) == Seq::<Seq<char>>::empty());
        assert(names(style, name) =~= parts);
        let start = names(style, base);
        assert(walked(start, parts.drop_last()) == start);
        let list = walked(start, parts);
        assert(list == start.push(name));
        assert(list.drop_last() == start);
        assert(join(style, base, name) =~= before_name(style, base) + name);
    }
}

/// Two workspaces never share a folder.
pub proof fn law_workspaces_are_separate(
    style: PathStyle,
    app_dir: Seq<char>,
    a: Seq<char>,
    b: Seq<char>,
)
    requires
        valid_name(a),
        valid_name(b),
        a != b,
    ensures
        workspace_dir(style, app_dir, a) != workspace_dir(style, app_dir, b),
{
    let base = join(style, app_dir, workspaces_dir_name());
    lemma_join_name(style, base, a);
    lemma_join_name(style, base, b);
    let head = before_name(style, base);
    if join(style, base, a) == join(style, base, b) {
        assert((head + a).skip(head.len() as int) =~= a);
        assert((head + b).skip(head.len() as int) =~= b);
    }
}

// ---------------------------------------------------------------------------
// The registry
// ---------------------------------------------------------------------------

/// What is known of a workspace.
#[derive(Debug, Clone, Copy, PartialEq, Eq, Structural)]
pub struct WorkspaceInfo {
    pub created_at_unix: u64,
}

/// The workspaces and which of them is active.
#[derive(Debug, PartialEq, Eq)]
pub struct WorkspaceRegistry {
    pub version: u32,
    pub active: String,
    pub workspaces: NameMap<WorkspaceInfo>,
}

/// Every name is valid.
pub open spec fn all_valid(known: Map<Seq<char>, WorkspaceInfo>) -> bool {
    forall|k: Seq<char>| #[trigger] known.contains_key(k) ==> valid_name(k)
}

impl WorkspaceRegistry {
    /// What is known by name.
    pub open spec fn known(&self) -> Map<Seq<char>, WorkspaceInfo> {
        self.workspaces.map()
    }

    /// The names are in order, and valid.
    pub open spec fn wf(&self) -> bool {
        &&& self.workspaces.wf()
        &&& valid_name(self.active@)
        &&& all_valid(self.workspaces.map())
    }

    /// The active workspace is a known one.
    pub open spec fn settled(&self) -> bool {
        self.known().contains_key(self.active@)
    }
}

/// The registry of a fresh install.
pub open spec fn fresh(registry: WorkspaceRegistry, now: u64) -> bool {
    &&& registry.version == WORKSPACE_REGISTRY_VERSION
    &&& registry.active@ == default_name()
    &&& registry.known() == Map::<Seq<char>, WorkspaceInfo>::empty().insert(
        default_name(),
        WorkspaceInfo { created_at_unix: now },
    )
}

/// The registry of a fresh install.
pub fn fresh_registry(now: u64) -> (r: WorkspaceRegistry)
    ensures
        fresh(r, now),
        r.wf(),
        r.settled(),
{
    let mut workspaces: NameMap<WorkspaceInfo> = NameMap::new();
    workspaces.insert("default".to_owned(), WorkspaceInfo { created_at_unix: now });
    proof {
        reveal_strlit("default");
        reveal_strlit(".");
        reveal_strlit("..");
        assert(valid_name("default"@)) by {
            assert("default"@.len() != "."@.len());
            assert("default"@.len() != ".."@.len());
        }
    }
    WorkspaceRegistry {
        version: WORKSPACE_REGISTRY_VERSION,
        active: "default".to_owned(),
        workspaces,
    }
}

/// The first name from `from` on that no workspace may have, the length where
/// all are fine.
pub open spec fn first_invalid(names: Seq<Seq<char>>, from: int) -> int
    decreases names.len() - from,
{
    if from >= names.len() || !valid_name(names[from]) {
        from
    } else {
        first_invalid(names, from + 1)
    }
}

/// The refusal of a registry that holds an invalid name: the active one is
/// looked at first.
pub open spec fn registry_refused(registry: WorkspaceRegistry) -> Option<Seq<char>> {
    let names = registry.workspaces.keys();
    let i = first_invalid(names, 0);
    if !valid_name(registry.active@) {
        Some(name_refused(registry.active@))
    } else if i < names.len() {
        Some(name_refused(names[i]))
    } else {
        None
    }
}

fn check_registry(registry: &WorkspaceRegistry) -> (r: Result<(), CliError>)
    requires
        registry.workspaces.wf(),
    ensures
        match registry_refused(*registry) {
            Some(message) => r matches Err(e) && e.says(message),
            None => r is Ok && registry.wf(),
        },
{
    if let Err(e) = validate_workspace_name(registry.active.as_str()) {
        return Err(e);
    }
    let ghost names = registry.workspaces.keys();
    let count: usize = registry.workspaces.len();
    for i in 0..count
        invariant
            registry.workspaces.wf(),
            valid_name(registry.active@),
            names == registry.workspaces.keys(),
            count == names.len(),
            first_invalid(names, 0) == first_invalid(names, i as int),
            forall|k: int| 0 <= k < i ==> valid_name(#[trigger] names[k]),
    {
        if let Err(e) = validate_workspace_name(registry.workspaces.name_at(i).as_str()) {
            return Err(e);
        }
    }
    assert forall|k: Seq<char>| #[trigger] registry.known().contains_key(k) implies valid_name(
        k,
    ) by {
        let i = names.index_of(k);
        assert(valid_name(names[i]));
    }
    Ok(())
}

/// The registry and whether it is new and to be written.
pub struct LoadedRegistry {
    pub registry: WorkspaceRegistry,
    pub created: bool,
}

/// The registry, from what came of reading its file; where there is none, that
/// of a fresh install, created at `now`.
pub fn load_or_init_workspace_registry_at(
    path: &str,
    read: FileRead<WorkspaceRegistry>,
    now: Result<u64, CliError>,
) -> (r: Result<LoadedRegistry, CliError>)
    requires
        read matches FileRead::Parsed(registry) ==> registry.workspaces.wf(),
    ensures
        r matches Ok(loaded) ==> loaded.registry.wf(),
        match read {
            FileRead::Missing(_) => match now {
                Ok(t) => r matches Ok(loaded) && loaded.created && fresh(loaded.registry, t)
                    && loaded.registry.settled(),
                Err(cause) => r == Err::<LoadedRegistry, CliError>(cause),
            },
            FileRead::Failed(cause) => r matches Err(CliError::Io { context, source })
                && context@ == "failed to read workspace registry "@ + path@ && source == cause,
            FileRead::Unparsed(cause) => r matches Err(CliError::Json { context, source })
                && context@ == "failed to parse workspace registry "@ + path@ && source == cause,
            FileRead::Parsed(registry) => match registry_refused(registry) {
                Some(message) => r matches Err(e) && e.says(message),
                None => r matches Ok(loaded) && !loaded.created && loaded.registry == registry,
            },
        },
{
    match read {
        FileRead::Missing(_) => match now {
            Ok(t) => Ok(LoadedRegistry { registry: fresh_registry(t), created: true }),
            Err(e) => Err(e),
        },
        FileRead::Failed(source) => Err(
            CliError::Io {
                context: "failed to read workspace registry ".to_owned().concat(path),
                source,
            },
        ),
        FileRead::Unparsed(source) => Err(
            CliError::Json {
                context: "failed to parse workspace registry ".to_owned().concat(path),
                source,
            },
        ),
        FileRead::Parsed(registry) => match check_registry(&registry) {
            Ok(_) => Ok(LoadedRegistry { registry, created: false }),
            Err(e) => Err(e),
        },
    }
}

/// The registry, from what came of reading its file.
pub fn load_or_init_workspace_registry(path: &str, read: FileRead<WorkspaceRegistry>) -> (r: Result<
    LoadedRegistry,
    CliError,
>)
    requires
        read matches FileRead::Parsed(registry) ==> registry.workspaces.wf(),
    ensures
        r matches Ok(loaded) ==> loaded.registry.wf(),
        match read {
            FileRead::Missing(_) => match r {
                Ok(loaded) => loaded.created && loaded.registry.settled() && exists|t: u64|
                    read_from_clock(Ok(t)) && #[trigger] fresh(loaded.registry, t),
                Err(e) => read_from_clock(Err(e)) && clock_failed(e),
            },
            FileRead::Failed(cause) => r matches Err(CliError::Io { context, source })
                && context@ == "failed to read workspace registry "@ + path@ && source == cause,
            FileRead::Unparsed(cause) => r matches Err(CliError::Json { context, source })
                && context@ == "failed to parse workspace registry "@ + path@ && source == cause,
            FileRead::Parsed(registry) => match registry_refused(registry) {
                Some(message) => r matches Err(e) && e.says(message),
                None => r matches Ok(loaded) && !loaded.created && loaded.registry == registry,
            },
        },
{
    load_or_init_workspace_registry_at(path, read, current_unix())
}

// ---------------------------------------------------------------------------
// Choosing a workspace
// ---------------------------------------------------------------------------

/// The refusal of a workspace that is not there.
pub open spec fn missing_workspace(name: Seq<char>) -> Seq<char> {
    "workspace `"@ + name + "` does not exist; run `dscan11 workspace create "@ + name
        + "` first"@
}

fn missing_workspace_error(name: &str) -> (r: CliError)
    ensures
        r.says(missing_workspace(name@)),
{
    CliError::Message(
        "workspace `".to_owned().concat(name).concat(
            "` does not exist; run `dscan11 workspace create ",
        ).concat(name).concat("` first"),
    )
}

/// The paths of the chosen workspace, and whether the registry is to be written.
pub struct Chosen {
    pub paths: CachePaths,
    pub changed: bool,
}

/// Chooses the workspace of one command: the named one, which must be there, or
/// the active one, which is put into the registry where it is missing.
pub fn cache_paths_for_workspace_at(
    style: PathStyle,
    app_dir: &str,
    registry: &mut WorkspaceRegistry,
    workspace: Option<&str>,
    now: Result<u64, CliError>,
) -> (r: Result<Chosen, CliError>)
    requires
        old(registry).wf(),
    ensures
        final(registry).wf(),
        final(registry).active == old(registry).active,
        final(registry).version == old(registry).version,
        match workspace {
            Some(name) => *final(registry) == *old(registry) && if !valid_name(name@) {
                r matches Err(e) && e.says(name_refused(name@))
            } else if !old(registry).known().contains_key(name@) {
                r matches Err(e) && e.says(missing_workspace(name@))
            } else {
                r matches Ok(c) && !c.changed && c.paths.lead_to(style, app_dir@, name@)
            },
            None => if old(registry).settled() {
                r matches Ok(c) && !c.changed && c.paths.lead_to(style, app_dir@, old(registry).active@)
                    && *final(registry) == *old(registry)
            } else {
                match now {
                    Ok(t) => r matches Ok(c) && c.changed && c.paths.lead_to(
                        style,
                        app_dir@,
                        old(registry).active@,
                    ) && final(registry).known() == old(registry).known().insert(
                        old(registry).active@,
                        WorkspaceInfo { created_at_unix: t },
                    ),
                    Err(cause) => *final(registry) == *old(registry) && r == Err::<
                        Chosen,
                        CliError,
                    >(cause),
                }
            },
        },
{
    match workspace {
        Some(name) => {
            if let Err(e) = validate_workspace_name(name) {
                return Err(e);
            }
            if !registry.workspaces.contains_key(name) {
                return Err(missing_workspace_error(name));
            }
            match workspace_cache_paths(style, app_dir, name) {
                Ok(paths) => Ok(Chosen { paths, changed: false }),
                Err(e) => Err(e),
            }
        },
        None => {
            let name = registry.active.clone();
            let changed = !registry.workspaces.contains_key(name.as_str());
            if changed {
                match now {
                    Ok(t) => {
                        registry.workspaces.insert(
                            name.clone(),
                            WorkspaceInfo { created_at_unix: t },
                        );
                    },
                    Err(e) => {
                        return Err(e);
                    },
                }
            }
            match workspace_cache_paths(style, app_dir, name.as_str()) {
                Ok(paths) => Ok(Chosen { paths, changed }),
                Err(e) => Err(e),
            }
        },
    }
}

/// The active workspace is chosen. A settled registry stays as it is; else the
/// active workspace is added to it, created at a time that the clock gave, and
/// nothing else in it changes.
pub open spec fn chosen_active(
    style: PathStyle,
    app_dir: Seq<char>,
    before: WorkspaceRegistry,
    after: WorkspaceRegistry,
    r: Result<Chosen, CliError>,
) -> bool {
    match r {
        Ok(c) => {
            &&& c.paths.lead_to(style, app_dir, before.active@)
            &&& c.changed == !before.settled()
            &&& after.settled()
            &&& if before.settled() {
                after == before
            } else {
                exists|t: u64| #[trigger]
                    read_from_clock(Ok(t)) && after.known() == before.known().insert(
                        before.active@,
                        WorkspaceInfo { created_at_unix: t },
                    )
            }
        },
        Err(e) => !before.settled() && after == before && read_from_clock(Err(e)) && clock_failed(
            e,
        ),
    }
}

/// Chooses the workspace of one command.
pub fn cache_paths_for_workspace(
    style: PathStyle,
    app_dir: &str,
    registry: &mut WorkspaceRegistry,
    workspace: Option<&str>,
) -> (r: Result<Chosen, CliError>)
    requires
        old(registry).wf(),
    ensures
        final(registry).wf(),
        final(registry).active == old(registry).active,
        final(registry).version == old(registry).version,
        match workspace {
            Some(name) => *final(registry) == *old(registry) && if !valid_name(name@) {
                r matches Err(e) && e.says(name_refused(name@))
            } else if !old(registry).known().contains_key(name@) {
                r matches Err(e) && e.says(missing_workspace(name@))
            } else {
                r matches Ok(c) && !c.changed && c.paths.lead_to(style, app_dir@, name@)
            },
            None => chosen_active(style, app_dir@, *old(registry), *final(registry), r),
        },
{
    cache_paths_for_workspace_at(style, app_dir, registry, workspace, current_unix())
}

/// Chooses the active workspace.
pub fn cache_paths(
    style: PathStyle,
    app_dir: &str,
    registry: &mut WorkspaceRegistry,
) -> (r: Result<Chosen, CliError>)
    requires
        old(registry).wf(),
    ensures
        final(registry).wf(),
        final(registry).active == old(registry).active,
        final(registry).version == old(registry).version,
        chosen_active(style, app_dir@, *old(registry), *final(registry), r),
{
    cache_paths_for_workspace(style, app_dir, registry, None)
}

// ---------------------------------------------------------------------------
// Managing workspaces
// ---------------------------------------------------------------------------

/// Whether a workspace is there.
pub fn workspace_exists(registry: &WorkspaceRegistry, name: &str) -> (r: Result<bool, CliError>)
    requires
        registry.wf(),
    ensures
        if valid_name(name@) {
            r == Ok::<bool, CliError>(registry.known().contains_key(name@))
        } else {
            r matches Err(e) && e.says(name_refused(name@))
        },
{
    if let Err(e) = validate_workspace_name(name) {
        return Err(e);
    }
    Ok(registry.workspaces.contains_key(name))
}

/// Creates a workspace at a given time.
pub fn create_workspace_at(
    registry: &mut WorkspaceRegistry,
    name: &str,
    now: Result<u64, CliError>,
) -> (r: Result<WorkspaceInfo, CliError>)
    requires
        old(registry).wf(),
    ensures
        final(registry).wf(),
        old(registry).settled() ==> final(registry).settled(),
        final(registry).active == old(registry).active,
        final(registry).version == old(registry).version,
        r is Err ==> *final(registry) == *old(registry),
        if !valid_name(name@) {
            r matches Err(e) && e.says(name_refused(name@))
        } else if old(registry).known().contains_key(name@) {
            r matches Err(e) && e.says(
                "workspace `"@ + name@ + "` already exists; run `dscan11 workspace use "@ + name@
                    + "` to select it"@,
            )
        } else {
            match now {
                Ok(t) => r == Ok::<WorkspaceInfo, CliError>(WorkspaceInfo { created_at_unix: t })
                    && final(registry).known() == old(registry).known().insert(
                    name@,
                    WorkspaceInfo { created_at_unix: t },
                ),
                Err(cause) => r == Err::<WorkspaceInfo, CliError>(cause),
            }
        },
{
    if let Err(e) = validate_workspace_name(name) {
        return Err(e);
    }
    if registry.workspaces.contains_key(name) {
        return Err(
            CliError::Message(
                "workspace `".to_owned().concat(name).concat(
                    "` already exists; run `dscan11 workspace use ",
                ).concat(name).concat("` to select it"),
            ),
        );
    }
    match now {
        Ok(t) => {
            let info = WorkspaceInfo { created_at_unix: t };
            registry.workspaces.insert(name.to_owned(), info);
            Ok(info)
        },
        Err(e) => Err(e),
    }
}

/// Creates a workspace now.
pub fn create_workspace(registry: &mut WorkspaceRegistry, name: &str) -> (r: Result<
    WorkspaceInfo,
    CliError,
>)
    requires
        old(registry).wf(),
    ensures
        final(registry).wf(),
        old(registry).settled() ==> final(registry).settled(),
        final(registry).active == old(registry).active,
        final(registry).version == old(registry).version,
        r is Err ==> *final(registry) == *old(registry),
        if !valid_name(name@) {
            r matches Err(e) && e.says(name_refused(name@))
        } else if old(registry).known().contains_key(name@) {
            r matches Err(e) && e.says(
                "workspace `"@ + name@ + "` already exists; run `dscan11 workspace use "@ + name@
                    + "` to select it"@,
            )
        } else {
            match r {
                Ok(info) => read_from_clock(Ok(info.created_at_unix)) && final(registry).known()
                    == old(registry).known().insert(name@, info),
                Err(e) => read_from_clock(Err(e)) && clock_failed(e),
            }
        },
{
    create_workspace_at(registry, name, current_unix())
}

/// Makes a workspace the active one.
pub fn use_workspace(registry: &mut WorkspaceRegistry, name: &str) -> (r: Result<
    WorkspaceInfo,
    CliError,
>)
    requires
        old(registry).wf(),
    ensures
        final(registry).wf(),
        old(registry).settled() ==> final(registry).settled(),
        final(registry).workspaces == old(registry).workspaces,
        final(registry).version == old(registry).version,
        if !valid_name(name@) {
            r matches Err(e) && e.says(name_refused(name@)) && *final(registry) == *old(registry)
        } else if !old(registry).known().contains_key(name@) {
            r matches Err(e) && e.says(missing_workspace(name@)) && *final(registry)
                == *old(registry)
        } else {
            r == Ok::<WorkspaceInfo, CliError>(old(registry).known()[name@]) && final(registry).active@ == name@
        },
{
    if let Err(e) = validate_workspace_name(name) {
        return Err(e);
    }
    let info = match registry.workspaces.get(name) {
        Some(info) => *info,
        None => return Err(missing_workspace_error(name)),
    };
    registry.active = name.to_owned();
    Ok(info)
}

/// The refusal of a rename, if it is refused. `taken` says whether the folder
/// of the new name is there already.
pub open spec fn rename_refused(
    style: PathStyle,
    registry: WorkspaceRegistry,
    app_dir: Seq<char>,
    old_name: Seq<char>,
    new_name: Seq<char>,
    taken: bool,
) -> Option<Seq<char>> {
    if !valid_name(old_name) {
        Some(name_refused(old_name))
    } else if !valid_name(new_name) {
        Some(name_refused(new_name))
    } else if old_name == new_name {
        Some("workspace `"@ + old_name + "` is already named `"@ + new_name + "`"@)
    } else if !registry.known().contains_key(old_name) {
        Some("workspace `"@ + old_name + "` does not exist"@)
    } else if registry.known().contains_key(new_name) {
        Some("workspace `"@ + new_name + "` already exists"@)
    } else if taken {
        Some("workspace directory already exists: "@ + workspace_dir(style, app_dir, new_name))
    } else {
        None
    }
}

/// Renames a workspace; the active one stays active under its new name.
pub fn rename_workspace(
    style: PathStyle,
    registry: &mut WorkspaceRegistry,
    app_dir: &str,
    old_name: &str,
    new_name: &str,
    taken: bool,
) -> (r: Result<(), CliError>)
    requires
        old(registry).wf(),
    ensures
        final(registry).wf(),
        old(registry).settled() ==> final(registry).settled(),
        final(registry).version == old(registry).version,
        match rename_refused(style, *old(registry), app_dir@, old_name@, new_name@, taken) {
            Some(message) => r matches Err(e) && e.says(message) && *final(registry)
                == *old(registry),
            None => r is Ok && final(registry).known() == old(registry).known().remove(
                old_name@,
            ).insert(new_name@, old(registry).known()[old_name@]) && final(registry).active@
                == if old(registry).active@ == old_name@ {
                new_name@
            } else {
                old(registry).active@
            },
        },
{
    if let Err(e) = validate_workspace_name(old_name) {
        return Err(e);
    }
    if let Err(e) = validate_workspace_name(new_name) {
        return Err(e);
    }
    if same_text(old_name, new_name) {
        return Err(
            CliError::Message(
                "workspace `".to_owned().concat(old_name).concat("` is already named `").concat(
                    new_name,
                ).concat("`"),
            ),
        );
    }
    if !registry.workspaces.contains_key(old_name) {
        return Err(
            CliError::Message(
                "workspace `".to_owned().concat(old_name).concat("` does not exist"),
            ),
        );
    }
    if registry.workspaces.contains_key(new_name) {
        return Err(
            CliError::Message(
                "workspace `".to_owned().concat(new_name).concat("` already exists"),
            ),
        );
    }
    if taken {
        let dir = join_path(style, join_path(style, app_dir, "workspaces").as_str(), new_name);
        return Err(
            CliError::Message(
                "workspace directory already exists: ".to_owned().concat(dir.as_str()),
            ),
        );
    }
    if let Some(info) = registry.workspaces.remove(old_name) {
        registry.workspaces.insert(new_name.to_owned(), info);
    }
    if same_text(registry.active.as_str(), old_name) {
        registry.active = new_name.to_owned();
    }
    Ok(())
}

/// The refusal of a deletion, if it is refused. `full` says whether the folder
/// of the workspace is there.
pub open spec fn delete_refused(
    registry: WorkspaceRegistry,
    name: Seq<char>,
    force: bool,
    full: bool,
) -> Option<Seq<char>> {
    if !valid_name(name) {
        Some(name_refused(name))
    } else if registry.active@ == name {
        Some("cannot delete active workspace `"@ + name + "`; switch workspaces first"@)
    } else if !registry.known().contains_key(name) {
        Some("workspace `"@ + name + "` does not exist"@)
    } else if full && !force {
        Some(
            "workspace `"@ + name + "` has cache files; rerun with `--force` to delete it"@,
        )
    } else {
        None
    }
}

/// Deletes a workspace that is not active; one with files only by force.
pub fn delete_workspace(
    registry: &mut WorkspaceRegistry,
    name: &str,
    force: bool,
    full: bool,
) -> (r:
    Result<(), CliError>)
    requires
        old(registry).wf(),
    ensures
        final(registry).wf(),
        old(registry).settled() ==> final(registry).settled(),
        final(registry).version == old(registry).version,
        final(registry).active == old(registry).active,
        match delete_refused(*old(registry), name@, force, full) {
            Some(message) => r matches Err(e) && e.says(message) && *final(registry)
                == *old(registry),
            None => r is Ok && final(registry).known() == old(registry).known().remove(name@),
        },
{
    if let Err(e) = validate_workspace_name(name) {
        return Err(e);
    }
    if same_text(registry.active.as_str(), name) {
        return Err(
            CliError::Message(
                "cannot delete active workspace `".to_owned().concat(name).concat(
                    "`; switch workspaces first",
                ),
            ),
        );
    }
    if !registry.workspaces.contains_key(name) {
        return Err(
            CliError::Message("workspace `".to_owned().concat(name).concat("` does not exist")),
        );
    }
    if full && !force {
        return Err(
            CliError::Message(
                "workspace `".to_owned().concat(name).concat(
                    "` has cache files; rerun with `--force` to delete it",
                ),
            ),
        );
    }
    registry.workspaces.remove(name);
    Ok(())
}

/// What is shown of a workspace.
#[derive(Debug, PartialEq, Eq)]
pub struct WorkspaceView {
    pub name: String,
    pub active: bool,
    pub cache_dir: String,
    pub has_snapshot: bool,
    pub created_at_unix: u64,
}

impl WorkspaceView {
    /// This is what is shown of a workspace.
    pub open spec fn shows(
        self,
        style: PathStyle,
        app_dir: Seq<char>,
        name: Seq<char>,
        active: bool,
        info: WorkspaceInfo,
        has_snapshot: bool,
    ) -> bool {
        &&& self.name@ == name
        &&& self.active == active
        &&& self.cache_dir@ == workspace_dir(style, app_dir, name)
        &&& self.has_snapshot == has_snapshot
        &&& self.created_at_unix == info.created_at_unix
    }
}

/// What is shown of a workspace.
pub fn workspace_view(
    style: PathStyle,
    app_dir: &str,
    name: &str,
    active: bool,
    info: WorkspaceInfo,
    has_snapshot: bool,
) -> (r: WorkspaceView)
    ensures
        r.shows(style, app_dir@, name@, active, info, has_snapshot),
{
    WorkspaceView {
        name: name.to_owned(),
        active,
        cache_dir: join_path(style, join_path(style, app_dir, "workspaces").as_str(), name),
        has_snapshot,
        created_at_unix: info.created_at_unix,
    }
}

/// What is shown of all workspaces, in the order of their names. `have` says of
/// each whether it has a snapshot.
pub fn list_workspaces(
    style: PathStyle,
    registry: &WorkspaceRegistry,
    app_dir: &str,
    have: &Vec<bool>,
) -> (r: Vec<
    WorkspaceView,
>)
    requires
        registry.wf(),
        have@.len() == registry.workspaces.keys().len(),
    ensures
        r@.len() == registry.workspaces.keys().len(),
        forall|i: int|
            0 <= i < r@.len() ==> (#[trigger] r@[i]).shows(
                style,
                app_dir@,
                registry.workspaces.keys()[i],
                registry.workspaces.keys()[i] == registry.active@,
                registry.known()[registry.workspaces.keys()[i]],
                have@[i],
            ),
{
    let mut out: Vec<WorkspaceView> = Vec::new();
    let ghost names = registry.workspaces.keys();
    let count: usize = registry.workspaces.len();
    for i in 0..count
        invariant
            registry.wf(),
            names == registry.workspaces.keys(),
            count == names.len(),
            have@.len() == names.len(),
            out@.len() == i,
            forall|k: int|
                0 <= k < i ==> (#[trigger] out@[k]).shows(
                    style,
                    app_dir@,
                    names[k],
                    names[k] == registry.active@,
                    registry.known()[names[k]],
                    have@[k],
                ),
    {
        proof {
            registry.workspaces.lemma_at(i as int);
        }
        let name = registry.workspaces.name_at(i);
        out.push(
            workspace_view(
                style,
                app_dir,
                name.as_str(),
                same_text(name.as_str(), registry.active.as_str()),
                *registry.workspaces.value_at(i),
                have[i],
            ),
        );
    }
    out
}

/// What is shown of the active workspace.
pub fn current_workspace(
    style: PathStyle,
    registry: &WorkspaceRegistry,
    app_dir: &str,
    has_snapshot: bool,
) -> (r:
    Result<WorkspaceView, CliError>)
    requires
        registry.wf(),
    ensures
        if registry.settled() {
            r matches Ok(view) && view.shows(
                style,
                app_dir@,
                registry.active@,
                true,
                registry.known()[registry.active@],
                has_snapshot,
            )
        } else {
            r matches Err(e) && e.says(
                "active workspace `"@ + registry.active@
                    + "` is missing from the workspace registry"@,
            )
        },
{
    match registry.workspaces.get(registry.active.as_str()) {
        Some(info) => Ok(
            workspace_view(style, app_dir, registry.active.as_str(), true, *info, has_snapshot),
        ),
        None => Err(
            CliError::Message(
                "active workspace `".to_owned().concat(registry.active.as_str()).concat(
                    "` is missing from the workspace registry",
                ),
            ),
        ),
    }
}

// ---------------------------------------------------------------------------
// Laws
// ---------------------------------------------------------------------------

/// A rename keeps what is known of the workspace and the number of workspaces,
/// and leaves all others alone.
pub proof fn law_rename_keeps_all(
    registry: WorkspaceRegistry,
    after: WorkspaceRegistry,
    old_name: Seq<char>,
    new_name: Seq<char>,
)
    requires
        registry.known().contains_key(old_name),
        !registry.known().contains_key(new_name),
        registry.known().dom().finite(),
        after.known() == registry.known().remove(old_name).insert(
            new_name,
            registry.known()[old_name],
        ),
    ensures
        after.known().len() == registry.known().len(),
        after.known()[new_name] == registry.known()[old_name],
        !after.known().contains_key(old_name),
        forall|k: Seq<char>|
            k != old_name && k != new_name ==> after.known().contains_key(k)
                == registry.known().contains_key(k) && (registry.known().contains_key(k)
                ==> #[trigger] after.known()[k] == registry.known()[k]),
{
}

/// A renamed and renamed back registry knows what it knew.
pub proof fn law_rename_back(known: Map<Seq<char>, WorkspaceInfo>, a: Seq<char>, b: Seq<char>)
    requires
        known.contains_key(a),
        !known.contains_key(b),
    ensures
        ({
            let there = known.remove(a).insert(b, known[a]);
            there.remove(b).insert(a, there[b])
        }) == known,
{
    let there = known.remove(a).insert(b, known[a]);
    assert(there.remove(b).insert(a, there[b]) =~= known);
}

// ---------------------------------------------------------------------------
// Adopting an old cache
// ---------------------------------------------------------------------------

/// The files of a cache from before there were workspaces.
pub open spec fn legacy_files() -> Seq<Seq<char>> {
    seq![
        "snapshot.json"@,
        "base-snapshot.json"@,
        "cleanup-journal.jsonl"@,
        "cache-usage-journal.jsonl"@,
    ]
}

/// The files of a cache from before there were workspaces.
pub fn legacy_file_names() -> (r: Vec<String>)
    ensures
        texts(r@) == legacy_files(),
        r@.len() == 4,
{
    let r = vec![
        "snapshot.json".to_owned(),
        "base-snapshot.json".to_owned(),
        "cleanup-journal.jsonl".to_owned(),
        "cache-usage-journal.jsonl".to_owned(),
    ];
    assert(texts(r@) =~= legacy_files());
    r
}

/// How an old cache is adopted: the folder to create, the files to move, and
/// why the rest is not moved, if it is not.
pub struct MigrationPlan {
    pub create_dir: Option<String>,
    pub moves: Vec<(String, String)>,
    pub refused: Option<CliError>,
}

/// The place of the first file that stands at both ends, the length where there
/// is none.
pub open spec fn first_clash(from: Seq<bool>, to: Seq<bool>, i: int) -> int
    decreases from.len() - i,
{
    if i >= from.len() || (from[i] && to[i]) {
        i
    } else {
        first_clash(from, to, i + 1)
    }
}

/// The moves of the files before the given place that are there.
pub open spec fn moves_before(style: PathStyle, app_dir: Seq<char>, from: Seq<bool>, n: int) -> Seq<
    (Seq<char>, Seq<char>),
>
    decreases n,
{
    if n <= 0 {
        Seq::empty()
    } else if from[n - 1] {
        moves_before(style, app_dir, from, n - 1).push(
            (
                join(style, app_dir, legacy_files()[n - 1]),
                join(style, workspace_dir(style, app_dir, default_name()), legacy_files()[n - 1]),
            ),
        )
    } else {
        moves_before(style, app_dir, from, n - 1)
    }
}

/// The paths of moves.
pub open spec fn move_views(list: Seq<(String, String)>) -> Seq<(Seq<char>, Seq<char>)> {
    list.map_values(|m: (String, String)| (m.0@, m.1@))
}

/// The plan for adopting an old cache into the default workspace, where there is
/// no registry yet. `from` and `to` say of each file whether it is in the old
/// place and in the new one.
pub fn migrate_legacy_cache(
    style: PathStyle,
    app_dir: &str,
    from: &Vec<bool>,
    to: &Vec<bool>,
) -> (r: MigrationPlan)
    requires
        from@.len() == 4,
        to@.len() == 4,
    ensures
        ({
            let n = first_clash(from@, to@, 0);
            let dir = workspace_dir(style, app_dir@, default_name());
            &&& 0 <= n <= 4
            &&& match r.create_dir {
                Some(path) => path@ == dir && from@.contains(true),
                None => !from@.contains(true),
            }
            &&& move_views(r.moves@) == moves_before(style, app_dir@, from@, n)
            &&& match r.refused {
                Some(e) => n < 4 && e.says(
                    "cannot migrate legacy cache because "@ + join(style, dir, legacy_files()[n])
                        + " already exists"@,
                ),
                None => n == 4,
            }
        }),
{
    let names = legacy_file_names();
    let dir = join_path(style, join_path(style, app_dir, "workspaces").as_str(), "default");
    let mut any = false;
    let mut moves: Vec<(String, String)> = Vec::new();
    let mut refused: Option<CliError> = None;
    let ghost mut n: int = 4;
    assert(move_views(moves@) =~= Seq::<(Seq<char>, Seq<char>)>::empty());
    for i in 0..4usize
        invariant
            from@.len() == 4,
            to@.len() == 4,
            names@.len() == 4,
            texts(names@) == legacy_files(),
            dir@ == workspace_dir(style, app_dir@, default_name()),
            any <==> exists|k: int| 0 <= k < i && #[trigger] from@[k],
            match refused {
                None => n == 4 && first_clash(from@, to@, 0) == first_clash(from@, to@, i as int)
                    && move_views(moves@) == moves_before(style, app_dir@, from@, i as int),
                Some(e) => 0 <= n < 4 && first_clash(from@, to@, 0) == n && move_views(moves@)
                    == moves_before(style, app_dir@, from@, n) && e.says(
                    "cannot migrate legacy cache because "@ + join(style, dir@, legacy_files()[n])
                        + " already exists"@,
                ),
            },
    {
        assert(texts(names@)[i as int] == names@[i as int]@);
        if from[i] {
            any = true;
            if refused.is_none() {
                let target = join_path(style, dir.as_str(), names[i].as_str());
                if to[i] {
                    refused = Some(
                        CliError::Message(
                            "cannot migrate legacy cache because ".to_owned().concat(
                                target.as_str(),
                            ).concat(" already exists"),
                        ),
                    );
                    proof {
                        n = i as int;
                    }
                } else {
                    let ghost before = move_views(moves@);
                    let step = (join_path(style, app_dir, names[i].as_str()), target);
                    moves.push(step);
                    assert(move_views(moves@) =~= before.push((step.0@, step.1@)));
                }
            }
        }
    }
    proof {
        if any {
            let k = choose|k: int| 0 <= k < 4 && #[trigger] from@[k];
            assert(from@.contains(true));
        } else if from@.contains(true) {
            let k = choose|k: int| 0 <= k < 4 && from@[k] == true;
            assert(from@[k]);
        }
    }
    let create_dir = if any {
        Some(dir)
    } else {
        None
    };
    MigrationPlan { create_dir, moves, refused }
}

// ---------------------------------------------------------------------------
// Archiving
// ---------------------------------------------------------------------------

/// The tracking files of a workspace: the base snapshot and the journals.
pub open spec fn tracking_paths(paths: CachePaths) -> Seq<Seq<char>> {
    seq![
        paths.base_snapshot_path@,
        paths.cleanup_journal_path@,
        paths.cache_usage_journal_path@,
    ]
}

/// Where a tracking file is kept when a new scan replaces it.
pub open spec fn archived_as(
    style: PathStyle,
    base_dir: Seq<char>,
    path: Seq<char>,
    unix: u64,
) -> Seq<char> {
    let name = match file_name(style, path) {
        Some(name) => name,
        None => "cache-file"@,
    };
    join(style, base_dir, name + "."@ + decimal(unix as nat) + ".archive"@)
}

/// The moves that archive the first `n` tracking files that are there.
pub open spec fn archive_moves(
    style: PathStyle,
    paths: CachePaths,
    present: Seq<bool>,
    unix: u64,
    n: int,
) -> Seq<
    (Seq<char>, Seq<char>),
>
    decreases n,
{
    if n <= 0 {
        Seq::empty()
    } else if present[n - 1] {
        let path = tracking_paths(paths)[n - 1];
        archive_moves(style, paths, present, unix, n - 1).push(
            (path, archived_as(style, paths.base_dir@, path, unix)),
        )
    } else {
        archive_moves(style, paths, present, unix, n - 1)
    }
}

/// The moves that archive the tracking files of a workspace before a new scan
/// replaces them. `present` says of the base snapshot, the cleanup journal and
/// the usage journal whether they are there.
pub fn archive_tracking_files(
    style: PathStyle,
    paths: &CachePaths,
    present: &Vec<bool>,
    unix: u64,
) -> (r: Vec<
    (String, String),
>)
    requires
        present@.len() == 3,
    ensures
        move_views(r@) == archive_moves(style, *paths, present@, unix, 3),
{
    let mut moves: Vec<(String, String)> = Vec::new();
    assert(move_views(moves@) =~= Seq::<(Seq<char>, Seq<char>)>::empty());
    for i in 0..3usize
        invariant
            present@.len() == 3,
            move_views(moves@) == archive_moves(style, *paths, present@, unix, i as int),
    {
        if present[i] {
            let path = if i == 0 {
                &paths.base_snapshot_path
            } else if i == 1 {
                &paths.cleanup_journal_path
            } else {
                &paths.cache_usage_journal_path
            };
            assert(path@ == tracking_paths(*paths)[i as int]);
            let name = match file_name_of(style, path.as_str()) {
                Some(name) => name,
                None => "cache-file".to_owned(),
            };
            let target = join_path(
                style,
                paths.base_dir.as_str(),
                name.concat(".").concat(decimal_text(unix).as_str()).concat(".archive").as_str(),
            );
            let ghost before = move_views(moves@);
            let step = (path.clone(), target);
            moves.push(step);
            assert(move_views(moves@) =~= before.push((step.0@, step.1@)));
        }
    }
    moves
}

} // verus!
