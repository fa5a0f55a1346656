//! The command line: global options, commands and their arguments.
use crate::error::{refuse, CliError};
use crate::numbers::{parse_u64, parse_usize, typed_number};
use crate::prune::NavigationTarget;
use crate::text::{push_text, same_text, texts};
use vstd::prelude::*;

verus! {

/// Rows that are shown, unless set otherwise.
pub const DEFAULT_LIMIT: usize = 40;

/// What the command line asks for.
#[derive(Debug, PartialEq, Eq)]
pub enum Request {
    Help,
    Version,
    Run(Cli),
}

/// A command with its global options.
#[derive(Debug, PartialEq, Eq)]
pub struct Cli {
    pub json: bool,
    pub quiet: bool,
    pub limit: usize,
    pub workspace: Option<String>,
    pub command: Commands,
}

/// The commands.
#[allow(inconsistent_fields)]
#[derive(Debug, PartialEq, Eq)]
pub enum Commands {
    Scan { paths: Vec<String>, top: Option<usize>, force: bool },
    Summary,
    Files,
    Folders,
    Open { target: NavigationTarget, index: usize },
    Browse,
    Status,
    Cache { action: CacheAction },
    Config { stale_days: Option<u64>, init_categories: bool },
    Workspace { action: WorkspaceAction },
    Audit { action: AuditAction },
}

/// What to do with the cache.
#[derive(Debug, PartialEq, Eq)]
pub enum CacheAction {
    RestoreBase,
    FastForward,
    Cleanups,
    MarkRemoved { target: NavigationTarget, path: String },
}

/// What to do with workspaces.
#[derive(Debug, PartialEq, Eq)]
pub enum WorkspaceAction {
    List,
    Current,
    Create { name: String },
    Use { name: String },
    Rename { old_name: String, new_name: String },
    Delete { name: String, force: bool },
}

/// What to audit, or what to do with audit rules.
#[derive(Debug, PartialEq, Eq)]
pub enum AuditAction {
    Report { path: String, rules: String },
    ValidateRules { path: String },
    InitRules { path: String },
    RulesFromInventory { inventory: String, out: String },
}

// ---------------------------------------------------------------------------
// The grammar
// ---------------------------------------------------------------------------

/// The words of a command line.
pub type Words = Seq<Seq<char>>;

/// A command, its texts by their characters.
pub enum CommandView {
    Scan { paths: Words, top: Option<usize>, force: bool },
    Summary,
    Files,
    Folders,
    Open { target: NavigationTarget, index: usize },
    Browse,
    Status,
    RestoreBase,
    FastForward,
    Cleanups,
    MarkRemoved { target: NavigationTarget, path: Seq<char> },
    Config { stale_days: Option<u64>, init_categories: bool },
    WorkspaceList,
    WorkspaceCurrent,
    WorkspaceCreate { name: Seq<char> },
    WorkspaceUse { name: Seq<char> },
    WorkspaceRename { old_name: Seq<char>, new_name: Seq<char> },
    WorkspaceDelete { name: Seq<char>, force: bool },
    AuditReport { path: Seq<char>, rules: Seq<char> },
    AuditValidate { path: Seq<char> },
    AuditInit { path: Seq<char> },
    AuditInventory { inventory: Seq<char>, out: Seq<char> },
}

impl View for Commands {
    type V = CommandView;

    open spec fn view(&self) -> CommandView {
        match self {
            Commands::Scan { paths, top, force } => CommandView::Scan {
                paths: texts(paths@),
                top: *top,
                force: *force,
            },
            Commands::Summary => CommandView::Summary,
            Commands::Files => CommandView::Files,
            Commands::Folders => CommandView::Folders,
            Commands::Open { target, index } => CommandView::Open {
                target: *target,
                index: *index,
            },
            Commands::Browse => CommandView::Browse,
            Commands::Status => CommandView::Status,
            Commands::Cache { action } => match action {
                CacheAction::RestoreBase => CommandView::RestoreBase,
                CacheAction::FastForward => CommandView::FastForward,
                CacheAction::Cleanups => CommandView::Cleanups,
                CacheAction::MarkRemoved { target, path } => CommandView::MarkRemoved {
                    target: *target,
                    path: path@,
                },
            },
            Commands::Config { stale_days, init_categories } => CommandView::Config {
                stale_days: *stale_days,
                init_categories: *init_categories,
            },
            Commands::Workspace { action } => match action {
                WorkspaceAction::List => CommandView::WorkspaceList,
                WorkspaceAction::Current => CommandView::WorkspaceCurrent,
                WorkspaceAction::Create { name } => CommandView::WorkspaceCreate { name: name@ },
                WorkspaceAction::Use { name } => CommandView::WorkspaceUse { name: name@ },
                WorkspaceAction::Rename { old_name, new_name } => CommandView::WorkspaceRename {
                    old_name: old_name@,
                    new_name: new_name@,
                },
                WorkspaceAction::Delete { name, force } => CommandView::WorkspaceDelete {
                    name: name@,
                    force: *force,
                },
            },
            Commands::Audit { action } => match action {
                AuditAction::Report { path, rules } => CommandView::AuditReport {
                    path: path@,
                    rules: rules@,
                },
                AuditAction::ValidateRules { path } => CommandView::AuditValidate { path: path@ },
                AuditAction::InitRules { path } => CommandView::AuditInit { path: path@ },
                AuditAction::RulesFromInventory { inventory, out } => CommandView::AuditInventory {
                    inventory: inventory@,
                    out: out@,
                },
            },
        }
    }
}

/// What a parser makes of words: a value, or why they are refused.
pub type Parse<T> = Result<T, Seq<char>>;

/// A parser's result is what the grammar says.
pub open spec fn agrees(r: Result<Commands, CliError>, meant: Parse<CommandView>) -> bool {
    match meant {
        Ok(view) => r matches Ok(command) && command@ == view,
        Err(message) => r matches Err(e) && e.says(message),
    }
}

/// A whole number that fits a machine word.
pub open spec fn word_number(s: Seq<char>) -> Option<usize> {
    match typed_number(s) {
        Some(n) => if n <= usize::MAX {
            Some(n as usize)
        } else {
            None
        },
        None => None,
    }
}

/// A whole number that fits 64 bits.
pub open spec fn long_number(s: Seq<char>) -> Option<u64> {
    match typed_number(s) {
        Some(n) => if n <= u64::MAX {
            Some(n as u64)
        } else {
            None
        },
        None => None,
    }
}

/// The words of `scan` from `i` on.
pub open spec fn scan_words(
    words: Words,
    i: int,
    paths: Words,
    top: Option<usize>,
    force: bool,
) -> Parse<CommandView>
    decreases words.len() - i,
{
    if i >= words.len() {
        Ok(CommandView::Scan { paths, top, force })
    } else if words[i] == "--force"@ {
        scan_words(words, i + 1, paths, top, true)
    } else if words[i] == "--top"@ {
        if i + 1 >= words.len() {
            Err("--top requires a positive integer"@)
        } else {
            match word_number(words[i + 1]) {
                Some(n) => scan_words(words, i + 2, paths, Some(n), force),
                None => Err("--top must be a positive integer"@),
            }
        }
    } else {
        scan_words(words, i + 1, paths.push(words[i]), top, force)
    }
}

/// The words of `open`.
pub open spec fn open_words(words: Words) -> Parse<CommandView> {
    if words.len() != 2 {
        Err("open requires `file N` or `folder N`; run `dscan11 --help`"@)
    } else {
        let target = if words[0] == "file"@ || words[0] == "files"@ {
            Some(NavigationTarget::File)
        } else if words[0] == "folder"@ || words[0] == "folders"@ {
            Some(NavigationTarget::Folder)
        } else {
            None
        };
        match target {
            None => Err(
                "unknown open target `"@ + words[0] + "`; use `file` or `folder`"@,
            ),
            Some(target) => match word_number(words[1]) {
                Some(index) => Ok(CommandView::Open { target, index }),
                None => Err("open number must be a positive integer"@),
            },
        }
    }
}

/// The words of `cache mark-removed` from `i` on.
pub open spec fn mark_words(
    words: Words,
    i: int,
    target: NavigationTarget,
    path: Option<Seq<char>>,
    yes: bool,
) -> Parse<CommandView>
    decreases words.len() - i,
{
    if i >= words.len() {
        match path {
            None => Err("cache mark-removed requires `--path PATH`"@),
            Some(path) => if yes {
                Ok(CommandView::MarkRemoved { target, path })
            } else {
                Err(
                    "cache mark-removed requires `--yes` to confirm that the path is already gone"@,
                )
            },
        }
    } else if words[i] == "--yes"@ {
        mark_words(words, i + 1, target, path, true)
    } else if words[i] == "--path"@ {
        if i + 1 >= words.len() {
            Err("cache mark-removed requires `--path PATH`"@)
        } else {
            mark_words(words, i + 2, target, Some(words[i + 1]), yes)
        }
    } else {
        Err("unknown cache mark-removed argument `"@ + words[i] + "`"@)
    }
}

/// The words of `cache`.
pub open spec fn cache_words(words: Words) -> Parse<CommandView> {
    if words.len() > 0 && words[0] == "mark-removed"@ {
        if words.len() < 2 {
            Err("cache mark-removed requires `file` or `folder`"@)
        } else if words[1] == "file"@ {
            mark_words(words, 2, NavigationTarget::File, None, false)
        } else if words[1] == "folder"@ {
            mark_words(words, 2, NavigationTarget::Folder, None, false)
        } else {
            Err(
                "unknown cache mark-removed target `"@ + words[1]
                    + "`; use `file` or `folder`"@,
            )
        }
    } else if words.len() != 1 {
        Err(
            "cache requires `restore-base`, `fast-forward`, `cleanups`, or `mark-removed`; run `dscan11 --help`"@,
        )
    } else if words[0] == "restore-base"@ {
        Ok(CommandView::RestoreBase)
    } else if words[0] == "fast-forward"@ {
        Ok(CommandView::FastForward)
    } else if words[0] == "cleanups"@ || words[0] == "cleanup"@ || words[0] == "removals"@ {
        Ok(CommandView::Cleanups)
    } else {
        Err(
            "unknown cache action `"@ + words[0]
                + "`; use `restore-base`, `fast-forward`, `cleanups`, or `mark-removed`"@,
        )
    }
}

/// The words of `config` from `i` on.
pub open spec fn config_words(
    words: Words,
    i: int,
    stale_days: Option<u64>,
    init_categories: bool,
) -> Parse<CommandView>
    decreases words.len() - i,
{
    if i >= words.len() {
        Ok(CommandView::Config { stale_days, init_categories })
    } else if words[i] == "--init-categories"@ {
        config_words(words, i + 1, stale_days, true)
    } else if words[i] == "--stale-days"@ {
        if i + 1 >= words.len() {
            Err("--stale-days requires a number"@)
        } else {
            match long_number(words[i + 1]) {
                Some(n) => config_words(words, i + 2, Some(n), init_categories),
                None => Err("--stale-days must be a number"@),
            }
        }
    } else {
        Err("unknown config argument `"@ + words[i] + "`"@)
    }
}

/// The words of `workspace delete` from `i` on.
pub open spec fn delete_words(words: Words, i: int, name: Option<Seq<char>>, force: bool) -> Parse<
    CommandView,
>
    decreases words.len() - i,
{
    if i >= words.len() {
        match name {
            Some(name) => Ok(CommandView::WorkspaceDelete { name, force }),
            None => Err("workspace delete requires `[--force] NAME`"@),
        }
    } else if words[i] == "--force"@ {
        delete_words(words, i + 1, name, true)
    } else if name is Some {
        Err("workspace delete requires `[--force] NAME`"@)
    } else {
        delete_words(words, i + 1, Some(words[i]), force)
    }
}

/// The words of `workspace`.
pub open spec fn workspace_words(words: Words) -> Parse<CommandView> {
    if words.len() == 0 {
        Err(
            "workspace requires `list`, `current`, `create`, `use`, `rename`, or `delete`; run `dscan11 --help`"@,
        )
    } else if words[0] == "list"@ {
        if words.len() == 1 {
            Ok(CommandView::WorkspaceList)
        } else {
            Err("workspace list takes no arguments"@)
        }
    } else if words[0] == "current"@ {
        if words.len() == 1 {
            Ok(CommandView::WorkspaceCurrent)
        } else {
            Err("workspace current takes no arguments"@)
        }
    } else if words[0] == "create"@ {
        if words.len() == 2 {
            Ok(CommandView::WorkspaceCreate { name: words[1] })
        } else {
            Err("workspace create requires `NAME`"@)
        }
    } else if words[0] == "use"@ {
        if words.len() == 2 {
            Ok(CommandView::WorkspaceUse { name: words[1] })
        } else {
            Err("workspace use requires `NAME`"@)
        }
    } else if words[0] == "rename"@ {
        if words.len() == 3 {
            Ok(CommandView::WorkspaceRename { old_name: words[1], new_name: words[2] })
        } else {
            Err("workspace rename requires `OLD NEW`"@)
        }
    } else if words[0] == "delete"@ {
        delete_words(words, 1, None, false)
    } else {
        Err(
            "unknown workspace action `"@ + words[0]
                + "`; use `list`, `current`, `create`, `use`, `rename`, or `delete`"@,
        )
    }
}

/// The words of a command that takes one path and one option with a value, from
/// `i` on: the path and the value.
pub open spec fn path_and_option(
    words: Words,
    i: int,
    option: Seq<char>,
    usage: Seq<char>,
    path: Option<Seq<char>>,
    value: Option<Seq<char>>,
) -> Parse<(Seq<char>, Seq<char>)>
    decreases words.len() - i,
{
    if i >= words.len() {
        match (path, value) {
            (Some(path), Some(value)) => Ok((path, value)),
            _ => Err(usage),
        }
    } else if words[i] == option {
        if i + 1 >= words.len() {
            Err(usage)
        } else {
            path_and_option(words, i + 2, option, usage, path, Some(words[i + 1]))
        }
    } else if path is Some {
        Err(usage)
    } else {
        path_and_option(words, i + 1, option, usage, Some(words[i]), value)
    }
}

/// The words of `audit`.
pub open spec fn audit_words(words: Words) -> Parse<CommandView> {
    if words.len() > 0 && words[0] == "rules"@ {
        if words.len() == 3 && words[1] == "validate"@ {
            Ok(CommandView::AuditValidate { path: words[2] })
        } else if words.len() == 3 && words[1] == "init"@ {
            Ok(CommandView::AuditInit { path: words[2] })
        } else if words.len() > 1 && words[1] == "from-inventory"@ {
            match path_and_option(
                words,
                2,
                "--out"@,
                "audit rules from-inventory requires `INVENTORY.md --out RULES.json`"@,
                None,
                None,
            ) {
                Ok((inventory, out)) => Ok(CommandView::AuditInventory { inventory, out }),
                Err(message) => Err(message),
            }
        } else {
            Err(
                "audit rules requires `validate FILE`, `init FILE`, or `from-inventory FILE --out FILE`; run `dscan11 --help`"@,
            )
        }
    } else {
        match path_and_option(
            words,
            0,
            "--rules"@,
            "audit requires one root path and `--rules RULES.json`; run `dscan11 --help`"@,
            None,
            None,
        ) {
            Ok((path, rules)) => Ok(CommandView::AuditReport { path, rules }),
            Err(message) => Err(message),
        }
    }
}

/// A command and its words.
pub open spec fn command_words(words: Words) -> Parse<CommandView> {
    let rest = words.skip(1);
    if words.len() == 0 {
        Err("missing command; run `dscan11 --help`"@)
    } else if words[0] == "scan"@ {
        scan_words(rest, 0, Seq::empty(), None, false)
    } else if words[0] == "summary"@ {
        Ok(CommandView::Summary)
    } else if words[0] == "files"@ {
        Ok(CommandView::Files)
    } else if words[0] == "folders"@ {
        Ok(CommandView::Folders)
    } else if words[0] == "open"@ {
        open_words(rest)
    } else if words[0] == "browse"@ {
        Ok(CommandView::Browse)
    } else if words[0] == "status"@ {
        Ok(CommandView::Status)
    } else if words[0] == "cache"@ {
        cache_words(rest)
    } else if words[0] == "config"@ {
        config_words(rest, 0, None, false)
    } else if words[0] == "workspace"@ {
        workspace_words(rest)
    } else if words[0] == "audit"@ {
        audit_words(rest)
    } else {
        Err("unknown command `"@ + words[0] + "`; run `dscan11 --help`"@)
    }
}

/// The global options and the words from the command on. Where the version is
/// asked for, nothing behind that is read.
pub struct Globals {
    pub version: bool,
    pub json: bool,
    pub quiet: bool,
    pub limit: usize,
    pub workspace: Option<Seq<char>>,
    pub rest: Words,
}

/// The global options from the word at `i` on: they stand before the command, so
/// the first word that is none of them ends them.
pub open spec fn globals(words: Words, i: int, g: Globals) -> Parse<Globals>
    decreases words.len() - i,
{
    if i >= words.len() {
        Ok(Globals { rest: words.skip(i), ..g })
    } else if words[i] == "--version"@ {
        Ok(Globals { version: true, ..g })
    } else if words[i] == "--json"@ {
        globals(words, i + 1, Globals { json: true, ..g })
    } else if words[i] == "--quiet"@ {
        globals(words, i + 1, Globals { quiet: true, ..g })
    } else if words[i] == "--limit"@ {
        if i + 1 >= words.len() {
            Err("--limit requires a positive integer"@)
        } else {
            match word_number(words[i + 1]) {
                Some(n) => globals(words, i + 2, Globals { limit: n, ..g }),
                None => Err("--limit must be a positive integer"@),
            }
        }
    } else if words[i] == "--workspace"@ {
        if i + 1 >= words.len() {
            Err("--workspace requires a name"@)
        } else {
            globals(words, i + 2, Globals { workspace: Some(words[i + 1]), ..g })
        }
    } else {
        Ok(Globals { rest: words.skip(i), ..g })
    }
}

/// The global options before any is read.
pub open spec fn no_globals() -> Globals {
    Globals {
        version: false,
        json: false,
        quiet: false,
        limit: DEFAULT_LIMIT,
        workspace: None,
        rest: Seq::empty(),
    }
}

spec fn globals_read(
    json: bool,
    quiet: bool,
    limit: usize,
    workspace: Option<String>,
) -> Globals {
    Globals {
        version: false,
        json,
        quiet,
        limit,
        workspace: crate::snapshot::opt_text(workspace),
        rest: Seq::empty(),
    }
}

/// The command line is this one: at least one row is shown.
pub open spec fn is_cli(cli: Cli, g: Globals, command: CommandView) -> bool {
    &&& cli.json == g.json
    &&& cli.quiet == g.quiet
    &&& cli.limit == if g.limit == 0 {
        1usize
    } else {
        g.limit
    }
    &&& crate::snapshot::opt_text(cli.workspace) == g.workspace
    &&& cli.command@ == command
}

/// What a command line asks for. Help may be asked for anywhere; the version, as
/// a global option, before the command.
pub open spec fn asks(words: Words, r: Result<Request, CliError>) -> bool {
    if words.len() == 0 || words.contains("-h"@) || words.contains("--help"@) {
        r == Ok::<Request, CliError>(Request::Help)
    } else {
        match globals(words, 0, no_globals()) {
            Err(message) => r matches Err(e) && e.says(message),
            Ok(g) => if g.version {
                r == Ok::<Request, CliError>(Request::Version)
            } else {
                match command_words(g.rest) {
                    Err(message) => r matches Err(e) && e.says(message),
                    Ok(command) => r matches Ok(Request::Run(cli)) && is_cli(cli, g, command),
                }
            },
        }
    }
}

/// This word is a global option.
pub open spec fn is_global(word: Seq<char>) -> bool {
    word == "--json"@ || word == "--quiet"@ || word == "--limit"@ || word == "--workspace"@ || word
        == "--version"@
}

/// Global options must appear before the command: where the first word is none of
/// them, what follows it is left to the command, and no global option is set.
pub proof fn law_global_options_come_first(words: Words, cli: Cli)
    requires
        asks(words, Ok(Request::Run(cli))),
        !is_global(words[0]),
    ensures
        !cli.json,
        !cli.quiet,
        cli.limit == DEFAULT_LIMIT,
        cli.workspace is None,
        command_words(words) == Ok::<CommandView, Seq<char>>(cli.command@),
{
    assert(words.skip(0) =~= words);
}

// ---------------------------------------------------------------------------
// The parser
// ---------------------------------------------------------------------------

fn word_is(words: &Vec<String>, i: usize, text: &str) -> (r: bool)
    requires
        i < words@.len(),
    ensures
        r == (texts(words@)[i as int] == text@),
{
    assert(texts(words@)[i as int] == words@[i as int]@);
    same_text(words[i].as_str(), text)
}

fn number_at(words: &Vec<String>, i: usize) -> (r: Option<usize>)
    requires
        i < words@.len(),
    ensures
        r == word_number(texts(words@)[i as int]),
{
    assert(texts(words@)[i as int] == words@[i as int]@);
    parse_usize(words[i].as_str())
}

fn say(head: &str, word: &String, tail: &str) -> (r: CliError)
    ensures
        r.says(head@ + word@ + tail@),
{
    CliError::Message(head.to_owned().concat(word.as_str()).concat(tail))
}

fn parse_scan(words: &Vec<String>) -> (r: Result<Commands, CliError>)
    ensures
        agrees(r, scan_words(texts(words@), 0, Seq::empty(), None, false)),
{
    let ghost all = texts(words@);
    let ghost goal = scan_words(all, 0, Seq::empty(), None, false);
    let mut paths: Vec<String> = Vec::new();
    let mut top: Option<usize> = None;
    let mut force = false;
    let mut i: usize = 0;
    assert(texts(paths@) =~= Seq::<Seq<char>>::empty());
    while i < words.len()
        invariant
            all == texts(words@),
            goal == scan_words(all, 0, Seq::empty(), None, false),
            goal == scan_words(all, i as int, texts(paths@), top, force),
            i <= words@.len(),
        decreases words@.len() - i,
    {
        if word_is(words, i, "--force") {
            force = true;
            i += 1;
        } else if word_is(words, i, "--top") {
            if words.len() - i < 2 {
                return Err(refuse("--top requires a positive integer"));
            }
            match number_at(words, i + 1) {
                Some(n) => {
                    top = Some(n);
                },
                None => {
                    return Err(refuse("--top must be a positive integer"));
                },
            }
            i += 2;
        } else {
            push_text(&mut paths, words[i].clone());
            i += 1;
        }
    }
    Ok(Commands::Scan { paths, top, force })
}

fn parse_open(words: &Vec<String>) -> (r: Result<Commands, CliError>)
    ensures
        agrees(r, open_words(texts(words@))),
{
    if words.len() != 2 {
        return Err(refuse("open requires `file N` or `folder N`; run `dscan11 --help`"));
    }
    let target = if word_is(words, 0, "file") || word_is(words, 0, "files") {
        NavigationTarget::File
    } else if word_is(words, 0, "folder") || word_is(words, 0, "folders") {
        NavigationTarget::Folder
    } else {
        assert(texts(words@)[0] == words@[0]@);
        return Err(say("unknown open target `", &words[0], "`; use `file` or `folder`"));
    };
    match number_at(words, 1) {
        Some(index) => Ok(Commands::Open { target, index }),
        None => Err(refuse("open number must be a positive integer")),
    }
}

fn parse_mark(words: &Vec<String>, target: NavigationTarget) -> (r: Result<Commands, CliError>)
    requires
        words@.len() >= 2,
    ensures
        agrees(r, mark_words(texts(words@), 2, target, None, false)),
{
    let ghost all = texts(words@);
    let ghost goal = mark_words(all, 2, target, None, false);
    let mut path: Option<String> = None;
    let mut yes = false;
    let mut i: usize = 2;
    while i < words.len()
        invariant
            all == texts(words@),
            goal == mark_words(all, 2, target, None, false),
            goal == mark_words(all, i as int, target, crate::snapshot::opt_text(path), yes),
            i <= words@.len(),
        decreases words@.len() - i,
    {
        assert(all[i as int] == words@[i as int]@);
        if word_is(words, i, "--yes") {
            yes = true;
            i += 1;
        } else if word_is(words, i, "--path") {
            if words.len() - i < 2 {
                return Err(refuse("cache mark-removed requires `--path PATH`"));
            }
            assert(all[i + 1] == words@[i + 1]@);
            path = Some(words[i + 1].clone());
            i += 2;
        } else {
            return Err(say("unknown cache mark-removed argument `", &words[i], "`"));
        }
    }
    match path {
        None => Err(refuse("cache mark-removed requires `--path PATH`")),
        Some(path) => if yes {
            Ok(Commands::Cache { action: CacheAction::MarkRemoved { target, path } })
        } else {
            Err(
                refuse(
                    "cache mark-removed requires `--yes` to confirm that the path is already gone",
                ),
            )
        },
    }
}

fn parse_cache(words: &Vec<String>) -> (r: Result<Commands, CliError>)
    ensures
        agrees(r, cache_words(texts(words@))),
{
    let ghost all = texts(words@);
    if words.len() > 0 && word_is(words, 0, "mark-removed") {
        if words.len() < 2 {
            return Err(refuse("cache mark-removed requires `file` or `folder`"));
        }
        if word_is(words, 1, "file") {
            return parse_mark(words, NavigationTarget::File);
        }
        if word_is(words, 1, "folder") {
            return parse_mark(words, NavigationTarget::Folder);
        }
        assert(all[1] == words@[1]@);
        return Err(
            say("unknown cache mark-removed target `", &words[1], "`; use `file` or `folder`"),
        );
    }
    if words.len() != 1 {
        return Err(
            refuse(
                "cache requires `restore-base`, `fast-forward`, `cleanups`, or `mark-removed`; run `dscan11 --help`",
            ),
        );
    }
    if word_is(words, 0, "restore-base") {
        return Ok(Commands::Cache { action: CacheAction::RestoreBase });
    }
    if word_is(words, 0, "fast-forward") {
        return Ok(Commands::Cache { action: CacheAction::FastForward });
    }
    if word_is(words, 0, "cleanups") || word_is(words, 0, "cleanup") || word_is(
        words,
        0,
        "removals",
    ) {
        return Ok(Commands::Cache { action: CacheAction::Cleanups });
    }
    assert(all[0] == words@[0]@);
    Err(
        say(
            "unknown cache action `",
            &words[0],
            "`; use `restore-base`, `fast-forward`, `cleanups`, or `mark-removed`",
        ),
    )
}

fn parse_config(words: &Vec<String>) -> (r: Result<Commands, CliError>)
    ensures
        agrees(r, config_words(texts(words@), 0, None, false)),
{
    let ghost all = texts(words@);
    let ghost goal = config_words(all, 0, None, false);
    let mut stale_days: Option<u64> = None;
    let mut init_categories = false;
    let mut i: usize = 0;
    while i < words.len()
        invariant
            all == texts(words@),
            goal == config_words(all, 0, None, false),
            goal == config_words(all, i as int, stale_days, init_categories),
            i <= words@.len(),
        decreases words@.len() - i,
    {
        assert(all[i as int] == words@[i as int]@);
        if word_is(words, i, "--init-categories") {
            init_categories = true;
            i += 1;
        } else if word_is(words, i, "--stale-days") {
            if words.len() - i < 2 {
                return Err(refuse("--stale-days requires a number"));
            }
            assert(all[i + 1] == words@[i + 1]@);
            match parse_u64(words[i + 1].as_str()) {
                Some(n) => {
                    stale_days = Some(n);
                },
                None => {
                    return Err(refuse("--stale-days must be a number"));
                },
            }
            i += 2;
        } else {
            return Err(say("unknown config argument `", &words[i], "`"));
        }
    }
    Ok(Commands::Config { stale_days, init_categories })
}

fn parse_delete(words: &Vec<String>) -> (r: Result<Commands, CliError>)
    requires
        words@.len() >= 1,
    ensures
        agrees(r, delete_words(texts(words@), 1, None, false)),
{
    let ghost all = texts(words@);
    let ghost goal = delete_words(all, 1, None, false);
    let mut name: Option<String> = None;
    let mut force = false;
    let mut i: usize = 1;
    while i < words.len()
        invariant
            all == texts(words@),
            goal == delete_words(all, 1, None, false),
            goal == delete_words(all, i as int, crate::snapshot::opt_text(name), force),
            i <= words@.len(),
        decreases words@.len() - i,
    {
        assert(all[i as int] == words@[i as int]@);
        if word_is(words, i, "--force") {
            force = true;
        } else {
            match name {
                Some(_) => {
                    return Err(refuse("workspace delete requires `[--force] NAME`"));
                },
                None => {
                    name = Some(words[i].clone());
                },
            }
        }
        i += 1;
    }
    match name {
        Some(name) => Ok(Commands::Workspace { action: WorkspaceAction::Delete { name, force } }),
        None => Err(refuse("workspace delete requires `[--force] NAME`")),
    }
}

fn parse_workspace(words: &Vec<String>) -> (r: Result<Commands, CliError>)
    ensures
        agrees(r, workspace_words(texts(words@))),
{
    let ghost all = texts(words@);
    if words.len() == 0 {
        return Err(
            refuse(
                "workspace requires `list`, `current`, `create`, `use`, `rename`, or `delete`; run `dscan11 --help`",
            ),
        );
    }
    assert forall|i: int| 0 <= i < all.len() implies #[trigger] all[i] == words@[i]@ by {}
    if word_is(words, 0, "list") {
        return if words.len() == 1 {
            Ok(Commands::Workspace { action: WorkspaceAction::List })
        } else {
            Err(refuse("workspace list takes no arguments"))
        };
    }
    if word_is(words, 0, "current") {
        return if words.len() == 1 {
            Ok(Commands::Workspace { action: WorkspaceAction::Current })
        } else {
            Err(refuse("workspace current takes no arguments"))
        };
    }
    if word_is(words, 0, "create") {
        return if words.len() == 2 {
            Ok(Commands::Workspace { action: WorkspaceAction::Create { name: words[1].clone() } })
        } else {
            Err(refuse("workspace create requires `NAME`"))
        };
    }
    if word_is(words, 0, "use") {
        return if words.len() == 2 {
            Ok(Commands::Workspace { action: WorkspaceAction::Use { name: words[1].clone() } })
        } else {
            Err(refuse("workspace use requires `NAME`"))
        };
    }
    if word_is(words, 0, "rename") {
        return if words.len() == 3 {
            Ok(
                Commands::Workspace {
                    action: WorkspaceAction::Rename {
                        old_name: words[1].clone(),
                        new_name: words[2].clone(),
                    },
                },
            )
        } else {
            Err(refuse("workspace rename requires `OLD NEW`"))
        };
    }
    if word_is(words, 0, "delete") {
        return parse_delete(words);
    }
    Err(
        say(
            "unknown workspace action `",
            &words[0],
            "`; use `list`, `current`, `create`, `use`, `rename`, or `delete`",
        ),
    )
}

fn parse_path_and_option(words: &Vec<String>, from: usize, option: &str, usage: &str) -> (r: Result<
    (String, String),
    CliError,
>)
    requires
        from <= words@.len(),
    ensures
        match path_and_option(texts(words@), from as int, option@, usage@, None, None) {
            Ok((path, value)) => r matches Ok((p, v)) && p@ == path && v@ == value,
            Err(message) => r matches Err(e) && e.says(message),
        },
{
    let ghost all = texts(words@);
    let ghost goal = path_and_option(all, from as int, option@, usage@, None, None);
    let mut path: Option<String> = None;
    let mut value: Option<String> = None;
    let mut i: usize = from;
    while i < words.len()
        invariant
            all == texts(words@),
            goal == path_and_option(texts(words@), from as int, option@, usage@, None, None),
            goal == path_and_option(
                all,
                i as int,
                option@,
                usage@,
                crate::snapshot::opt_text(path),
                crate::snapshot::opt_text(value),
            ),
            i <= words@.len(),
        decreases words@.len() - i,
    {
        assert(all[i as int] == words@[i as int]@);
        if word_is(words, i, option) {
            if words.len() - i < 2 {
                return Err(refuse(usage));
            }
            assert(all[i + 1] == words@[i + 1]@);
            value = Some(words[i + 1].clone());
            i += 2;
        } else {
            match path {
                Some(_) => {
                    return Err(refuse(usage));
                },
                None => {
                    path = Some(words[i].clone());
                },
            }
            i += 1;
        }
    }
    match (path, value) {
        (Some(path), Some(value)) => Ok((path, value)),
        _ => Err(refuse(usage)),
    }
}

fn parse_audit(words: &Vec<String>) -> (r: Result<Commands, CliError>)
    ensures
        agrees(r, audit_words(texts(words@))),
{
    let ghost all = texts(words@);
    assert forall|i: int| 0 <= i < all.len() implies #[trigger] all[i] == words@[i]@ by {}
    if words.len() > 0 && word_is(words, 0, "rules") {
        if words.len() == 3 && word_is(words, 1, "validate") {
            return Ok(
                Commands::Audit { action: AuditAction::ValidateRules { path: words[2].clone() } },
            );
        }
        if words.len() == 3 && word_is(words, 1, "init") {
            return Ok(
                Commands::Audit { action: AuditAction::InitRules { path: words[2].clone() } },
            );
        }
        if words.len() > 1 && word_is(words, 1, "from-inventory") {
            return match parse_path_and_option(
                words,
                2,
                "--out",
                "audit rules from-inventory requires `INVENTORY.md --out RULES.json`",
            ) {
                Ok((inventory, out)) => Ok(
                    Commands::Audit { action: AuditAction::RulesFromInventory { inventory, out } },
                ),
                Err(e) => Err(e),
            };
        }
        return Err(
            refuse(
                "audit rules requires `validate FILE`, `init FILE`, or `from-inventory FILE --out FILE`; run `dscan11 --help`",
            ),
        );
    }
    match parse_path_and_option(
        words,
        0,
        "--rules",
        "audit requires one root path and `--rules RULES.json`; run `dscan11 --help`",
    ) {
        Ok((path, rules)) => Ok(Commands::Audit { action: AuditAction::Report { path, rules } }),
        Err(e) => Err(e),
    }
}

fn words_from(words: &Vec<String>, start: usize) -> (r: Vec<String>)
    requires
        start <= words@.len(),
    ensures
        texts(r@) == texts(words@).skip(start as int),
{
    let ghost all = texts(words@);
    let mut rest: Vec<String> = Vec::new();
    assert(texts(rest@) =~= all.subrange(start as int, start as int));
    for i in start..words.len()
        invariant
            all == texts(words@),
            start <= i <= words@.len(),
            texts(rest@) == all.subrange(start as int, i as int),
    {
        assert(all[i as int] == words@[i as int]@);
        push_text(&mut rest, words[i].clone());
        assert(texts(rest@) =~= all.subrange(start as int, i + 1));
    }
    assert(texts(rest@) =~= all.skip(start as int));
    rest
}

fn parse_command(words: &Vec<String>) -> (r: Result<Commands, CliError>)
    ensures
        agrees(r, command_words(texts(words@))),
{
    if words.len() == 0 {
        return Err(refuse("missing command; run `dscan11 --help`"));
    }
    let ghost all = texts(words@);
    assert(all[0] == words@[0]@);
    let rest = words_from(words, 1);
    if word_is(words, 0, "scan") {
        return parse_scan(&rest);
    }
    if word_is(words, 0, "summary") {
        return Ok(Commands::Summary);
    }
    if word_is(words, 0, "files") {
        return Ok(Commands::Files);
    }
    if word_is(words, 0, "folders") {
        return Ok(Commands::Folders);
    }
    if word_is(words, 0, "open") {
        return parse_open(&rest);
    }
    if word_is(words, 0, "browse") {
        return Ok(Commands::Browse);
    }
    if word_is(words, 0, "status") {
        return Ok(Commands::Status);
    }
    if word_is(words, 0, "cache") {
        return parse_cache(&rest);
    }
    if word_is(words, 0, "config") {
        return parse_config(&rest);
    }
    if word_is(words, 0, "workspace") {
        return parse_workspace(&rest);
    }
    if word_is(words, 0, "audit") {
        return parse_audit(&rest);
    }
    Err(say("unknown command `", &words[0], "`; run `dscan11 --help`"))
}

fn has_word(words: &Vec<String>, text: &str) -> (r: bool)
    ensures
        r == texts(words@).contains(text@),
{
    let ghost all = texts(words@);
    for i in 0..words.len()
        invariant
            all == texts(words@),
            forall|k: int| 0 <= k < i ==> #[trigger] all[k] != text@,
    {
        if word_is(words, i, text) {
            assert(all[i as int] == text@);
            return true;
        }
    }
    false
}

/// Reads the command line.
pub fn parse_cli(args: &Vec<String>) -> (r: Result<Request, CliError>)
    ensures
        asks(texts(args@), r),
{
    if args.len() == 0 || has_word(args, "-h") || has_word(args, "--help") {
        return Ok(Request::Help);
    }
    let ghost all = texts(args@);
    let ghost goal = globals(all, 0, no_globals());
    let mut json = false;
    let mut quiet = false;
    let mut limit: usize = DEFAULT_LIMIT;
    let mut workspace: Option<String> = None;
    let mut i: usize = 0;
    while i < args.len()
        invariant_except_break
            goal == globals(all, i as int, globals_read(json, quiet, limit, workspace)),
        invariant
            all == texts(args@),
            i <= args@.len(),
            all.len() > 0,
            !all.contains("-h"@),
            !all.contains("--help"@),
            goal == globals(all, 0, no_globals()),
        ensures
            goal == Ok::<Globals, Seq<char>>(
                Globals {
                    rest: all.skip(i as int),
                    ..globals_read(json, quiet, limit, workspace)
                },
            ),
        decreases args@.len() - i,
    {
        assert(all[i as int] == args@[i as int]@);
        if word_is(args, i, "--version") {
            return Ok(Request::Version);
        } else if word_is(args, i, "--json") {
            json = true;
            i += 1;
        } else if word_is(args, i, "--quiet") {
            quiet = true;
            i += 1;
        } else if word_is(args, i, "--limit") {
            if args.len() - i < 2 {
                return Err(refuse("--limit requires a positive integer"));
            }
            match number_at(args, i + 1) {
                Some(n) => {
                    limit = n;
                },
                None => {
                    return Err(refuse("--limit must be a positive integer"));
                },
            }
            i += 2;
        } else if word_is(args, i, "--workspace") {
            if args.len() - i < 2 {
                return Err(refuse("--workspace requires a name"));
            }
            assert(all[i + 1] == args@[i + 1]@);
            workspace = Some(args[i + 1].clone());
            i += 2;
        } else {
            break;
        }
    }
    let rest = words_from(args, i);
    match parse_command(&rest) {
        Err(e) => Err(e),
        Ok(command) => {
            if limit == 0 {
                limit = 1;
            }
            Ok(Request::Run(Cli { json, quiet, limit, workspace, command }))
        },
    }
}

} // verus!
