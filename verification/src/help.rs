//! The help page.
use vstd::prelude::*;

verus! {

/// The help page.
pub const HELP: &'static str = r#"dscan11 - cached Windows drive scanner

Scans one or more directories, stores a workspace snapshot under
%LOCALAPPDATA%\dscan11\workspaces, and serves later summary, file, folder,
navigation, status, audit, and config views from that cache without rescanning.

Usage:
  dscan11 [GLOBAL OPTIONS] <COMMAND> [COMMAND OPTIONS]
  dscan11 --help
  dscan11 -h
  dscan11 --version

Global options:
  --json
      Print machine-readable JSON for commands that display data.

  --quiet
      Print no progress and no warnings.

  --workspace NAME
      Use workspace NAME for this command. The active workspace stays the same.

  --limit N
      Limit rows displayed by summary, files, and folders.
      Default: 40

  -h, --help
      Show this help page.

  --version
      Show the version.

Commands:
  scan [--force] [--top N] [paths...]
      Scan paths and save a fresh cache snapshot.

      If no paths are provided, dscan11 scans all discovered Windows drive roots
      such as C:\. Explicit scan roots must exist and must be directories.
      A workspace tracks one set of roots; other roots need another workspace.

      --top N
          Choose how many largest files and folders are stored in the cache.
          Default: config top_limit, initially 1000.

      --force
          Rescan even when the cached scan is still fresh for the same roots.

      Examples:
          dscan11 scan C:\Users\Example
          dscan11 scan --force C:\Users\Example
          dscan11 scan --top 500 C:\Users\Example D:\Media
          dscan11 --json scan --top 100 C:\Users\Example\Downloads

  summary
      Show cached storage totals grouped by category.

      Examples:
          dscan11 summary
          dscan11 --limit 10 summary
          dscan11 --json --limit 10 summary

  files
      Show the largest cached files.

      Examples:
          dscan11 files
          dscan11 --limit 25 files
          dscan11 --json --limit 25 files

  folders
      Show the largest cached folders.

      Examples:
          dscan11 folders
          dscan11 --limit 25 folders
          dscan11 --json --limit 25 folders

  open file N
      Open Explorer at the folder containing the Nth largest cached file. If the
      file still exists, Explorer selects it.

      Examples:
          dscan11 files
          dscan11 open file 1
          dscan11 --limit 25 open file 12

  open folder N
      Open Explorer directly at the Nth largest cached folder.

      Examples:
          dscan11 folders
          dscan11 open folder 1
          dscan11 --limit 25 open folder 12

  browse
      Interactively browse cached top-N files, folders, and categories.
      This uses retained cache data only, not a complete file inventory. File
      and folder browse views can show full details and open selected items.

      Examples:
          dscan11 browse
          dscan11 --limit 25 browse

  status
      Show cache status, scan age, roots, totals, skipped paths, and access
      denied counts. Also shows tracked manual cleanup totals, active cache mode,
      and estimated scan work avoided by cache views.

      Examples:
          dscan11 status
          dscan11 --json status

  cache restore-base
      Restore the active cache snapshot to the exact latest full scan.

      Examples:
          dscan11 cache restore-base

  cache fast-forward
      Replay the manual cleanup journal onto the latest full scan and save that
      tracked present state as the active cache snapshot.

      Examples:
          dscan11 cache fast-forward

  cache cleanups
      List manually tracked removals from the cleanup journal.

      Examples:
          dscan11 cache cleanups
          dscan11 --json cache cleanups

  cache mark-removed file|folder --path PATH --yes
      Track the removal of a cached path that is already gone from disk. The
      command fails if the path still exists or is not cached.

      Examples:
          dscan11 cache mark-removed folder --path "C:\Users\Example\project\.venv" --yes
          dscan11 --json cache mark-removed file --path "C:\Users\Example\old.iso" --yes

  workspace list
      List all workspaces.

  workspace current
      Show the active workspace.

  workspace create NAME
      Create a workspace. Names may contain only letters, numbers, dots, dashes,
      and underscores.

  workspace use NAME
      Make a workspace the active one.

  workspace rename OLD NEW
      Rename a workspace with its cache.

  workspace delete [--force] NAME
      Delete a workspace that is not active. --force also deletes cache files.

      Examples:
          dscan11 workspace create media
          dscan11 workspace use media
          dscan11 --workspace media summary

  audit PATH --rules RULES.json
      Report on one root against audit rules. Audits only report: they never
      delete files and never update cleanup journals.

      Examples:
          dscan11 --workspace ai-dev-audit --json --quiet audit C:\Users\Example --rules audit-rules.json

  audit rules validate FILE
      Validate audit rules.

  audit rules init FILE
      Write default audit rules to a new file.

  audit rules from-inventory INVENTORY.md --out FILE
      Write audit rules for the folders of a workspace inventory.

  config [--stale-days DAYS] [--init-categories]
      Show the current config, update the stale-scan warning threshold, or
      bootstrap an editable category config from built-in defaults.

      --stale-days DAYS
          Set how many days old a cached scan can be before views warn that it
          is stale. Use 0 to disable stale warnings.

      --init-categories
          Create %LOCALAPPDATA%\dscan11\categories.json from built-in defaults.
          Existing category configs are not overwritten.

      Examples:
          dscan11 config
          dscan11 config --stale-days 15
          dscan11 config --init-categories
          dscan11 --json config
          dscan11 --json config --init-categories

Cache and config:
  Cache directory:
      %LOCALAPPDATA%\dscan11\workspaces\NAME

  Snapshot:
      %LOCALAPPDATA%\dscan11\workspaces\NAME\snapshot.json

  Base snapshot:
      %LOCALAPPDATA%\dscan11\workspaces\NAME\base-snapshot.json

  Journals:
      %LOCALAPPDATA%\dscan11\workspaces\NAME\cleanup-journal.jsonl
      %LOCALAPPDATA%\dscan11\workspaces\NAME\cache-usage-journal.jsonl

  Workspaces:
      %LOCALAPPDATA%\dscan11\workspaces.json

  Config:
      %LOCALAPPDATA%\dscan11\config.json

  Category config:
      %LOCALAPPDATA%\dscan11\categories.json

  Defaults:
      stale_days: 15
      top_limit: 1000

Important behavior:
  - Cache views never trigger a rescan; successful views are logged for savings estimates.
  - Cache savings are estimates based on the latest full scan scope.
  - open and browse navigation use cached file and folder ranks.
  - Fresh cached scans ask before rescanning unless --force is used.
  - --top controls how much scan data is stored.
  - --limit controls how much cached data is displayed.
  - Global options must appear before the command.
  - JSON output respects --limit for summary, files, and folders.

Exit codes:
  0  Success
  1  I/O or JSON error
  2  Invalid command, arguments, or scan root
"#;

/// The help page.
pub fn print_help() -> (r: &'static str)
    ensures
        r@ == HELP@,
{
    HELP
}

} // verus!
