use dscan11::paths::PathStyle;
use dscan11::config::FileRead;
use dscan11::error::CliError;
use dscan11::names::NameMap;
use dscan11::workspace::{
    archive_tracking_files, cache_paths, cache_paths_for_workspace, cache_paths_for_workspace_at,
    create_workspace, create_workspace_at, current_workspace, delete_workspace, fresh_registry,
    legacy_file_names, list_workspaces, load_or_init_workspace_registry,
    load_or_init_workspace_registry_at, locate_app_dir, migrate_legacy_cache, rename_workspace,
    use_workspace, validate_workspace_name, workspace_cache_paths, workspace_exists, WorkspaceInfo,
    WorkspaceRegistry,
};

const STYLE: PathStyle = PathStyle::Windows;

const APP: &str = r"C:\L\dscan11";

#[test]
fn workspace_name_validator_accepts_portable_names() {
    for name in ["default", "media-2026", "work.docs", "backup_1"] {
        validate_workspace_name(name).expect("valid workspace name");
    }
}

#[test]
fn workspace_name_validator_rejects_unsafe_names_with_hint() {
    for name in ["", ".", "..", "media/photos", "bad name", "oops!"] {
        let err = validate_workspace_name(name).expect_err("invalid workspace name");
        let message = err.text();
        assert!(
            message.contains("invalid workspace name"),
            "unexpected error for {name:?}: {message}"
        );
    }
    assert_eq!(
        validate_workspace_name("..").expect_err("dots").text(),
        "invalid workspace name \"..\"; workspace names cannot be \".\" or \"..\""
    );
    assert_eq!(
        validate_workspace_name("").expect_err("empty").text(),
        "invalid workspace name \"\"; use letters, numbers, dots, dashes, or underscores only"
    );
}

#[test]
fn invalid_workspace_names_are_rejected_with_hint() {
    let mut registry = fresh_registry(1);
    for name in ["", ".", "..", "media/photos", "bad name", "oops!"] {
        let err = create_workspace(&mut registry, name).expect_err("name should fail");
        assert!(err.text().contains("invalid workspace name"));
        assert!(workspace_exists(&registry, name).is_err());
    }
    assert_eq!(registry, fresh_registry(1));
}

#[test]
fn workspace_lifecycle_commands_work() {
    let mut registry = fresh_registry(1);
    create_workspace(&mut registry, "draft").expect("created");
    let info = *registry.workspaces.get("draft").expect("draft");
    rename_workspace(STYLE, &mut registry, APP, "draft", "archive", false).expect("renamed");
    assert_eq!(registry.workspaces.get("archive"), Some(&info));
    assert!(!registry.workspaces.contains_key("draft"));
    use_workspace(&mut registry, "archive").expect("used");
    assert_eq!(registry.active, "archive");
    use_workspace(&mut registry, "default").expect("used");
    delete_workspace(&mut registry, "archive", true, true).expect("deleted");
    assert_eq!(registry, fresh_registry(1));
}

#[test]
fn workspace_changes_that_cannot_be_made_are_refused() {
    let mut registry = fresh_registry(1);
    create_workspace_at(&mut registry, "media", Ok(5)).expect("created");
    let kept = |registry: &WorkspaceRegistry| {
        registry.workspaces.len() == 2 && registry.active == "default"
    };
    let text = |r: Result<(), CliError>| r.expect_err("refused").text();
    assert_eq!(
        create_workspace(&mut registry, "media").expect_err("exists").text(),
        "workspace `media` already exists; run `dscan11 workspace use media` to select it"
    );
    assert_eq!(
        create_workspace_at(&mut registry, "new", Err(CliError::Message("clock".to_string())))
            .expect_err("clock")
            .text(),
        "clock"
    );
    assert_eq!(
        use_workspace(&mut registry, "none").expect_err("missing").text(),
        "workspace `none` does not exist; run `dscan11 workspace create none` first"
    );
    assert_eq!(
        text(rename_workspace(STYLE, &mut registry, APP, "media", "media", false)),
        "workspace `media` is already named `media`"
    );
    assert_eq!(
        text(rename_workspace(STYLE, &mut registry, APP, "none", "other", false)),
        "workspace `none` does not exist"
    );
    assert_eq!(
        text(rename_workspace(STYLE, &mut registry, APP, "media", "default", false)),
        "workspace `default` already exists"
    );
    assert_eq!(
        text(rename_workspace(STYLE, &mut registry, APP, "media", "docs", true)),
        r"workspace directory already exists: C:\L\dscan11\workspaces\docs"
    );
    assert_eq!(
        text(delete_workspace(&mut registry, "default", true, false)),
        "cannot delete active workspace `default`; switch workspaces first"
    );
    assert_eq!(
        text(delete_workspace(&mut registry, "none", true, false)),
        "workspace `none` does not exist"
    );
    assert_eq!(
        text(delete_workspace(&mut registry, "media", false, true)),
        "workspace `media` has cache files; rerun with `--force` to delete it"
    );
    assert!(kept(&registry));
    delete_workspace(&mut registry, "media", false, false).expect("deleted");
}

#[test]
fn the_active_workspace_stays_active_when_renamed() {
    let mut registry = fresh_registry(9);
    rename_workspace(STYLE, &mut registry, APP, "default", "main", false).expect("renamed");
    assert_eq!(registry.active, "main");
    rename_workspace(STYLE, &mut registry, APP, "main", "default", false).expect("renamed");
    assert_eq!(registry, fresh_registry(9));
}

#[test]
fn workspaces_keep_independent_scan_caches() {
    let media = workspace_cache_paths(STYLE, APP, "media").expect("media");
    let docs = workspace_cache_paths(STYLE, APP, "docs").expect("docs");
    assert_ne!(media.snapshot_path, docs.snapshot_path);
    assert_eq!(
        media.snapshot_path,
        r"C:\L\dscan11\workspaces\media\snapshot.json"
    );
    assert_eq!(media.config_path, docs.config_path);
    assert_eq!(media.workspace_registry_path, r"C:\L\dscan11\workspaces.json");
    assert!(workspace_cache_paths(STYLE, APP, "..").is_err());
}

#[test]
fn workspace_override_does_not_change_active_workspace() {
    let mut registry = fresh_registry(1);
    create_workspace(&mut registry, "media").expect("created");
    let chosen = cache_paths_for_workspace(STYLE, APP, &mut registry, Some("media")).expect("media");
    assert_eq!(chosen.paths.workspace_name, "media");
    assert!(!chosen.changed);
    let current = current_workspace(STYLE, &registry, APP, false).expect("current");
    assert_eq!(current.name, "default");
    assert!(current.active);
    let active = cache_paths(STYLE, APP, &mut registry).expect("active");
    assert_eq!(active.paths.workspace_name, "default");
    assert_eq!(
        cache_paths_for_workspace(STYLE, APP, &mut registry, Some("none")).err().expect("none").text(),
        "workspace `none` does not exist; run `dscan11 workspace create none` first"
    );
}

#[test]
fn a_missing_active_workspace_is_put_back() {
    let mut registry = fresh_registry(1);
    registry.active = "lost".to_string();
    assert_eq!(
        current_workspace(STYLE, &registry, APP, false).expect_err("missing").text(),
        "active workspace `lost` is missing from the workspace registry"
    );
    let chosen =
        cache_paths_for_workspace_at(STYLE, APP, &mut registry, None, Ok(77)).expect("chosen");
    assert!(chosen.changed);
    assert_eq!(
        registry.workspaces.get("lost"),
        Some(&WorkspaceInfo { created_at_unix: 77 })
    );
}

#[test]
fn workspaces_are_listed_by_name() {
    let mut registry = fresh_registry(3);
    create_workspace_at(&mut registry, "archive", Ok(4)).expect("created");
    let views = list_workspaces(STYLE, &registry, APP, &vec![true, false]);
    assert_eq!(views.len(), 2);
    assert_eq!((views[0].name.as_str(), views[0].active), ("archive", false));
    assert!(views[0].has_snapshot);
    assert_eq!(views[0].cache_dir, r"C:\L\dscan11\workspaces\archive");
    assert_eq!((views[1].name.as_str(), views[1].active), ("default", true));
    assert_eq!(views[1].created_at_unix, 3);
}

#[test]
fn the_registry_is_read_or_made() {
    let made = load_or_init_workspace_registry_at(
        "w.json",
        FileRead::Missing("gone".to_string()),
        Ok(6),
    )
    .ok()
    .expect("made");
    assert!(made.created);
    assert_eq!(made.registry, fresh_registry(6));
    let read = load_or_init_workspace_registry("w.json", FileRead::Parsed(fresh_registry(2)))
        .ok()
        .expect("read");
    assert!(!read.created);
    let text = |read| {
        load_or_init_workspace_registry("w.json", read).err().expect("error").text()
    };
    assert_eq!(
        text(FileRead::Failed("denied".to_string())),
        "failed to read workspace registry w.json: denied"
    );
    assert_eq!(
        text(FileRead::Unparsed("eof".to_string())),
        "failed to parse workspace registry w.json: eof"
    );
    let mut workspaces = NameMap::new();
    workspaces.insert("a/b".to_string(), WorkspaceInfo { created_at_unix: 0 });
    let bad = WorkspaceRegistry { version: 1, active: "default".to_string(), workspaces };
    assert!(text(FileRead::Parsed(bad)).starts_with("invalid workspace name \"a/b\""));
}

#[test]
fn files_live_under_the_local_data() {
    assert_eq!(locate_app_dir(STYLE, Some(r"C:\L"), Some(r"C:\U")).expect("dir"), APP);
    assert_eq!(
        locate_app_dir(STYLE, None, Some(r"C:\U")).expect("dir"),
        r"C:\U\AppData\Local\dscan11"
    );
    assert_eq!(
        locate_app_dir(STYLE, None, None).expect_err("nowhere").text(),
        "unable to locate LOCALAPPDATA or USERPROFILE"
    );
}

#[test]
fn legacy_singleton_cache_is_adopted_as_default_workspace() {
    assert_eq!(legacy_file_names().len(), 4);
    let plan = migrate_legacy_cache(
        STYLE,
        APP,
        &vec![true, false, true, false],
        &vec![false, false, false, true],
    );
    assert_eq!(
        plan.create_dir.as_deref(),
        Some(r"C:\L\dscan11\workspaces\default")
    );
    assert_eq!(
        plan.moves,
        vec![
            (
                r"C:\L\dscan11\snapshot.json".to_string(),
                r"C:\L\dscan11\workspaces\default\snapshot.json".to_string()
            ),
            (
                r"C:\L\dscan11\cleanup-journal.jsonl".to_string(),
                r"C:\L\dscan11\workspaces\default\cleanup-journal.jsonl".to_string()
            ),
        ]
    );
    assert!(plan.refused.is_none());
    let clash = migrate_legacy_cache(
        STYLE,
        APP,
        &vec![true, true, true, false],
        &vec![false, true, false, false],
    );
    assert_eq!(clash.moves.len(), 1);
    assert_eq!(
        clash.refused.expect("refused").text(),
        r"cannot migrate legacy cache because C:\L\dscan11\workspaces\default\base-snapshot.json already exists"
    );
    let none = migrate_legacy_cache(STYLE, APP, &vec![false; 4], &vec![true; 4]);
    assert!(none.create_dir.is_none() && none.moves.is_empty() && none.refused.is_none());
}

#[test]
fn forced_full_scan_resets_active_journals_for_new_base() {
    let paths = workspace_cache_paths(STYLE, APP, "w").expect("paths");
    assert_eq!(
        archive_tracking_files(STYLE, &paths, &vec![true, false, true], 12),
        vec![
            (
                r"C:\L\dscan11\workspaces\w\base-snapshot.json".to_string(),
                r"C:\L\dscan11\workspaces\w\base-snapshot.json.12.archive".to_string()
            ),
            (
                r"C:\L\dscan11\workspaces\w\cache-usage-journal.jsonl".to_string(),
                r"C:\L\dscan11\workspaces\w\cache-usage-journal.jsonl.12.archive".to_string()
            ),
        ]
    );
}

#[test]
fn choosing_a_workspace_keeps_the_others() {
    let mut registry = fresh_registry(5);
    create_workspace_at(&mut registry, "media", Ok(6)).expect("media");
    registry.active = "docs".to_string();
    let chosen = cache_paths(STYLE, APP, &mut registry).expect("chosen");
    assert!(chosen.changed);
    assert_eq!(registry.workspaces.len(), 3);
    assert_eq!(
        registry.workspaces.get("media").copied(),
        Some(WorkspaceInfo { created_at_unix: 6 })
    );
    assert!(registry.workspaces.get("docs").expect("docs").created_at_unix > 6);
    let again = cache_paths(STYLE, APP, &mut registry).expect("again");
    assert!(!again.changed);
    assert_eq!(registry.workspaces.len(), 3);
}

#[test]
fn folders_are_joined_by_the_rules_of_the_system() {
    let dir = locate_app_dir(PathStyle::Unix, Some("/l"), None).expect("dir");
    assert_eq!(dir, "/l/dscan11");
    let paths = workspace_cache_paths(PathStyle::Unix, &dir, "media").expect("paths");
    assert_eq!(paths.snapshot_path, "/l/dscan11/workspaces/media/snapshot.json");
    let dir = locate_app_dir(PathStyle::Windows, Some(r"C:\L"), None).expect("dir");
    assert_eq!(dir, r"C:\L\dscan11");
}
