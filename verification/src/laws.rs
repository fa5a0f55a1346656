//! What the operations are for, stated of their calls: what a result must
//! satisfy for any input, and how two calls relate.
use crate::audit::{
    alert_views, build_audit_report_at, is_growth, is_over, law_what_an_audit_finds,
    law_what_is_found_of_a_project, AlertView, AuditReport, AuditSeverity, RootEntry,
};
use crate::audit_rules::{
    parse_inventory_heading, project_key, validate_audit_rules, AuditProjectRule, AuditRules,
    AuditRulesValidation,
};
use crate::browse::{
    browse_step, category_files, choice_of, drill_down, Screen, ScreenView, Step, StepView,
};
use crate::categories::{
    extension_key, law_folders_decide_last, lies_in, normal_fragment, normalize_extension, CategoryRules,
};
use crate::cli::{
    command_words, globals, is_global, no_globals, parse_cli, scan_words, Cli, CommandView, Globals,
    Request, Words,
};
use crate::clock::{utc_second, TimestampedEvent};
use crate::config::{
    load_base_snapshot, load_or_default_config, load_snapshot, supported_version, AppConfig,
    FileRead,
};
use crate::double::Double;
use crate::error::CliError;
use crate::journal::{
    cache_savings_totals, entries_of, fast_forward_cache, manual_cleanup_totals,
    mark_cached_path_removed_at, path_at, print_cleanup_journal, CacheMode, CacheSavingsTotals, CacheUsageEventKind, CacheUsageJournalEntry,
    CleanupJournalEntry, ManualCleanupTotals, Marked,
};
use crate::navigate::{
    cached_navigation_entry, is_yes, navigation_for_entry, open_plan, parse_one_based_index,
    NavigationPath, OpenPlan,
};
use crate::numbers::{all_digits, decimal, digits_value, parse_usize};
use crate::order::{in_order, Order};
use crate::paths::{components, file_name, is_sep, join, parent, PathStyle};
use crate::plan::{
    audit_plan, scan_plan, scan_top_limit, warn_if_stale, AuditPlan, CachedScan, ScanPlan,
};
use crate::prune::{
    at_or_under, file_is_cached, folder_is_cached, law_removed_file_leaves_the_totals,
    law_removed_folder_leaves_the_totals, lemma_filter_in_order, one_path, prune_cached_entry, rest_of, NavigationTarget,
    PruneResult,
};
use crate::ratio::{filled_cells, format_percent, lowered, quotient, raised, share};
use crate::rescan::{
    confirm_rescan_keypress, confirm_rescan_line, LineReply, PromptInput, PromptStep, RescanPrompt,
};
use crate::roots::{
    cloud_placeholder_attributes, placeholder_size, root_key, root_keys, roots_match,
    total_capacity_for_roots,
};
use crate::scan::{capped_sum, first_entries, should_skip_dir};
use crate::sizes::{
    as_double, human_duration, human_size, nearest, spacing, unit_name, unit_size,
};
use crate::snapshot::{FileRank, FolderRank, SizedEntry, Snapshot, StaleInfo};
use crate::status::{
    cache_lines, cleanup_lines, freshness_lines, inventory_lines, print_status, rules_lines,
    savings_lines, scope_lines, speed_lines, status_at, status_lines, Status,
};
use crate::sums::{lemma_filter, lemma_filter_members};
use crate::table::{label_width, table_width};
use crate::text::{
    has_part, law_case_is_of_letters, law_same_up_to_case, reads_as, texts, trim, trim_back,
    trim_front,
};
use crate::views::{law_rows_are_the_ranks, print_files, print_folders, shows};
use crate::workspace::{
    create_workspace_at, delete_workspace, rename_workspace, use_workspace, valid_name,
    validate_workspace_name, workspace_cache_paths, CachePaths, WorkspaceInfo, WorkspaceRegistry,
};
use vstd::prelude::*;

verus! {

// ---------------------------------------------------------------------------
// Journals
// ---------------------------------------------------------------------------

/// One more record adds one event, its files, its folders and its bytes to the
/// totals of the cleanup journal, and an empty journal adds up to nothing.
pub proof fn law_cleanup_totals_grow_by_a_record(
    entries: Vec<CleanupJournalEntry>,
    longer: Vec<CleanupJournalEntry>,
    record: CleanupJournalEntry,
    before: ManualCleanupTotals,
    after: ManualCleanupTotals,
)
    requires
        longer@ == entries@.push(record),
        call_ensures(manual_cleanup_totals, (&entries,), before),
        call_ensures(manual_cleanup_totals, (&longer,), after),
    ensures
        after.events == before.events + 1,
        after.removed_files == before.removed_files + record.removed_files,
        after.removed_folders == before.removed_folders + record.removed_folders,
        after.bytes == capped_sum(before.bytes, record.bytes),
        after.allocated_bytes == capped_sum(before.allocated_bytes, record.allocated_bytes),
        entries@.len() == 0 ==> before.removed_files == 0 && before.removed_folders == 0
            && before.bytes == 0 && before.allocated_bytes == 0,
{
    assert(longer@.drop_last() == entries@);
    assert(longer@.last() == record);
}

/// One more record of use adds to the savings what a scan of its basis would
/// have walked, where it counts as a readout, and nothing where it does not; it is
/// one more navigation exactly where it records one.
pub proof fn law_savings_grow_by_a_record(
    entries: Vec<CacheUsageJournalEntry>,
    longer: Vec<CacheUsageJournalEntry>,
    record: CacheUsageJournalEntry,
    before: CacheSavingsTotals,
    after: CacheSavingsTotals,
)
    requires
        longer@ == entries@.push(record),
        call_ensures(cache_savings_totals, (&entries,), before),
        call_ensures(cache_savings_totals, (&longer,), after),
    ensures
        ({
            let counts = record.counts_as_readout;
            let once = if counts {
                1int
            } else {
                0int
            };
            let amount = |n: u64|
                if counts {
                    n
                } else {
                    0u64
                };
            &&& after.counted_readouts == before.counted_readouts + once
            &&& after.cache_navigation_count == before.cache_navigation_count + (if record.event
                == CacheUsageEventKind::CacheNavigation {
                1int
            } else {
                0int
            })
            &&& after.estimated_logical_bytes_not_rewalked == capped_sum(
                before.estimated_logical_bytes_not_rewalked,
                amount(record.basis_total_bytes),
            )
            &&& after.estimated_allocated_bytes_not_rewalked == capped_sum(
                before.estimated_allocated_bytes_not_rewalked,
                amount(record.basis_total_allocated_bytes),
            )
            &&& after.estimated_files_not_rechecked == capped_sum(
                before.estimated_files_not_rechecked,
                amount(record.basis_file_count),
            )
            &&& after.estimated_folders_not_rechecked == capped_sum(
                before.estimated_folders_not_rechecked,
                amount(record.basis_folder_count),
            )
            &&& after.estimated_scan_time_saved_ms == capped_sum(
                before.estimated_scan_time_saved_ms,
                amount(record.basis_elapsed_ms),
            )
            &&& entries@.len() == 0 ==> before.counted_readouts == 0
                && before.cache_navigation_count == 0
                && before.estimated_logical_bytes_not_rewalked == 0
                && before.estimated_allocated_bytes_not_rewalked == 0
                && before.estimated_files_not_rechecked == 0
                && before.estimated_folders_not_rechecked == 0
                && before.estimated_scan_time_saved_ms == 0
        }),
{
    assert(longer@.drop_last() == entries@);
    assert(longer@.last() == record);
}

/// Fast-forwarding by a journal with one more record is taking the entry of that
/// record out of what the shorter journal leads to. An empty journal leads to the
/// base. What a scan says of itself stays.
pub proof fn law_fast_forward_goes_record_by_record(
    base: Snapshot,
    journal: Vec<CleanupJournalEntry>,
    longer: Vec<CleanupJournalEntry>,
    record: CleanupJournalEntry,
    target: NavigationTarget,
    before: Snapshot,
    after: Snapshot,
)
    requires
        longer@ == journal@.push(record),
        call_ensures(fast_forward_cache, (base, &journal), before),
        call_ensures(fast_forward_cache, (base, &longer), after),
        target is File <==> record.target_type@ == "file"@,
    ensures
        journal@.len() == 0 ==> before.cache() == base.cache(),
        after.same_scan(&base),
        after.cache() == crate::prune::pruned(before.cache(), target, record.entry),
        target is File && file_is_cached(before.cache(), record.entry.path@)
            ==> after.total_bytes == rest_of(before.total_bytes, record.entry.bytes as int)
            && after.file_count == rest_of(before.file_count, 1),
{
    assert(longer@.drop_last() == journal@);
    assert(longer@.last() == record);
    law_removed_file_leaves_the_totals(before.cache(), record.entry);
}

/// The cached list of files or of folders.
pub open spec fn cached_list(snapshot: Snapshot, target: NavigationTarget) -> Seq<SizedEntry> {
    if target is File {
        snapshot.largest_files@
    } else {
        snapshot.largest_folders@
    }
}

/// The place of the first cached entry of that path.
pub open spec fn first_at(list: Seq<SizedEntry>, path: Seq<char>, i: int) -> bool {
    &&& 0 <= i < list.len()
    &&& one_path(list[i].path@, path)
    &&& forall|k: int| 0 <= k < i ==> !one_path((#[trigger] list[k]).path@, path)
}

proof fn lemma_first_at(list: Seq<SizedEntry>, path: Seq<char>, from: int)
    requires
        0 <= from <= list.len(),
        forall|k: int| 0 <= k < from ==> !one_path((#[trigger] list[k]).path@, path),
    ensures
        ({
            let i = path_at(list, path, from);
            &&& from <= i <= list.len()
            &&& i < list.len() ==> first_at(list, path, i)
            &&& i == list.len() ==> forall|k: int|
                0 <= k < list.len() ==> !one_path((#[trigger] list[k]).path@, path)
        }),
    decreases list.len() - from,
{
    if from < list.len() && !one_path(list[from].path@, path) {
        lemma_first_at(list, path, from + 1);
    }
}

/// Marking a path as removed succeeds exactly where an entry of that kind is
/// cached at the path, the path is known to be gone from disk and the time can be
/// written. Then the first such entry is recorded, and the snapshot is without it:
/// a file takes its bytes and one file off the totals, a folder takes its bytes.
pub proof fn law_marking_removes_what_has_gone(
    snapshot: Snapshot,
    target: NavigationTarget,
    path: &str,
    on_disk: Result<bool, CliError>,
    timestamp: Result<TimestampedEvent, CliError>,
    snapshot_path: &str,
    r: Result<Marked, CliError>,
    i: int,
)
    requires
        call_ensures(
            mark_cached_path_removed_at,
            (snapshot, target, path, on_disk, timestamp, snapshot_path),
            r,
        ),
        snapshot.largest_files@.len() <= usize::MAX,
        snapshot.largest_folders@.len() <= usize::MAX,
    ensures
        ({
            let list = cached_list(snapshot, target);
            &&& first_at(list, path@, i) && on_disk == Ok::<bool, CliError>(false) ==> match timestamp {
                Ok(t) => {
                    &&& r is Ok
                    &&& r->Ok_0.record.entry == list[i]
                    &&& r->Ok_0.record.path == list[i].path
                    &&& r->Ok_0.record.timestamp == t
                    &&& r->Ok_0.report.removed
                    &&& r->Ok_0.snapshot.total_bytes == rest_of(
                        snapshot.total_bytes,
                        list[i].bytes as int,
                    )
                    &&& r->Ok_0.snapshot.total_allocated_bytes == rest_of(
                        snapshot.total_allocated_bytes,
                        list[i].allocated_bytes as int,
                    )
                    &&& target is File ==> r->Ok_0.snapshot.file_count == rest_of(
                        snapshot.file_count,
                        1,
                    )
                },
                Err(cause) => r == Err::<Marked, CliError>(cause),
            }
            &&& r is Ok ==> on_disk == Ok::<bool, CliError>(false) && timestamp is Ok && exists|k: int|
                #[trigger] first_at(list, path@, k)
        }),
{
    let list = cached_list(snapshot, target);
    assert(list == entries_of(snapshot, target));
    lemma_first_at(list, path@, 0);
    let k = path_at(list, path@, 0);
    if r is Ok {
        assert(first_at(list, path@, k));
    }
    if first_at(list, path@, i) {
        if k < i {
            assert(!one_path(list[k].path@, path@));
        }
        if i < k {
            assert(!one_path(list[i].path@, path@));
        }
        assert(k == i);
        let entry = list[i];
        let cache = snapshot.cache();
        match target {
            NavigationTarget::File => {
                assert(one_path(cache.files[i].path@, entry.path@));
                law_removed_file_leaves_the_totals(cache, entry);
            },
            NavigationTarget::Folder => {
                assert(at_or_under(cache.folders[i].path@, entry.path@));
                law_removed_folder_leaves_the_totals(cache, entry);
            },
        }
    }
}

/// Taking a cached file out of a snapshot takes its bytes, its bytes on disk and
/// one file off the totals; of a folder, its bytes and bytes on disk; and leaves
/// nothing of it in the lists.
pub proof fn law_pruning_takes_off_the_totals(
    snapshot: &mut Snapshot,
    target: NavigationTarget,
    entry: &SizedEntry,
    r: PruneResult,
    k: int,
)
    requires
        call_ensures(prune_cached_entry, (snapshot, target, entry), r),
        old(snapshot).largest_files@.len() <= usize::MAX,
        old(snapshot).largest_folders@.len() <= usize::MAX,
        match target {
            NavigationTarget::File => file_is_cached(old(snapshot).cache(), entry.path@),
            NavigationTarget::Folder => folder_is_cached(old(snapshot).cache(), entry.path@),
        },
    ensures
        final(snapshot).total_bytes == rest_of(old(snapshot).total_bytes, entry.bytes as int),
        final(snapshot).total_allocated_bytes == rest_of(
            old(snapshot).total_allocated_bytes,
            entry.allocated_bytes as int,
        ),
        target is File ==> final(snapshot).file_count == rest_of(old(snapshot).file_count, 1),
        0 <= k < final(snapshot).largest_files@.len() ==> match target {
            NavigationTarget::File => !one_path(
                final(snapshot).largest_files@[k].path@,
                entry.path@,
            ),
            NavigationTarget::Folder => !at_or_under(
                final(snapshot).largest_files@[k].path@,
                entry.path@,
            ),
        },
        r.removed_files + r.removed_folders > 0,
{
    let cache = old(snapshot).cache();
    crate::prune::law_pruned_is_gone(cache, target, *entry);
    match target {
        NavigationTarget::File => law_removed_file_leaves_the_totals(cache, *entry),
        NavigationTarget::Folder => law_removed_folder_leaves_the_totals(cache, *entry),
    }
}

// ---------------------------------------------------------------------------
// Age
// ---------------------------------------------------------------------------

/// A snapshot is stale from the second on at which so many whole days have gone
/// by since its scan, and never where the threshold is zero; its age is the whole
/// days that have gone by, none where the clock stands before the scan.
pub proof fn law_stale_after_so_many_days(snapshot: &Snapshot, now: u64, days: u64, r: StaleInfo)
    requires
        call_ensures(Snapshot::stale_info_at, (snapshot, now, days), r),
    ensures
        r.is_stale <==> days > 0 && now >= snapshot.scanned_at_unix + days * 86_400,
        r.stale_after_days == days,
        now >= snapshot.scanned_at_unix ==> r.age_days * 86_400 <= now - snapshot.scanned_at_unix < (
        r.age_days + 1) * 86_400,
        now < snapshot.scanned_at_unix ==> r.age_days == 0,
{
}

// ---------------------------------------------------------------------------
// Scanning and classifying
// ---------------------------------------------------------------------------

/// A folder is skipped exactly where it is not the root and its last name is one
/// of the configured names, up to the case of ASCII letters.
pub proof fn law_skipped_by_its_whole_name(
    style: PathStyle,
    path: &str,
    root: &str,
    skip_names: &Vec<String>,
    r: bool,
)
    requires
        call_ensures(should_skip_dir, (style, path, root, skip_names), r),
    ensures
        r <==> components(style, path@) != components(style, root@) && file_name(style, path@)
            is Some && exists|i: int|
            0 <= i < skip_names@.len() && reads_as(
                (#[trigger] skip_names@[i])@,
                file_name(style, path@)->0,
            ),
{
    if let Some(name) = file_name(style, path@) {
        let names = texts(skip_names@);
        assert forall|i: int| 0 <= i < names.len() implies (crate::text::same_fold(
            #[trigger] names[i],
            name,
        ) <==> reads_as(skip_names@[i]@, name)) by {
            law_same_up_to_case(names[i], name);
        }
        if exists|i: int| 0 <= i < skip_names@.len() && reads_as((#[trigger] skip_names@[i])@, name) {
            let i = choose|i: int|
                0 <= i < skip_names@.len() && reads_as((#[trigger] skip_names@[i])@, name);
            assert(crate::text::same_fold(names[i], name));
        }
    }
}

/// A file that no path rule and no extension claims is classified by the folders
/// it lies in.
pub proof fn law_classified_by_its_folders(
    rules: &CategoryRules,
    style: PathStyle,
    path: &str,
    r: String,
)
    requires
        call_ensures(CategoryRules::classify_in, (rules, style, path), r),
        forall|i: int|
            0 <= i < rules.paths().len() ==> !has_part(
                normal_fragment(path@),
                (#[trigger] rules.paths()[i]).0,
            ),
        !rules.extensions().contains_key(extension_key(style, path@)),
    ensures
        ({
            let code = lies_in(style, path@, "node_modules"@) || lies_in(style, path@, "target"@)
                || lies_in(style, path@, ".git"@);
            let temporary = lies_in(style, path@, "Temp"@) || lies_in(style, path@, "Cache"@)
                || lies_in(style, path@, ".cache"@);
            let cloud = lies_in(style, path@, "OneDrive"@);
            &&& code ==> r@ == "Developer / Code"@
            &&& !code && temporary ==> r@ == "Temporary / Cache"@
            &&& !code && !temporary && cloud ==> r@ == "Cloud / OneDrive"@
            &&& !code && !temporary && !cloud <==> r@ == "Other"@
        }),
{
    law_folders_decide_last(style, rules.paths(), rules.extensions(), path@);
}

/// A file that a path rule claims has the category of the first rule that does;
/// one that none claims, and whose extension is listed, that of its extension.
pub proof fn law_classified_by_its_rule(
    rules: &CategoryRules,
    style: PathStyle,
    path: &str,
    r: String,
    i: int,
)
    requires
        call_ensures(CategoryRules::classify_in, (rules, style, path), r),
    ensures
        0 <= i < rules.paths().len() && has_part(normal_fragment(path@), rules.paths()[i].0)
            && (forall|j: int|
            0 <= j < i ==> !has_part(normal_fragment(path@), (#[trigger] rules.paths()[j]).0))
            ==> r@ == rules.paths()[i].1,
        (forall|j: int|
            0 <= j < rules.paths().len() ==> !has_part(
                normal_fragment(path@),
                (#[trigger] rules.paths()[j]).0,
            )) && rules.extensions().contains_key(extension_key(style, path@)) ==> r@
            == rules.extensions()[extension_key(style, path@)],
{
    crate::categories::law_priority(style, rules.paths(), rules.extensions(), path@);
}

// ---------------------------------------------------------------------------
// Views
// ---------------------------------------------------------------------------

/// Row `n` of the printed files is the `n`th cached file, and row `n` of the
/// printed folders the `n`th cached folder; there is a row for each up to the
/// limit.
pub proof fn law_printed_rows_are_the_ranks(
    snapshot: &Snapshot,
    limit: usize,
    columns: Option<&str>,
    files: Vec<String>,
    folders: Vec<String>,
    n: int,
)
    requires
        call_ensures(print_files, (snapshot, limit, columns), files),
        call_ensures(print_folders, (snapshot, limit, columns), folders),
        1 <= n <= limit,
    ensures
        ({
            let width = label_width(table_width(crate::table::opt_str(columns)), false);
            let list = snapshot.largest_files@;
            n <= list.len() ==> files@.len() == 2 + vstd::math::min(
                list.len() as int,
                limit as int,
            ) && shows(
                files@[n + 1]@,
                decimal(n as nat) + ". "@ + list[n - 1].path@,
                list[n - 1].bytes,
                list[n - 1].allocated_bytes,
                width,
            )
        }),
        ({
            let width = label_width(table_width(crate::table::opt_str(columns)), false);
            let list = snapshot.largest_folders@;
            n <= list.len() ==> folders@.len() == 2 + vstd::math::min(
                list.len() as int,
                limit as int,
            ) && shows(
                folders@[n + 1]@,
                decimal(n as nat) + ". "@ + list[n - 1].path@,
                list[n - 1].bytes,
                list[n - 1].allocated_bytes,
                width,
            )
        }),
{
    let shown = crate::table::opt_str(columns);
    law_rows_are_the_ranks(*snapshot, limit as nat, shown, n, n);
    assert(texts(files@).len() == files@.len());
    assert(texts(folders@).len() == folders@.len());
    if n <= snapshot.largest_files@.len() {
        assert(texts(files@)[n + 1] == files@[n + 1]@);
    }
    if n <= snapshot.largest_folders@.len() {
        assert(texts(folders@)[n + 1] == folders@[n + 1]@);
    }
}

// ---------------------------------------------------------------------------
// Audits
// ---------------------------------------------------------------------------

/// An audit reports of a project that it is over its size exactly where its size
/// is known and more than the most that is allowed: the project's own limit where
/// it states one, whatever the default, and the default where it states none.
pub proof fn law_audited_by_its_own_limit(
    style: PathStyle,
    workspace: &str,
    snapshot: &Snapshot,
    previous: Option<&Snapshot>,
    rules: &AuditRules,
    entries: Result<Vec<RootEntry>, CliError>,
    limit: usize,
    reused: bool,
    now: u64,
    report: AuditReport,
    a: AlertView,
    i: int,
)
    requires
        call_ensures(
            build_audit_report_at,
            (style, workspace, snapshot, previous, rules, entries, limit, reused, now),
            Ok(report),
        ),
        0 <= i < rules.projects@.len(),
    ensures
        ({
            let root = snapshot.roots@[0]@;
            let folders = snapshot.largest_folders@;
            let project = rules.projects@[i];
            let path = join(style, root, project.path@);
            &&& is_over(
                a,
                folders,
                path,
                project.max_size_mb,
                rules.default_thresholds.max_size_mb,
                "project_size"@,
                "Project"@,
            ) ==> alert_views(report.alerts@).contains(a)
            &&& is_over(
                a,
                folders,
                join(style, path, ".git"@),
                project.max_git_size_mb,
                rules.default_thresholds.max_git_size_mb,
                "git_size"@,
                ".git"@,
            ) ==> alert_views(report.alerts@).contains(a)
            &&& previous is Some && is_growth(
                style,
                a,
                root,
                project,
                *rules,
                folders,
                previous->0.largest_folders@,
            ) ==> alert_views(report.alerts@).contains(a)
        }),
        a.rule_id == "project_size"@ && alert_views(report.alerts@).contains(a) ==> exists|k: int|
            0 <= k < rules.projects@.len() && is_over(
                a,
                snapshot.largest_folders@,
                join(style, snapshot.roots@[0]@, (#[trigger] rules.projects@[k]).path@),
                rules.projects@[k].max_size_mb,
                rules.default_thresholds.max_size_mb,
                "project_size"@,
                "Project"@,
            ),
{
    let root = snapshot.roots@[0]@;
    let folders = snapshot.largest_folders@;
    let listed = crate::audit::listed_entries(entries);
    law_what_an_audit_finds(
        style,
        report,
        workspace@,
        *snapshot,
        match previous {
            Some(p) => Some(*p),
            None => None,
        },
        *rules,
        listed,
        limit as nat,
        reused,
        now,
        a,
    );
    law_what_is_found_of_a_project(style, root, rules.projects@[i], *rules, folders, a);
    reveal_strlit("project_size");
    reveal_strlit("git_size");
    reveal_strlit("generated_output");
    reveal_strlit("project_growth");
    reveal_strlit("unknown_top_level_folder");
    assert("project_size"@.len() == 12);
    assert("git_size"@.len() == 8);
    assert("generated_output"@.len() == 16);
    assert("project_growth"@.len() == 14);
    assert("unknown_top_level_folder"@.len() == 24);
    if a.rule_id == "project_size"@ && alert_views(report.alerts@).contains(a) {
        let k = choose|k: int|
            0 <= k < rules.projects@.len() && crate::audit::project_alerts(
                style,
                root,
                #[trigger] rules.projects@[k],
                *rules,
                folders,
            ).contains(a);
        law_what_is_found_of_a_project(style, root, rules.projects@[k], *rules, folders, a);
    }
}

// ---------------------------------------------------------------------------
// Plans
// ---------------------------------------------------------------------------

/// A scan is made exactly where nothing is cached, or where the cached scan is of
/// the same roots and is stale or overruled; other roots are never scanned; a
/// fresh scan of the same roots is served, or asked about where someone can
/// answer.
pub proof fn law_when_a_scan_is_made(
    force: bool,
    cached: Option<CachedScan>,
    interactive: bool,
    r: ScanPlan,
)
    requires
        call_ensures(scan_plan, (force, cached, interactive), r),
    ensures
        r == ScanPlan::Scan <==> (cached matches Some(c) ==> c.same_roots && (force || c.stale)),
        r == ScanPlan::Refuse <==> !interactive && cached is Some && !cached->0.same_roots,
        r == ScanPlan::Suggest <==> interactive && cached is Some && !cached->0.same_roots,
        r == ScanPlan::AskFirst <==> interactive && cached is Some && cached->0.same_roots
            && !cached->0.stale && !force,
        r == ScanPlan::ServeCached <==> !interactive && cached is Some && cached->0.same_roots
            && !cached->0.stale && !force,
{
}

/// An audit takes the cached scan exactly where it is fresh and of the same
/// roots, never scans other roots into a workspace, and scans else.
pub proof fn law_when_an_audit_scans(cached: Option<CachedScan>, r: AuditPlan)
    requires
        call_ensures(audit_plan, (cached,), r),
    ensures
        r == AuditPlan::Reuse <==> cached is Some && cached->0.same_roots && !cached->0.stale,
        r == AuditPlan::Refuse <==> cached is Some && !cached->0.same_roots,
        r == AuditPlan::Scan <==> cached is None || (cached->0.same_roots && cached->0.stale),
{
}

/// What is asked for overrules what is configured, and a scan keeps at least one
/// entry.
pub proof fn law_asked_for_overrules_configured(
    top: Option<usize>,
    configured: usize,
    r: usize,
    other: usize,
    same: usize,
)
    requires
        call_ensures(scan_top_limit, (top, configured), r),
        call_ensures(scan_top_limit, (top, other), same),
    ensures
        r >= 1,
        top is Some ==> r == same && (top->0 >= 1 ==> r == top->0),
        top is None && configured >= 1 ==> r == configured,
{
}

/// A warning is given exactly of a stale scan, unless it is to be silent.
pub proof fn law_stale_scans_are_warned_of(info: &StaleInfo, silent: bool, r: Option<String>)
    requires
        call_ensures(warn_if_stale, (info, silent), r),
    ensures
        r is Some <==> info.is_stale && !silent,
{
}

// ---------------------------------------------------------------------------
// Workspaces
// ---------------------------------------------------------------------------

/// A letter, a digit, a dot, a dash or an underscore.
pub open spec fn plain(c: char) -> bool {
    ||| 'a' <= c && c <= 'z'
    ||| 'A' <= c && c <= 'Z'
    ||| '0' <= c && c <= '9'
    ||| c == '.'
    ||| c == '-'
    ||| c == '_'
}

/// A name is accepted exactly where it holds something, nothing but letters,
/// digits, dots, dashes and underscores, and is neither one dot nor two.
pub proof fn law_accepted_names(name: &str, r: Result<(), CliError>)
    requires
        call_ensures(validate_workspace_name, (name,), r),
    ensures
        r is Ok <==> name@.len() > 0 && (forall|i: int|
            0 <= i < name@.len() ==> plain(#[trigger] name@[i])) && !(name@.len() == 1 && name@[0]
            == '.') && !(name@.len() == 2 && name@[0] == '.' && name@[1] == '.'),
{
    reveal_strlit(".");
    reveal_strlit("..");
    if name@.len() == 1 && name@[0] == '.' {
        assert(name@ =~= "."@);
    }
    if name@.len() == 2 && name@[0] == '.' && name@[1] == '.' {
        assert(name@ =~= ".."@);
    }
    assert forall|i: int| 0 <= i < name@.len() implies plain(#[trigger] name@[i])
        == crate::workspace::portable(name@[i]) by {}
}

/// Creating a workspace succeeds exactly where its name is accepted, new, and the
/// time is known; then it is known with that time, and nothing else has changed.
pub proof fn law_created_is_known(
    registry: &mut WorkspaceRegistry,
    name: &str,
    now: Result<u64, CliError>,
    r: Result<WorkspaceInfo, CliError>,
    other: Seq<char>,
)
    requires
        call_ensures(create_workspace_at, (registry, name, now), r),
    ensures
        r is Ok <==> valid_name(name@) && !old(registry).known().contains_key(name@) && now is Ok,
        r is Ok ==> {
            &&& final(registry).known().contains_key(name@)
            &&& final(registry).known()[name@].created_at_unix == now->Ok_0
        },
        other != name@ || r is Err ==> {
            &&& final(registry).known().contains_key(other) <==> old(
                registry,
            ).known().contains_key(other)
            &&& old(registry).known().contains_key(other) ==> final(registry).known()[other]
                == old(registry).known()[other]
        },
        final(registry).active@ == old(registry).active@,
{
}

/// Using a workspace succeeds exactly where it is known; then it is the active
/// one, and all that were known still are.
pub proof fn law_used_is_active(
    registry: &mut WorkspaceRegistry,
    name: &str,
    r: Result<WorkspaceInfo, CliError>,
)
    requires
        call_ensures(use_workspace, (registry, name), r),
    ensures
        r is Ok <==> valid_name(name@) && old(registry).known().contains_key(name@),
        final(registry).active@ == if r is Ok {
            name@
        } else {
            old(registry).active@
        },
        final(registry).known() == old(registry).known(),
{
}

/// Renaming succeeds exactly where the names are accepted and differ, the old one
/// is known, the new one is not, and no folder is in the way. Then what was known
/// under the old name is known under the new one and the old one is gone; an
/// active workspace stays active; all others are as they were.
pub proof fn law_renamed_keeps_what_it_was(
    style: PathStyle,
    registry: &mut WorkspaceRegistry,
    app_dir: &str,
    old_name: &str,
    new_name: &str,
    taken: bool,
    r: Result<(), CliError>,
    other: Seq<char>,
)
    requires
        call_ensures(
            rename_workspace,
            (style, registry, app_dir, old_name, new_name, taken),
            r,
        ),
    ensures
        r is Ok <==> valid_name(old_name@) && valid_name(new_name@) && old_name@ != new_name@
            && old(registry).known().contains_key(old_name@) && !old(
            registry,
        ).known().contains_key(new_name@) && !taken,
        r is Ok ==> {
            &&& final(registry).known().contains_key(new_name@)
            &&& final(registry).known()[new_name@] == old(registry).known()[old_name@]
            &&& !final(registry).known().contains_key(old_name@)
            &&& old(registry).active@ == old_name@ ==> final(registry).active@ == new_name@
            &&& old(registry).active@ != old_name@ ==> final(registry).active@ == old(
                registry,
            ).active@
        },
        r is Err ==> *final(registry) == *old(registry),
        other != old_name@ && other != new_name@ ==> {
            &&& final(registry).known().contains_key(other) <==> old(
                registry,
            ).known().contains_key(other)
            &&& old(registry).known().contains_key(other) ==> final(registry).known()[other]
                == old(registry).known()[other]
        },
{
}

/// Deleting succeeds exactly for a known workspace that is not active and has no
/// files, or is deleted by force. Then it is gone, and all others are as they
/// were.
pub proof fn law_deleted_is_gone(
    registry: &mut WorkspaceRegistry,
    name: &str,
    force: bool,
    full: bool,
    r: Result<(), CliError>,
    other: Seq<char>,
)
    requires
        call_ensures(delete_workspace, (registry, name, force, full), r),
    ensures
        r is Ok <==> valid_name(name@) && old(registry).active@ != name@ && old(
            registry,
        ).known().contains_key(name@) && (force || !full),
        r is Ok ==> !final(registry).known().contains_key(name@),
        r is Err ==> *final(registry) == *old(registry),
        other != name@ ==> {
            &&& final(registry).known().contains_key(other) <==> old(
                registry,
            ).known().contains_key(other)
            &&& old(registry).known().contains_key(other) ==> final(registry).known()[other]
                == old(registry).known()[other]
        },
        final(registry).active@ == old(registry).active@,
{
}

/// Two workspaces of one install keep their snapshots and journals in different
/// folders, and share the settings.
pub proof fn law_workspaces_do_not_share_files(
    style: PathStyle,
    app_dir: &str,
    a: &str,
    b: &str,
    first: CachePaths,
    second: CachePaths,
)
    requires
        call_ensures(workspace_cache_paths, (style, app_dir, a), Ok(first)),
        call_ensures(workspace_cache_paths, (style, app_dir, b), Ok(second)),
        a@ != b@,
    ensures
        first.base_dir@ != second.base_dir@,
        first.snapshot_path@ == join(style, first.base_dir@, "snapshot.json"@),
        first.base_snapshot_path@ == join(style, first.base_dir@, "base-snapshot.json"@),
        first.cleanup_journal_path@ == join(style, first.base_dir@, "cleanup-journal.jsonl"@),
        first.cache_usage_journal_path@ == join(
            style,
            first.base_dir@,
            "cache-usage-journal.jsonl"@,
        ),
        first.config_path@ == second.config_path@,
        first.category_config_path@ == second.category_config_path@,
        first.workspace_registry_path@ == second.workspace_registry_path@,
        first.config_path@ == join(style, app_dir@, "config.json"@),
        first.category_config_path@ == join(style, app_dir@, "categories.json"@),
{
    crate::workspace::law_workspaces_are_separate(style, app_dir@, a@, b@);
}

// ---------------------------------------------------------------------------
// Numbers and ranks
// ---------------------------------------------------------------------------

/// A number in decimal is read back.
pub proof fn lemma_decimal(n: nat)
    ensures
        decimal(n).len() > 0,
        all_digits(decimal(n)),
        digits_value(decimal(n)) == n,
    decreases n,
{
    if n >= 10 {
        let init = decimal(n / 10);
        lemma_decimal(n / 10);
        let last = crate::numbers::digit((n % 10) as int);
        assert(last as u32 == '0' as u32 + n % 10);
        assert(decimal(n).drop_last() == init);
        assert(decimal(n).last() == last);
        assert forall|i: int| 0 <= i < decimal(n).len() implies crate::numbers::is_digit(
            #[trigger] decimal(n)[i],
        ) by {
            if i < init.len() {
                assert(decimal(n)[i] == init[i]);
            }
        }
    } else {
        assert(decimal(n).drop_last() =~= Seq::<char>::empty());
        assert(decimal(n).last() as u32 == '0' as u32 + n);
        assert(digits_value(Seq::<char>::empty()) == 0);
    }
}

/// A number that is written is read back as itself, and two numbers are never
/// written alike.
pub proof fn law_numbers_read_back(n: nat, m: nat, text: &str, r: Option<usize>)
    requires
        call_ensures(parse_usize, (text,), r),
    ensures
        text@ == decimal(n) && n <= usize::MAX ==> r == Some(n as usize),
        decimal(n) == decimal(m) ==> n == m,
{
    lemma_decimal(n);
    lemma_decimal(m);
    let d = decimal(n);
    assert(crate::numbers::is_digit(d[0]));
}

/// The number of a row opens the entry of that row: rank `n` leads to the `n`th
/// cached entry, and exactly the ranks that are shown lead anywhere.
pub proof fn law_rank_opens_its_row(
    snapshot: &Snapshot,
    target: NavigationTarget,
    n: usize,
    limit: usize,
    r: Result<SizedEntry, CliError>,
)
    requires
        call_ensures(cached_navigation_entry, (snapshot, target, n, limit), r),
    ensures
        ({
            let list = cached_list(*snapshot, target);
            &&& r is Ok <==> 1 <= n <= limit && n <= list.len()
            &&& r is Ok ==> r->Ok_0 == list[n - 1]
        }),
{
}

/// A typed number picks the choice of that number, and nothing else picks one.
pub proof fn law_typed_number_picks(value: &str, len: usize, n: nat, r: Result<usize, CliError>)
    requires
        call_ensures(parse_one_based_index, (value, len), r),
    ensures
        value@ == decimal(n) && 1 <= n <= len ==> r == Ok::<usize, CliError>((n - 1) as usize),
        value@ == decimal(n) && (n == 0 || n > len) ==> r is Err,
        r is Ok ==> r->Ok_0 < len,
{
    lemma_decimal(n);
    assert(crate::numbers::is_digit(decimal(n)[0]));
}

/// An answer is a yes exactly where it reads `y` or `yes`, in any case.
pub proof fn law_yes(answer: &str, r: bool)
    requires
        call_ensures(is_yes, (answer,), r),
    ensures
        r <==> reads_as(answer@, "y"@) || reads_as(answer@, "yes"@),
{
    law_same_up_to_case(answer@, "y"@);
    law_same_up_to_case(answer@, "yes"@);
    reveal_strlit("y");
    reveal_strlit("yes");
    assert(crate::text::lower("y"@) =~= "y"@);
    assert(crate::text::lower("yes"@) =~= "yes"@);
}

/// An entry that is there is opened at its own path, a file selected; a file that
/// has gone leads to its folder; what has gone with its folder leads nowhere.
pub proof fn law_where_an_entry_leads(
    style: PathStyle,
    entry: &SizedEntry,
    target: NavigationTarget,
    found: bool,
    parent_found: bool,
    r: Result<NavigationPath, CliError>,
)
    requires
        call_ensures(navigation_for_entry, (style, entry, target, found, parent_found), r),
    ensures
        r is Ok <==> match target {
            NavigationTarget::File => parent(style, entry.path@) is Some && (found || parent_found),
            NavigationTarget::Folder => found,
        },
        r is Ok && found ==> r->Ok_0.path@ == entry.path@ && r->Ok_0.select_file == (target
            is File),
        r is Ok && !found ==> Some(r->Ok_0.path@) == parent(style, entry.path@)
            && !r->Ok_0.select_file,
{
}

/// A missing entry is offered for removal exactly where someone can answer, and
/// the file browser is opened exactly where there is a place to open.
pub proof fn law_what_opening_amounts_to(
    navigable: bool,
    found: bool,
    interactive: bool,
    r: OpenPlan,
)
    requires
        call_ensures(open_plan, (navigable, found, interactive), r),
    ensures
        r == OpenPlan::OfferThenLaunch || r == OpenPlan::Offer <==> interactive && !found,
        r == OpenPlan::OfferThenLaunch || r == OpenPlan::Launch <==> navigable,
{
}

// ---------------------------------------------------------------------------
// Roots and volumes
// ---------------------------------------------------------------------------

/// Two roots are the same, up to slashes at the end and to case.
pub open spec fn one_root(a: Seq<char>, b: Seq<char>) -> bool {
    reads_as(trim_back(a, |c: char| is_sep(c)), trim_back(b, |c: char| is_sep(c)))
}

/// The root is one of the list.
pub open spec fn root_among(root: Seq<char>, list: Seq<Seq<char>>) -> bool {
    exists|j: int| 0 <= j < list.len() && one_root(root, #[trigger] list[j])
}

proof fn lemma_root_among(root: Seq<char>, list: Seq<Seq<char>>)
    ensures
        root_among(root, list) <==> root_keys(list).contains(root_key(root)),
{
    let kind = |c: char| is_sep(c);
    assert forall|j: int| 0 <= j < list.len() implies (one_root(root, #[trigger] list[j])
        <==> root_key(root) == root_key(list[j])) by {
        law_same_up_to_case(trim_back(root, kind), trim_back(list[j], kind));
    }
}

/// The roots match exactly where there are as many, each requested one is cached
/// and each cached one requested.
pub proof fn law_matching_roots(requested: &Vec<String>, cached: &Vec<String>, r: bool)
    requires
        call_ensures(roots_match, (requested, cached), r),
    ensures
        r <==> requested@.len() == cached@.len() && (forall|i: int|
            0 <= i < requested@.len() ==> root_among(
                #[trigger] texts(requested@)[i],
                texts(cached@),
            )) && (forall|j: int|
            0 <= j < cached@.len() ==> root_among(
                #[trigger] texts(cached@)[j],
                texts(requested@),
            )),
{
    let a = texts(requested@);
    let b = texts(cached@);
    let (x, y) = (root_keys(a), root_keys(b));
    assert(a.len() == requested@.len() && b.len() == cached@.len());
    assert forall|i: int| 0 <= i < a.len() implies (root_among(#[trigger] a[i], b) <==> y.contains(
        root_key(a[i]),
    )) by {
        lemma_root_among(a[i], b);
    }
    assert forall|j: int| 0 <= j < b.len() implies (root_among(#[trigger] b[j], a) <==> x.contains(
        root_key(b[j]),
    )) by {
        lemma_root_among(b[j], a);
    }
    if r {
        assert forall|i: int| 0 <= i < a.len() implies root_among(#[trigger] a[i], b) by {
            assert(x.contains(root_key(a[i])));
        }
        assert forall|j: int| 0 <= j < b.len() implies root_among(#[trigger] b[j], a) by {
            assert(y.contains(root_key(b[j])));
        }
    } else if a.len() == b.len() && (forall|i: int|
        0 <= i < a.len() ==> root_among(#[trigger] a[i], b)) && (forall|j: int|
        0 <= j < b.len() ==> root_among(#[trigger] b[j], a)) {
        assert forall|k: Seq<char>| x.contains(k) implies y.contains(k) by {
            let i = choose|i: int| 0 <= i < a.len() && k == root_key(#[trigger] a[i]);
            assert(root_among(a[i], b));
        }
        assert forall|k: Seq<char>| y.contains(k) implies x.contains(k) by {
            let j = choose|j: int| 0 <= j < b.len() && k == root_key(#[trigger] b[j]);
            assert(root_among(b[j], a));
        }
        assert(x =~= y);
    }
}

/// The name of a volume that is known.
pub open spec fn volume_name(volume: Option<(String, u64)>) -> Seq<char> {
    match volume {
        Some((name, _)) => name@,
        None => Seq::empty(),
    }
}

/// What a volume that is known holds.
pub open spec fn volume_size(volume: Option<(String, u64)>) -> u64 {
    match volume {
        Some((_, size)) => size,
        None => 0,
    }
}

/// One more volume adds what it holds where it is new, and nothing where it was
/// counted before or is unknown; no volumes hold nothing that is known.
pub proof fn law_each_volume_counts_once(
    volumes: Vec<Option<(String, u64)>>,
    longer: Vec<Option<(String, u64)>>,
    volume: Option<(String, u64)>,
    before: Option<u64>,
    after: Option<u64>,
)
    requires
        longer@ == volumes@.push(volume),
        call_ensures(total_capacity_for_roots, (&volumes,), before),
        call_ensures(total_capacity_for_roots, (&longer,), after),
    ensures
        ({
            let counted = volume is Some && exists|i: int|
                0 <= i < volumes@.len() && (#[trigger] volumes@[i]) is Some
                    && volume_name(volumes@[i]) == volume_name(volume);
            &&& volumes@.len() == 0 ==> before is None
            &&& volume is None || counted ==> after == before
            &&& volume is Some && !counted ==> after is Some && after->0 == capped_sum(
                match before {
                    Some(n) => n,
                    None => 0,
                },
                volume_size(volume),
            )
        }),
{
    let list = crate::roots::volume_views(volumes@);
    let long = crate::roots::volume_views(longer@);
    assert(long.drop_last() =~= list);
    if let Some((name, size)) = volume {
        assert(long.last() == Some((name@, size)));
        if crate::roots::seen(list, name@) {
            let i = choose|i: int|
                0 <= i < list.len() && (#[trigger] list[i] matches Some((n, _)) && n == name@);
            assert(volumes@[i] is Some && volume_name(volumes@[i]) == name@);
        }
        if exists|i: int|
            0 <= i < volumes@.len() && (#[trigger] volumes@[i]) is Some && volume_name(volumes@[i])
                == name@ {
            let i = choose|i: int|
                0 <= i < volumes@.len() && (#[trigger] volumes@[i]) is Some && volume_name(volumes@[i])
                    == name@;
            assert((list[i] matches Some((n, _)) && n == name@));
        }
    } else {
        assert(long.last() is None);
    }
}

/// A file is a placeholder exactly where one of the three attributes is set, and
/// then takes nothing on disk.
pub proof fn law_placeholders_take_nothing(attributes: u32, r: bool, size: Option<u64>)
    requires
        call_ensures(cloud_placeholder_attributes, (attributes,), r),
        call_ensures(placeholder_size, (attributes,), size),
    ensures
        r <==> attributes & 0x1000 != 0 || attributes & 0x4_0000 != 0 || attributes & 0x40_0000
            != 0,
        size == Some(0u64) <==> r && attributes != u32::MAX,
        size is None <==> !(r && attributes != u32::MAX),
{
    assert(attributes & 0x0044_1000 != 0 <==> attributes & 0x1000 != 0 || attributes & 0x4_0000 != 0
        || attributes & 0x40_0000 != 0) by (bit_vector);
}

// ---------------------------------------------------------------------------
// The question before a rescan
// ---------------------------------------------------------------------------

/// A key answers exactly where it is `y`, `n` or escape, in any case; nothing but
/// a key answers; and the question ends by itself exactly when five seconds have
/// passed.
pub proof fn law_what_answers_the_question(
    prompt: &mut RescanPrompt,
    input: PromptInput,
    r: PromptStep,
)
    requires
        call_ensures(confirm_rescan_keypress, (prompt, input), r),
    ensures
        r == PromptStep::Answered(true) <==> input == PromptInput::Key(Some('y')) || input
            == PromptInput::Key(Some('Y')),
        r == PromptStep::Answered(false) <==> input == PromptInput::Key(Some('n')) || input
            == PromptInput::Key(Some('N')) || input == PromptInput::Key(Some('\u{1b}')),
        r is AutoSkip <==> (input matches PromptInput::Clock { elapsed_nanos } && elapsed_nanos
            >= 5_000_000_000),
        r is AskLine <==> input is WaitFailed,
        r is WrongKey ==> !old(prompt).invalid_key && final(prompt).invalid_key,
{
    if let PromptInput::Key(Some(c)) = input {
        law_case_is_of_letters(c, 'y');
        law_case_is_of_letters(c, 'n');
    }
}

/// A line is a yes exactly where it reads `y` or `yes`, in any case and with any
/// white space around it; silence is a no.
pub proof fn law_what_a_line_answers(reply: LineReply, r: Result<bool, CliError>)
    requires
        call_ensures(confirm_rescan_line, (reply,), r),
    ensures
        r == Ok::<bool, CliError>(true) <==> (reply matches LineReply::Line(line) && (reads_as(
            trim(line@),
            "y"@,
        ) || reads_as(trim(line@), "yes"@))),
        r is Err <==> reply is Failed,
{
    if let LineReply::Line(line) = reply {
        law_same_up_to_case(trim(line@), "y"@);
        law_same_up_to_case(trim(line@), "yes"@);
        reveal_strlit("y");
        reveal_strlit("yes");
        assert(crate::text::lower("y"@) =~= "y"@);
        assert(crate::text::lower("yes"@) =~= "yes"@);
    }
}

// ---------------------------------------------------------------------------
// Browsing
// ---------------------------------------------------------------------------

proof fn lemma_first(list: Seq<SizedEntry>, limit: nat, x: SizedEntry)
    ensures
        first_entries(list, limit).len() == vstd::math::min(list.len() as int, limit as int),
        first_entries(list, limit).contains(x) ==> list.contains(x),
        list.len() <= limit ==> first_entries(list, limit) == list,
        forall|i: int|
            0 <= i < first_entries(list, limit).len() ==> first_entries(list, limit)[i]
                == #[trigger] list[i],
{
    let shown = first_entries(list, limit);
    if shown.contains(x) {
        let i = choose|i: int| 0 <= i < shown.len() && shown[i] == x;
        assert(list[i] == x);
    }
}

/// Drilling into a folder shows only what is cached below it, the folder itself
/// left out, at most so many files and folders; where fewer are shown than may be,
/// everything that is cached below it is shown. The order is that of the cache.
pub proof fn law_drilling_shows_what_lies_below(
    snapshot: &Snapshot,
    folder: &str,
    limit: usize,
    files: Vec<SizedEntry>,
    folders: Vec<SizedEntry>,
    x: SizedEntry,
)
    requires
        call_ensures(drill_down, (snapshot, folder, limit), (files, folders)),
    ensures
        files@.len() <= limit,
        folders@.len() <= limit,
        files@.contains(x) ==> snapshot.largest_files@.contains(x) && at_or_under(x.path@, folder@),
        folders@.contains(x) ==> snapshot.largest_folders@.contains(x) && at_or_under(
            x.path@,
            folder@,
        ) && x.path@ != folder@,
        files@.len() < limit && snapshot.largest_files@.contains(x) && at_or_under(x.path@, folder@)
            ==> files@.contains(x),
        folders@.len() < limit && snapshot.largest_folders@.contains(x) && at_or_under(
            x.path@,
            folder@,
        ) && x.path@ != folder@ ==> folders@.contains(x),
        in_order::<SizedEntry, FileRank>(snapshot.largest_files@) ==> in_order::<
            SizedEntry,
            FileRank,
        >(files@),
        in_order::<SizedEntry, FolderRank>(snapshot.largest_folders@) ==> in_order::<
            SizedEntry,
            FolderRank,
        >(folders@),
{
    let below = |e: SizedEntry| at_or_under(e.path@, folder@);
    let inner = |e: SizedEntry| e.path@ != folder@ && at_or_under(e.path@, folder@);
    lemma_filter_members(snapshot.largest_files@, below, x);
    lemma_filter_members(snapshot.largest_folders@, inner, x);
    let a = crate::prune::inside(snapshot.largest_files@, folder@);
    let b = crate::browse::inner_folders(snapshot.largest_folders@, folder@);
    lemma_first(a, limit as nat, x);
    lemma_first(b, limit as nat, x);
    if in_order::<SizedEntry, FileRank>(snapshot.largest_files@) {
        lemma_filter_in_order::<SizedEntry, FileRank>(snapshot.largest_files@, below);
        lemma_front_in_order::<FileRank>(a, files@);
    }
    if in_order::<SizedEntry, FolderRank>(snapshot.largest_folders@) {
        lemma_filter_in_order::<SizedEntry, FolderRank>(snapshot.largest_folders@, inner);
        lemma_front_in_order::<FolderRank>(b, folders@);
    }
}

proof fn lemma_front_in_order<O: Order<SizedEntry>>(list: Seq<SizedEntry>, front: Seq<SizedEntry>)
    requires
        in_order::<SizedEntry, O>(list),
        front.len() <= list.len(),
        forall|i: int| 0 <= i < front.len() ==> front[i] == #[trigger] list[i],
    ensures
        in_order::<SizedEntry, O>(front),
{
    assert forall|i: int, j: int| 0 <= i <= j < front.len() implies O::le(
        #[trigger] front[i],
        #[trigger] front[j],
    ) by {
        assert(O::le(list[i], list[j]));
    }
}

/// A category shows only cached files of that category, and all of them where
/// fewer are shown than may be.
pub proof fn law_category_shows_its_files(
    snapshot: &Snapshot,
    category: &str,
    limit: usize,
    files: Vec<SizedEntry>,
    x: SizedEntry,
)
    requires
        call_ensures(category_files, (snapshot, category, limit), files),
    ensures
        files@.len() <= limit,
        files@.contains(x) ==> snapshot.largest_files@.contains(x) && x.category is Some
            && x.category->0@ == category@,
        files@.len() < limit && snapshot.largest_files@.contains(x) && x.category is Some
            && x.category->0@ == category@ ==> files@.contains(x),
{
    let keep = |e: SizedEntry| crate::snapshot::opt_text(e.category) == Some(category@);
    lemma_filter_members(snapshot.largest_files@, keep, x);
    lemma_first(
        crate::browse::category_files_of(snapshot.largest_files@, category@),
        limit as nat,
        x,
    );
}

/// A written number is a choice as it stands, and is no word of the browser.
proof fn lemma_number_is_a_choice(n: nat)
    ensures
        choice_of(decimal(n)) == decimal(n),
        trim(decimal(n)) == decimal(n),
        !crate::browse::goes_back(decimal(n)),
        !crate::browse::quits(decimal(n)),
        crate::cli::word_number(decimal(n)) == if n <= usize::MAX {
            Some(n as usize)
        } else {
            None
        },
{
    let d = decimal(n);
    lemma_decimal(n);
    let white = |c: char| crate::text::is_white(c);
    assert(crate::numbers::is_digit(d[0]));
    assert(crate::numbers::is_digit(d[d.len() - 1]));
    assert(crate::text::trim_front(d, white) == d);
    assert(trim_back(d, white) == d);
    assert(crate::text::lower(d) =~= d) by {
        assert forall|i: int| 0 <= i < d.len() implies crate::text::lower_char(d[i]) == d[i] by {
            assert(crate::numbers::is_digit(d[i]));
        }
    }
    reveal_strlit("");
    reveal_strlit("b");
    reveal_strlit("back");
    reveal_strlit("q");
    reveal_strlit("exit");
    reveal_strlit("quit");
    assert("b"@[0] == 'b' && "back"@[0] == 'b' && "q"@[0] == 'q' && "exit"@[0] == 'e' && "quit"@[0]
        == 'q');
}

/// The number of a folder leads into that folder, and the number of a category to
/// the files of that category; a number that is not shown leads nowhere.
pub proof fn law_number_leads_into_its_choice(
    screen: Screen,
    snapshot: &Snapshot,
    limit: usize,
    line: &str,
    n: nat,
    r: Result<Step, CliError>,
)
    requires
        call_ensures(browse_step, (screen, snapshot, limit, line), r),
        line@ == decimal(n),
    ensures
        screen@ is Folders ==> {
            let list = snapshot.largest_folders@;
            &&& r is Ok <==> 1 <= n <= limit && n <= list.len()
            &&& r is Ok ==> match r->Ok_0@ {
                StepView::Show(ScreenView::Empty(folder)) => folder == list[n - 1],
                StepView::Show(ScreenView::Lists(lists)) => lists.title
                    == "Cached top-N entries under "@ + list[n - 1].path@ && forall|i: int|
                    0 <= i < lists.files.len() ==> at_or_under(
                        (#[trigger] lists.files[i]).path@,
                        list[n - 1].path@,
                    ),
                _ => false,
            }
        },
        screen@ is Categories ==> {
            let list = snapshot.categories@;
            &&& r is Ok <==> 1 <= n <= limit && n <= list.len()
            &&& r is Ok ==> match r->Ok_0@ {
                StepView::Show(ScreenView::Lists(lists)) => lists.title
                    == "Cached top-N files in category "@ + list[n - 1].name@
                    && lists.folders.len() == 0 && forall|i: int|
                    0 <= i < lists.files.len() ==> crate::snapshot::opt_text(
                        (#[trigger] lists.files[i]).category,
                    ) == Some(list[n - 1].name@),
                _ => false,
            }
        },
        screen@ matches ScreenView::Number(lists, kind) ==> {
            let list = if kind is File {
                lists.files
            } else {
                lists.folders
            };
            &&& r is Ok <==> 1 <= n <= list.len() && n <= usize::MAX
            &&& r is Ok ==> r->Ok_0@ == StepView::Show(
                ScreenView::Details(lists, list[n - 1], kind),
            )
        },
{
    lemma_number_is_a_choice(n);
    if screen@ is Folders && r is Ok {
        let folder = snapshot.largest_folders@[n - 1];
        let below = |e: SizedEntry| at_or_under(e.path@, folder.path@);
        lemma_filter(snapshot.largest_files@, below);
        let all = crate::prune::inside(snapshot.largest_files@, folder.path@);
        lemma_first(all, limit as nat, folder);
        if let StepView::Show(ScreenView::Lists(lists)) = r->Ok_0@ {
            assert forall|i: int| 0 <= i < lists.files.len() implies at_or_under(
                (#[trigger] lists.files[i]).path@,
                folder.path@,
            ) by {
                assert(lists.files[i] == all[i]);
                assert(below(snapshot.largest_files@.filter(below)[i]));
            }
        }
    }
    if screen@ is Categories && r is Ok {
        let name = snapshot.categories@[n - 1].name@;
        let keep = |e: SizedEntry| crate::snapshot::opt_text(e.category) == Some(name);
        lemma_filter(snapshot.largest_files@, keep);
        let all = crate::browse::category_files_of(snapshot.largest_files@, name);
        if let StepView::Show(ScreenView::Lists(lists)) = r->Ok_0@ {
            assert forall|i: int| 0 <= i < lists.files.len() implies crate::snapshot::opt_text(
                (#[trigger] lists.files[i]).category,
            ) == Some(name) by {
                assert(lists.files[i] == all[i]);
                assert(keep(snapshot.largest_files@.filter(keep)[i]));
            }
        }
    }
}

// ---------------------------------------------------------------------------
// State files
// ---------------------------------------------------------------------------

/// A snapshot is loaded exactly where its file holds one of this schema, and it
/// is the one that the file holds.
pub proof fn law_loaded_is_what_was_written(
    path: &str,
    read: FileRead<Snapshot>,
    r: Result<Snapshot, CliError>,
    base: Result<Snapshot, CliError>,
)
    requires
        call_ensures(load_snapshot, (path, read), r),
        call_ensures(load_base_snapshot, (path, read), base),
    ensures
        r is Ok <==> (read matches FileRead::Parsed(s) && s.version == 3),
        base is Ok <==> r is Ok,
        r is Ok ==> read == FileRead::Parsed(r->Ok_0) && base->Ok_0 == r->Ok_0,
{
}

/// A file of this version or an earlier one is read, one of a later version is
/// refused.
pub proof fn law_later_versions_are_refused(
    version: u32,
    label: &str,
    supported: u32,
    r: Result<u32, String>,
)
    requires
        call_ensures(supported_version, (version, label, supported), r),
    ensures
        r is Ok <==> version <= supported,
        r is Ok ==> r->Ok_0 == version,
{
}

/// Settings are those of the file; where there is none, a scan is stale after
/// fifteen days, keeps a thousand entries and leaves six system folders out.
pub proof fn law_settings_of_a_fresh_install(
    path: &str,
    read: FileRead<AppConfig>,
    r: Result<AppConfig, CliError>,
)
    requires
        call_ensures(load_or_default_config, (path, read), r),
    ensures
        read matches FileRead::Parsed(config) ==> r == Ok::<AppConfig, CliError>(config),
        read is Missing ==> r is Ok && r->Ok_0.stale_days == 15 && r->Ok_0.top_limit == 1000
            && texts(r->Ok_0.skip_names@) == seq![
            "System Volume Information"@,
            "$Recycle.Bin"@,
            "Windows"@,
            "Recovery"@,
            "Config.Msi"@,
            "$WinREAgent"@,
        ],
        r is Err <==> read is Failed || read is Unparsed,
{
}

/// The status says what the snapshot holds: its totals and counts, the second at
/// which it was scanned and the one from which it is stale, whether it is, and
/// whether the category rules are still those it was scanned by.
pub proof fn law_status_says_what_is_cached(
    snapshot: &Snapshot,
    paths: &CachePaths,
    config: &AppConfig,
    rules: Option<&CategoryRules>,
    base: &Result<Snapshot, CliError>,
    cleanups: ManualCleanupTotals,
    savings: CacheSavingsTotals,
    now: u64,
    s: Status,
)
    requires
        call_ensures(
            status_at,
            (snapshot, paths, config, rules, base, cleanups, savings, now),
            Ok(s),
        ),
    ensures
        s.total_bytes == snapshot.total_bytes,
        s.total_allocated_bytes == snapshot.total_allocated_bytes,
        s.total_capacity_bytes == snapshot.total_capacity_bytes,
        s.file_count == snapshot.file_count,
        s.folder_count == snapshot.folder_count,
        s.skipped_count == snapshot.skipped@.len(),
        s.access_denied_count == snapshot.access_denied_count,
        s.scan_stats == snapshot.scan_stats,
        s.manual_cleanups == cleanups,
        s.cache_savings == savings,
        s.workspace@ == paths.workspace_name@,
        s.snapshot_path@ == paths.snapshot_path@,
        s.base_snapshot_path@ == paths.base_snapshot_path@,
        s.scanned_at_utc@ == utc_second(snapshot.scanned_at_unix as int),
        s.stale_at_utc is Some <==> config.stale_days > 0,
        s.stale_at_utc is Some && snapshot.scanned_at_unix + config.stale_days * 86_400 <= u64::MAX
            ==> s.stale_at_utc->0@ == utc_second(
            snapshot.scanned_at_unix + config.stale_days * 86_400,
        ),
        s.stale.is_stale <==> config.stale_days > 0 && now >= snapshot.scanned_at_unix
            + config.stale_days * 86_400,
        rules is Some && snapshot.category_rules_fingerprint is Some ==> s.category_rules is Some
            && s.category_rules->0.changed_since_scan == Some(
            snapshot.category_rules_fingerprint->0@ != rules->0.print(),
        ),
        base is Err ==> s.cache_mode == CacheMode::PresentTracked,
{
}

// ---------------------------------------------------------------------------
// Sizes, durations and bars
// ---------------------------------------------------------------------------

proof fn lemma_nearest(n: nat, d: nat)
    requires
        d > 0,
    ensures
        2 * (nearest(n, d) * d) <= 2 * n + d,
        2 * n <= 2 * (nearest(n, d) * d) + d,
{
    let q = n / d;
    vstd::arithmetic::div_mod::lemma_fundamental_div_mod(n as int, d as int);
    assert((q + 1) * d == q * d + d) by (nonlinear_arith);
    assert(d * q == q * d) by (nonlinear_arith);
}

proof fn lemma_unit(n: nat, size: nat, unit: nat)
    requires
        size == vstd::arithmetic::power::pow(1024, unit),
        size > 0,
        n >= size,
        unit <= 5,
    ensures
        ({
            let (s, u) = unit_size(n, size, unit);
            &&& unit <= u <= 5
            &&& n >= s
            &&& u < 5 ==> n < 1024 * s
            &&& s == vstd::arithmetic::power::pow(1024, u)
            &&& s > 0
        }),
    decreases 5 - unit,
{
    reveal(vstd::arithmetic::power::pow);
    if unit < 5 && n >= 1024 * size {
        lemma_unit(n, 1024 * size, unit + 1);
    }
}

/// A size is shown in the largest unit that it fills, with three digits at least,
/// to the nearest: below a kilobyte in bytes, and above it as a whole number from
/// a hundred of the unit on, with one decimal from ten on, and with two below.
pub proof fn law_sizes_are_shown_to_the_nearest(bytes: u64, r: String)
    requires
        call_ensures(human_size, (bytes,), r),
        bytes < 0x20_0000_0000_0000,
    ensures
        bytes < 1024 ==> r@ == decimal(bytes as nat) + " B"@,
        bytes >= 1024 ==> exists|size: nat, unit: nat, q: nat| #[trigger]
            shown_as(r@, bytes as nat, size, unit, q),
{
    let n = bytes as nat;
    assert(spacing(n, 1) == 1);
    assert(nearest(n, 1) == n) by {
        lemma_nearest(n, 1);
    }
    assert(as_double(n) == n);
    if bytes >= 1024 {
        let (size, unit) = unit_size(n, 1, 0);
        assert(vstd::arithmetic::power::pow(1024, 0) == 1) by {
            reveal(vstd::arithmetic::power::pow);
        }
        lemma_unit(n, 1, 0);
        let q = if n >= 100 * size {
            nearest(n, size)
        } else if n >= 10 * size {
            nearest(10 * n, size)
        } else {
            nearest(100 * n, size)
        };
        lemma_nearest(n, size);
        lemma_nearest(10 * n, size);
        lemma_nearest(100 * n, size);
        assert(shown_as(r@, n, size, unit, q));
    }
}

/// The text shows so many bytes in units of `size`, of which they fill one, and
/// not a larger unit; `q` is what is shown, the decimals included.
pub open spec fn shown_as(text: Seq<char>, bytes: nat, size: nat, unit: nat, q: nat) -> bool {
    &&& size == vstd::arithmetic::power::pow(1024, unit)
    &&& bytes >= size
    &&& unit <= 5
    &&& unit < 5 ==> bytes < 1024 * size
    &&& bytes >= 100 * size ==> text == decimal(q) + unit_name(unit) && near(q, bytes, size)
    &&& 10 * size <= bytes < 100 * size ==> text == decimal(q / 10) + seq![
        '.',
        crate::numbers::digit((q % 10) as int),
    ] + unit_name(unit) && near(q, 10 * bytes, size)
    &&& bytes < 10 * size ==> text == decimal(q / 100) + seq!['.'] + crate::numbers::two_digits(
        q % 100,
    ) + unit_name(unit) && near(q, 100 * bytes, size)
}

/// `q` is as near to `n` in units of `size` as a whole number can be.
pub open spec fn near(q: nat, n: nat, size: nat) -> bool {
    2 * (q * size) <= 2 * n + size && 2 * n <= 2 * (q * size) + size
}

/// A duration is shown in milliseconds below a second, in seconds and tenths
/// below a minute, and in minutes and seconds from then on.
pub proof fn law_durations(minutes: nat, seconds: nat, millis: nat, ms: u64, r: String)
    requires
        call_ensures(human_duration, (ms,), r),
        seconds < 60,
        millis < 1000,
        ms == 60_000 * minutes + 1000 * seconds + millis,
    ensures
        minutes == 0 && seconds == 0 ==> r@ == decimal(millis) + "ms"@,
        minutes == 0 && seconds > 0 ==> r@ == decimal(seconds) + "."@ + decimal(millis / 100)
            + "s"@,
        minutes > 0 ==> r@ == decimal(minutes) + "m "@ + crate::numbers::two_digits(seconds)
            + "s"@,
{
    let all = ms as nat;
    assert(all / 1000 == 60 * minutes + seconds && all % 1000 == millis);
    assert((60 * minutes + seconds) / 60 == minutes && (60 * minutes + seconds) % 60 == seconds);
}

/// A bar is never longer than it is wide, and empty where there is nothing to
/// show or nothing to show it by.
pub proof fn law_bars_fit(part: u64, whole: u64, width: usize, r: usize)
    requires
        call_ensures(filled_cells, (part, whole, width), r),
    ensures
        r <= width,
        whole == 0 ==> r == 0,
        part == 0 ==> r == 0,
{
    if part == 0 && whole > 0 {
        assert(spacing(0, 1) == 1);
        lemma_nearest(0, 1);
        assert(as_double(0) == 0);
        assert(0 * (width as nat) == 0);
        assert(crate::ratio::quotient(0, as_double(whole as nat)) == (0nat, 1nat));
        assert(crate::ratio::share(part as nat, whole as nat, width as nat) == (0nat, 1nat));
        assert((2 * 0nat + 1nat) / (2 * 1nat) == 0nat) by (nonlinear_arith);
    }
}

/// `x` is as near to `y` as to one part in a million.
pub open spec fn close(x: nat, y: nat) -> bool {
    &&& 1_048_576 * x <= 1_048_577 * y
    &&& 1_048_575 * y <= 1_048_576 * x
}

proof fn lemma_spacing(n: nat, step: nat)
    requires
        step > 0,
    ensures
        spacing(n, step) > 0,
        spacing(n, step) == step || 0x10_0000_0000_0000 * spacing(n, step) <= n,
    decreases n - step,
{
    if n >= 0x20_0000_0000_0000 * step {
        lemma_spacing(n, 2 * step);
    }
}

proof fn lemma_as_double_close(n: nat)
    ensures
        close(as_double(n), n),
{
    let step = spacing(n, 1);
    lemma_spacing(n, 1);
    lemma_nearest(n, step);
    if step == 1 {
        assert(nearest(n, 1) * 1 == n) by {
            assert(n / 1 == n && n % 1 == 0) by (nonlinear_arith);
        }
    }
}

proof fn lemma_raised(n: nat, d: nat)
    requires
        n > 0,
        d > 0,
    ensures
        raised(n, d) > 0,
        n * raised(n, d) >= d * 0x10_0000_0000_0000,
        n >= d * 0x10_0000_0000_0000 ==> raised(n, d) == 1,
    decreases d * 0x20_0000_0000_0000 - n,
{
    if n < d * 0x10_0000_0000_0000 {
        lemma_raised(2 * n, d);
        let c = raised(2 * n, d);
        assert(n * (2 * c) == (2 * n) * c) by (nonlinear_arith);
    }
}

proof fn lemma_lowered(n: nat, d: nat)
    requires
        d > 0,
    ensures
        lowered(n, d) > 0,
        lowered(n, d) == 1 || 0x10_0000_0000_0000 * (d * lowered(n, d)) <= n,
        lowered(n, d) > 1 ==> n >= 0x20_0000_0000_0000 * d,
    decreases n - d,
{
    if n >= 0x20_0000_0000_0000 * d {
        lemma_lowered(n, 2 * d);
        let e = lowered(n, 2 * d);
        assert((2 * d) * e == d * (2 * e)) by (nonlinear_arith);
        if e == 1 {
            assert(d * 2 == 2 * d);
        }
    }
}

proof fn lemma_quotient_close(x: nat, y: nat)
    requires
        x > 0,
        y > 0,
    ensures
        quotient(x, y).1 > 0,
        close(quotient(x, y).0 * y, x * quotient(x, y).1),
{
    let c = raised(x, y);
    let e = lowered(x, y);
    lemma_raised(x, y);
    lemma_lowered(x, y);
    let near = nearest(x * c, y * e);
    assert(y * e > 0) by (nonlinear_arith)
        requires
            y > 0,
            e > 0,
    ;
    lemma_nearest(x * c, y * e);
    assert(near * (y * e) == (near * e) * y) by (nonlinear_arith);
    if e > 1 {
        assert(x * c == x) by (nonlinear_arith)
            requires
                c == 1,
        ;
    } else {
        assert(y * e == y) by (nonlinear_arith)
            requires
                e == 1,
        ;
    }
    assert(0x10_0000_0000_0000 * (y * e) <= x * c);
}

/// A share is as near to the true one as to a few parts in a million: the bounds
/// are the products of four that are `close`.
proof fn lemma_share_close(part: nat, whole: nat, factor: nat)
    requires
        part > 0,
        whole > 0,
    ensures
        ({
            let (n, c) = share(part, whole, factor);
            let goal = factor * part * c;
            &&& c > 0
            &&& 1_152_920_405_095_219_200 * (n * whole) <= 1_152_924_803_144_876_033 * goal
            &&& 1_152_918_206_075_109_375 * goal <= 1_152_922_604_118_474_752 * (n
                * whole)
        }),
{
    let x = as_double(part);
    let y = as_double(whole);
    lemma_as_double_close(part);
    lemma_as_double_close(whole);
    let (m, c) = quotient(x, y);
    lemma_quotient_close(x, y);
    let n = as_double(m * factor);
    lemma_as_double_close(m * factor);
    let a = n * y;
    let b = (m * factor) * y;
    let d = factor * (x * c);
    let goal = factor * part * c;
    assert(1_048_576 * a <= 1_048_577 * b && 1_048_575 * b <= 1_048_576 * a) by (nonlinear_arith)
        requires
            a == n * y,
            b == (m * factor) * y,
            1_048_576 * n <= 1_048_577 * (m * factor),
            1_048_575 * (m * factor) <= 1_048_576 * n,
    ;
    assert(1_048_576 * b <= 1_048_577 * d && 1_048_575 * d <= 1_048_576 * b) by (nonlinear_arith)
        requires
            b == (m * factor) * y,
            d == factor * (x * c),
            1_048_576 * (m * y) <= 1_048_577 * (x * c),
            1_048_575 * (x * c) <= 1_048_576 * (m * y),
    ;
    assert(1_048_576 * d <= 1_048_577 * goal && 1_048_575 * goal <= 1_048_576 * d)
        by (nonlinear_arith)
        requires
            d == factor * (x * c),
            goal == factor * part * c,
            1_048_576 * x <= 1_048_577 * part,
            1_048_575 * part <= 1_048_576 * x,
    ;
    let w = n * whole;
    assert(1_048_576 * a <= 1_048_577 * w && 1_048_575 * w <= 1_048_576 * a) by (nonlinear_arith)
        requires
            a == n * y,
            w == n * whole,
            1_048_576 * y <= 1_048_577 * whole,
            1_048_575 * whole <= 1_048_576 * y,
    ;
}

/// A fraction of a whole that was rounded to a whole number is less than one
/// away from the true one.
proof fn lemma_rounded_share(
    rounded: nat,
    times: nat,
    n: nat,
    c: nat,
    part: nat,
    whole: nat,
    factor: nat,
)
    requires
        0 < part <= whole,
        c > 0,
        times * factor <= 1000,
        2 * (rounded * c) <= 2 * (times * n) + c,
        2 * (times * n) <= 2 * (rounded * c) + c,
        1_152_920_405_095_219_200 * (n * whole) <= 1_152_924_803_144_876_033 * (
        factor * part * c),
        1_152_918_206_075_109_375 * (factor * part * c) <= 1_152_922_604_118_474_752 * (n * whole),
    ensures
        rounded * whole < times * factor * part + whole,
        times * factor * part < rounded * whole + whole,
{
    let all = times * factor * part;
    let tw = rounded * whole;
    let allc = all * c;
    let twc = tw * c;
    let wc = whole * c;
    let nw = times * (n * whole);
    assert(all <= 1000 * whole) by (nonlinear_arith)
        requires
            all == times * factor * part,
            times * factor <= 1000,
            0 < part <= whole,
    ;
    assert(allc <= 1000 * wc) by (nonlinear_arith)
        requires
            all <= 1000 * whole,
            allc == all * c,
            wc == whole * c,
    ;
    assert(wc > 0) by (nonlinear_arith)
        requires
            whole > 0,
            c > 0,
            wc == whole * c,
    ;
    assert(2 * twc <= 2 * nw + wc && 2 * nw <= 2 * twc + wc) by (nonlinear_arith)
        requires
            twc == (rounded * whole) * c,
            nw == times * (n * whole),
            wc == whole * c,
            2 * (rounded * c) <= 2 * (times * n) + c,
            2 * (times * n) <= 2 * (rounded * c) + c,
    ;
    let g = factor * part * c;
    assert(times * g == allc) by (nonlinear_arith)
        requires
            g == factor * part * c,
            allc == (times * factor * part) * c,
    ;
    assert(1_152_920_405_095_219_200 * nw <= 1_152_924_803_144_876_033 * allc
        && 1_152_918_206_075_109_375 * allc <= 1_152_922_604_118_474_752 * nw)
        by (nonlinear_arith)
        requires
            nw == times * (n * whole),
            allc == times * g,
            1_152_920_405_095_219_200 * (n * whole) <= 1_152_924_803_144_876_033
                * g,
            1_152_918_206_075_109_375 * g <= 1_152_922_604_118_474_752 * (n
                * whole),
    ;
    assert(twc < allc + wc);
    assert(allc < twc + wc);
    assert(tw < all + whole) by (nonlinear_arith)
        requires
            tw * c < all * c + whole * c,
            c > 0,
    ;
    assert(all < tw + whole) by (nonlinear_arith)
        requires
            all * c < tw * c + whole * c,
            c > 0,
    ;
}

/// What a percentage shows: so many tenths of a percent.
pub open spec fn shows_tenths(text: Seq<char>, tenths: nat) -> bool {
    text == decimal(tenths / 10) + seq!['.', crate::numbers::digit((tenths % 10) as int), '%']
}

/// The tenths are less than one away from the true share.
pub open spec fn near_share(tenths: nat, part: u64, whole: u64) -> bool {
    &&& tenths * whole < 1000 * part + whole
    &&& 1000 * part < tenths * whole + whole
}

/// A part is shown in percent of a whole that is known and not zero, less than a
/// tenth of a percent away from its true share.
pub proof fn law_percentages_are_true(part: u64, whole: Option<u64>, r: Option<String>)
    requires
        call_ensures(format_percent, (part, whole), r),
    ensures
        r is None <==> whole is None || whole == Some(0u64),
        whole matches Some(w) ==> (w > 0 && part <= w ==> exists|t: nat| #[trigger]
            near_share(t, part, w) && shows_tenths(r->0@, t)),
        whole matches Some(w) ==> (w > 0 && part == 0 ==> shows_tenths(r->0@, 0)),
{
    if let Some(w) = whole {
        if w > 0 && part == 0 {
            assert(spacing(0, 1) == 1);
            lemma_nearest(0, 1);
            assert(as_double(0) == 0);
            assert(quotient(0, as_double(w as nat)) == (0nat, 1nat));
            assert(share(0, w as nat, 100) == (0nat, 1nat));
            assert(crate::ratio::permille(0, w as nat) == 0);
            assert(0 * (w as nat) == 0);
            assert(near_share(0, part, w));
        }
        if 0 < part <= w {
            let (n, c) = share(part as nat, w as nat, 100);
            lemma_share_close(part as nat, w as nat, 100);
            let t = crate::ratio::permille(part as nat, w as nat);
            lemma_nearest(10 * n, c);
            lemma_rounded_share(t, 10, n, c, part as nat, w as nat, 100);
            assert(near_share(t, part, w));
        }
    }
}

/// The cells are less than one away from the true share.
pub open spec fn near_cells(cells: nat, part: u64, whole: u64, width: nat) -> bool {
    &&& cells * whole < width * part + whole
    &&& width * part < cells * whole + whole
}

/// A bar is filled less than one cell away from the part's true share.
pub proof fn law_bars_are_true(part: u64, whole: u64, width: usize, r: usize)
    requires
        call_ensures(filled_cells, (part, whole, width), r),
        0 < part <= whole,
        width <= 100,
    ensures
        near_cells(r as nat, part, whole, width as nat),
{
    let f = width as nat;
    let (n, c) = share(part as nat, whole as nat, f);
    lemma_share_close(part as nat, whole as nat, f);
    let cells = (2 * n + c) / (2 * c);
    vstd::arithmetic::div_mod::lemma_fundamental_div_mod((2 * n + c) as int, (2 * c) as int);
    assert((2 * c) * cells == 2 * (cells * c)) by (nonlinear_arith);
    assert(0 <= (2 * n + c) % (2 * c) < 2 * c);
    lemma_rounded_share(cells, 1, n, c, part as nat, whole as nat, f);
    assert(1 * f * (part as nat) == f * part) by (nonlinear_arith);
    if cells > f {
        assert(f * whole < f * part + whole && f * part < f * whole + whole) by (nonlinear_arith)
            requires
                cells > f,
                cells * whole < f * part + whole,
                0 < part <= whole,
        ;
    }
}

// ---------------------------------------------------------------------------
// The command line
// ---------------------------------------------------------------------------

/// How the words of the command line begin, which tells them apart.
proof fn lemma_words()
    ensures
        "scan"@.len() == 4 && "scan"@[0] == 's' && "scan"@[1] == 'c' && "scan"@[2] == 'a' && "scan"@[3] == 'n',
        "summary"@.len() == 7 && "summary"@[0] == 's' && "summary"@[1] == 'u' && "summary"@[2] == 'm' && "summary"@[3] == 'm',
        "files"@.len() == 5 && "files"@[0] == 'f' && "files"@[1] == 'i' && "files"@[2] == 'l' && "files"@[3] == 'e',
        "folders"@.len() == 7 && "folders"@[0] == 'f' && "folders"@[1] == 'o' && "folders"@[2] == 'l' && "folders"@[3] == 'd',
        "open"@.len() == 4 && "open"@[0] == 'o' && "open"@[1] == 'p' && "open"@[2] == 'e' && "open"@[3] == 'n',
        "browse"@.len() == 6 && "browse"@[0] == 'b' && "browse"@[1] == 'r' && "browse"@[2] == 'o' && "browse"@[3] == 'w',
        "status"@.len() == 6 && "status"@[0] == 's' && "status"@[1] == 't' && "status"@[2] == 'a' && "status"@[3] == 't',
        "cache"@.len() == 5 && "cache"@[0] == 'c' && "cache"@[1] == 'a' && "cache"@[2] == 'c' && "cache"@[3] == 'h',
        "config"@.len() == 6 && "config"@[0] == 'c' && "config"@[1] == 'o' && "config"@[2] == 'n' && "config"@[3] == 'f',
        "workspace"@.len() == 9 && "workspace"@[0] == 'w' && "workspace"@[1] == 'o' && "workspace"@[2] == 'r' && "workspace"@[3] == 'k',
        "audit"@.len() == 5 && "audit"@[0] == 'a' && "audit"@[1] == 'u' && "audit"@[2] == 'd' && "audit"@[3] == 'i',
        "file"@.len() == 4 && "file"@[0] == 'f' && "file"@[1] == 'i' && "file"@[2] == 'l' && "file"@[3] == 'e',
        "folder"@.len() == 6 && "folder"@[0] == 'f' && "folder"@[1] == 'o' && "folder"@[2] == 'l' && "folder"@[3] == 'd',
        "mark-removed"@.len() == 12 && "mark-removed"@[0] == 'm' && "mark-removed"@[1] == 'a' && "mark-removed"@[2] == 'r' && "mark-removed"@[3] == 'k',
        "restore-base"@.len() == 12 && "restore-base"@[0] == 'r' && "restore-base"@[1] == 'e' && "restore-base"@[2] == 's' && "restore-base"@[3] == 't',
        "fast-forward"@.len() == 12 && "fast-forward"@[0] == 'f' && "fast-forward"@[1] == 'a' && "fast-forward"@[2] == 's' && "fast-forward"@[3] == 't',
        "cleanups"@.len() == 8 && "cleanups"@[0] == 'c' && "cleanups"@[1] == 'l' && "cleanups"@[2] == 'e' && "cleanups"@[3] == 'a',
        "cleanup"@.len() == 7 && "cleanup"@[0] == 'c' && "cleanup"@[1] == 'l' && "cleanup"@[2] == 'e' && "cleanup"@[3] == 'a',
        "removals"@.len() == 8 && "removals"@[0] == 'r' && "removals"@[1] == 'e' && "removals"@[2] == 'm' && "removals"@[3] == 'o',
        "list"@.len() == 4 && "list"@[0] == 'l' && "list"@[1] == 'i' && "list"@[2] == 's' && "list"@[3] == 't',
        "current"@.len() == 7 && "current"@[0] == 'c' && "current"@[1] == 'u' && "current"@[2] == 'r' && "current"@[3] == 'r',
        "create"@.len() == 6 && "create"@[0] == 'c' && "create"@[1] == 'r' && "create"@[2] == 'e' && "create"@[3] == 'a',
        "use"@.len() == 3 && "use"@[0] == 'u' && "use"@[1] == 's' && "use"@[2] == 'e',
        "rename"@.len() == 6 && "rename"@[0] == 'r' && "rename"@[1] == 'e' && "rename"@[2] == 'n' && "rename"@[3] == 'a',
        "delete"@.len() == 6 && "delete"@[0] == 'd' && "delete"@[1] == 'e' && "delete"@[2] == 'l' && "delete"@[3] == 'e',
        "rules"@.len() == 5 && "rules"@[0] == 'r' && "rules"@[1] == 'u' && "rules"@[2] == 'l' && "rules"@[3] == 'e',
        "--json"@.len() == 6 && "--json"@[0] == '-' && "--json"@[1] == '-' && "--json"@[2] == 'j' && "--json"@[3] == 's',
        "--quiet"@.len() == 7 && "--quiet"@[0] == '-' && "--quiet"@[1] == '-' && "--quiet"@[2] == 'q' && "--quiet"@[3] == 'u',
        "--limit"@.len() == 7 && "--limit"@[0] == '-' && "--limit"@[1] == '-' && "--limit"@[2] == 'l' && "--limit"@[3] == 'i',
        "--workspace"@.len() == 11 && "--workspace"@[0] == '-' && "--workspace"@[1] == '-' && "--workspace"@[2] == 'w' && "--workspace"@[3] == 'o',
        "--version"@.len() == 9 && "--version"@[0] == '-' && "--version"@[1] == '-' && "--version"@[2] == 'v' && "--version"@[3] == 'e',
        "--help"@.len() == 6 && "--help"@[0] == '-' && "--help"@[1] == '-' && "--help"@[2] == 'h' && "--help"@[3] == 'e',
        "-h"@.len() == 2 && "-h"@[0] == '-' && "-h"@[1] == 'h',
        "--force"@.len() == 7 && "--force"@[0] == '-' && "--force"@[1] == '-' && "--force"@[2] == 'f' && "--force"@[3] == 'o',
        "--top"@.len() == 5 && "--top"@[0] == '-' && "--top"@[1] == '-' && "--top"@[2] == 't' && "--top"@[3] == 'o',
        "--path"@.len() == 6 && "--path"@[0] == '-' && "--path"@[1] == '-' && "--path"@[2] == 'p' && "--path"@[3] == 'a',
        "--yes"@.len() == 5 && "--yes"@[0] == '-' && "--yes"@[1] == '-' && "--yes"@[2] == 'y' && "--yes"@[3] == 'e',
        "--rules"@.len() == 7 && "--rules"@[0] == '-' && "--rules"@[1] == '-' && "--rules"@[2] == 'r' && "--rules"@[3] == 'u',
        "--init-categories"@.len() == 17 && "--init-categories"@[0] == '-' && "--init-categories"@[1] == '-' && "--init-categories"@[2] == 'i' && "--init-categories"@[3] == 'n',
        "--stale-days"@.len() == 12 && "--stale-days"@[0] == '-' && "--stale-days"@[1] == '-' && "--stale-days"@[2] == 's' && "--stale-days"@[3] == 't',
{
    reveal_strlit("scan");
    reveal_strlit("summary");
    reveal_strlit("files");
    reveal_strlit("folders");
    reveal_strlit("open");
    reveal_strlit("browse");
    reveal_strlit("status");
    reveal_strlit("cache");
    reveal_strlit("config");
    reveal_strlit("workspace");
    reveal_strlit("audit");
    reveal_strlit("file");
    reveal_strlit("folder");
    reveal_strlit("mark-removed");
    reveal_strlit("restore-base");
    reveal_strlit("fast-forward");
    reveal_strlit("cleanups");
    reveal_strlit("cleanup");
    reveal_strlit("removals");
    reveal_strlit("list");
    reveal_strlit("current");
    reveal_strlit("create");
    reveal_strlit("use");
    reveal_strlit("rename");
    reveal_strlit("delete");
    reveal_strlit("rules");
    reveal_strlit("--json");
    reveal_strlit("--quiet");
    reveal_strlit("--limit");
    reveal_strlit("--workspace");
    reveal_strlit("--version");
    reveal_strlit("--help");
    reveal_strlit("-h");
    reveal_strlit("--force");
    reveal_strlit("--top");
    reveal_strlit("--path");
    reveal_strlit("--yes");
    reveal_strlit("--rules");
    reveal_strlit("--init-categories");
    reveal_strlit("--stale-days");
}

/// No word asks for help.
pub open spec fn asks_no_help(words: Words) -> bool {
    words.len() > 0 && !words.contains("-h"@) && !words.contains("--help"@)
}

proof fn lemma_added_word(word: Seq<char>, words: Words)
    requires
        asks_no_help(words),
        word != "-h"@,
        word != "--help"@,
    ensures
        asks_no_help(seq![word] + words),
{
    let all = seq![word] + words;
    assert forall|k: int| 0 <= k < all.len() implies all[k] != "-h"@ && all[k] != "--help"@ by {
        if k > 0 {
            assert(all[k] == words[k - 1]);
            assert(words.contains(words[k - 1]));
        }
    }
}

proof fn lemma_globals_behind(head: Words, words: Words, i: int, g: Globals)
    requires
        0 <= i <= words.len(),
    ensures
        globals(head + words, head.len() + i, g) == globals(words, i, g),
    decreases words.len() - i,
{
    let all = head + words;
    let at = head.len() + i;
    assert(all.skip(at) =~= words.skip(i));
    if i < words.len() {
        assert(all[at] == words[i]);
        if i + 1 < words.len() {
            assert(all[at + 1] == words[i + 1]);
        }
        lemma_globals_behind(head, words, i + 1, Globals { json: true, ..g });
        lemma_globals_behind(head, words, i + 1, Globals { quiet: true, ..g });
        if i + 1 < words.len() {
            if let Some(n) = crate::cli::word_number(words[i + 1]) {
                lemma_globals_behind(head, words, i + 2, Globals { limit: n, ..g });
            }
            lemma_globals_behind(
                head,
                words,
                i + 2,
                Globals { workspace: Some(words[i + 1]), ..g },
            );
        }
    }
}

/// The two readings differ in nothing but these two flags.
spec fn alike_but(a: Result<Globals, Seq<char>>, b: Result<Globals, Seq<char>>, json: bool, quiet: bool) -> bool {
    match (a, b) {
        (Ok(x), Ok(y)) => y == (Globals { json: x.json || json, quiet: x.quiet || quiet, ..x }),
        (Err(x), Err(y)) => x == y,
        _ => false,
    }
}

proof fn lemma_flags_stay(words: Words, i: int, g: Globals, json: bool, quiet: bool)
    requires
        0 <= i,
    ensures
        alike_but(
            globals(words, i, g),
            globals(
                words,
                i,
                Globals { json: g.json || json, quiet: g.quiet || quiet, ..g },
            ),
            json,
            quiet,
        ),
    decreases words.len() - i,
{
    if i < words.len() {
        lemma_flags_stay(words, i + 1, Globals { json: true, ..g }, json, quiet);
        lemma_flags_stay(words, i + 1, Globals { quiet: true, ..g }, json, quiet);
        if i + 1 < words.len() {
            if let Some(n) = crate::cli::word_number(words[i + 1]) {
                lemma_flags_stay(words, i + 2, Globals { limit: n, ..g }, json, quiet);
            }
            lemma_flags_stay(
                words,
                i + 2,
                Globals { workspace: Some(words[i + 1]), ..g },
                json,
                quiet,
            );
        }
    }
}

/// The same is asked for, but for the two flags.
pub open spec fn asks_alike(
    a: Result<Request, CliError>,
    b: Result<Request, CliError>,
    json: bool,
    quiet: bool,
) -> bool {
    match (a, b) {
        (Ok(Request::Run(x)), Ok(Request::Run(y))) => {
            &&& y.json == (x.json || json)
            &&& y.quiet == (x.quiet || quiet)
            &&& y.limit == x.limit
            &&& crate::snapshot::opt_text(y.workspace) == crate::snapshot::opt_text(x.workspace)
            &&& y.command@ == x.command@
        },
        (Ok(Request::Version), Ok(Request::Version)) => true,
        (Err(_), Err(_)) => true,
        _ => false,
    }
}

/// `--json` before a command line asks for the same in JSON, and `--quiet` for the
/// same without chatter.
pub proof fn law_flags_before_a_command_line(
    args: Vec<String>,
    with_json: Vec<String>,
    with_quiet: Vec<String>,
    r: Result<Request, CliError>,
    json: Result<Request, CliError>,
    quiet: Result<Request, CliError>,
)
    requires
        asks_no_help(texts(args@)),
        texts(with_json@) == seq!["--json"@] + texts(args@),
        texts(with_quiet@) == seq!["--quiet"@] + texts(args@),
        call_ensures(parse_cli, (&args,), r),
        call_ensures(parse_cli, (&with_json,), json),
        call_ensures(parse_cli, (&with_quiet,), quiet),
    ensures
        asks_alike(r, json, true, false),
        asks_alike(r, quiet, false, true),
{
    let words = texts(args@);
    lemma_words();
    lemma_added_word("--json"@, words);
    lemma_added_word("--quiet"@, words);
    let g = no_globals();
    lemma_globals_behind(seq!["--json"@], words, 0, Globals { json: true, ..g });
    lemma_globals_behind(seq!["--quiet"@], words, 0, Globals { quiet: true, ..g });
    lemma_flags_stay(words, 0, g, true, false);
    lemma_flags_stay(words, 0, g, false, true);
    assert(texts(with_json@)[0] == "--json"@);
    assert(texts(with_quiet@)[0] == "--quiet"@);
}

/// `--limit` and `--workspace` before a command set what they say: so many rows,
/// at least one, and that workspace.
pub proof fn law_values_before_a_command(
    words: Words,
    n: nat,
    name: Seq<char>,
    limited: Vec<String>,
    named: Vec<String>,
    limit: Result<Request, CliError>,
    workspace: Result<Request, CliError>,
    a: Cli,
    b: Cli,
)
    requires
        asks_no_help(words),
        !is_global(words[0]),
        name != "-h"@,
        name != "--help"@,
        n <= usize::MAX,
        texts(limited@) == seq!["--limit"@, decimal(n)] + words,
        texts(named@) == seq!["--workspace"@, name] + words,
        call_ensures(parse_cli, (&limited,), limit),
        call_ensures(parse_cli, (&named,), workspace),
    ensures
        limit == Ok::<Request, CliError>(Request::Run(a)) ==> {
            &&& a.limit == vstd::math::max(n as int, 1)
            &&& !a.json && !a.quiet && a.workspace is None
            &&& command_words(words) == Ok::<CommandView, Seq<char>>(a.command@)
        },
        workspace == Ok::<Request, CliError>(Request::Run(b)) ==> {
            &&& b.workspace is Some && b.workspace->0@ == name
            &&& !b.json && !b.quiet && b.limit == 40
            &&& command_words(words) == Ok::<CommandView, Seq<char>>(b.command@)
        },
        command_words(words) is Ok <==> limit is Ok,
        command_words(words) is Ok <==> workspace is Ok,
{
    lemma_words();
    lemma_number_is_a_choice(n);
    lemma_decimal(n);
    let g = no_globals();
    let first = seq!["--limit"@, decimal(n)];
    let second = seq!["--workspace"@, name];
    assert(crate::numbers::is_digit(decimal(n)[0]));
    lemma_added_word(decimal(n), words);
    lemma_added_word("--limit"@, seq![decimal(n)] + words);
    assert(first + words =~= seq!["--limit"@] + (seq![decimal(n)] + words));
    lemma_added_word(name, words);
    lemma_added_word("--workspace"@, seq![name] + words);
    assert(second + words =~= seq!["--workspace"@] + (seq![name] + words));
    lemma_globals_behind(first, words, 0, Globals { limit: n as usize, ..g });
    lemma_globals_behind(second, words, 0, Globals { workspace: Some(name), ..g });
    assert(words.skip(0) =~= words);
    assert(texts(limited@)[0] == "--limit"@ && texts(limited@)[1] == decimal(n));
    assert(texts(named@)[0] == "--workspace"@ && texts(named@)[1] == name);
}

/// A command alone is read as itself, with nothing else set.
pub proof fn law_commands_are_read(args: Vec<String>, r: Result<Request, CliError>, cli: Cli)
    requires
        asks_no_help(texts(args@)),
        call_ensures(parse_cli, (&args,), r),
        r == Ok::<Request, CliError>(Request::Run(cli)),
    ensures
        ({
            let first = texts(args@)[0];
            &&& first == "summary"@ ==> cli.command@ == CommandView::Summary
            &&& first == "files"@ ==> cli.command@ == CommandView::Files
            &&& first == "folders"@ ==> cli.command@ == CommandView::Folders
            &&& first == "browse"@ ==> cli.command@ == CommandView::Browse
            &&& first == "status"@ ==> cli.command@ == CommandView::Status
            &&& first == "scan"@ ==> cli.command@ is Scan
            &&& first == "open"@ ==> cli.command@ is Open
            &&& first == "config"@ ==> cli.command@ is Config
            &&& !is_global(first) ==> !cli.json && !cli.quiet && cli.limit == 40
                && cli.workspace is None
        }),
{
    let words = texts(args@);
    lemma_words();
    assert(words.skip(0) =~= words);
    lemma_scan_is_scan(words.skip(1), 0, Seq::empty(), None, false);
    lemma_config_is_config(words.skip(1), 0, None, false);
}

proof fn lemma_scan_is_scan(words: Words, i: int, paths: Words, top: Option<usize>, force: bool)
    ensures
        scan_words(words, i, paths, top, force) matches Ok(c) ==> c is Scan,
    decreases words.len() - i,
{
    if i < words.len() {
        lemma_scan_is_scan(words, i + 1, paths, top, true);
        lemma_scan_is_scan(words, i + 1, paths.push(words[i]), top, force);
        if i + 1 < words.len() {
            if let Some(n) = crate::cli::word_number(words[i + 1]) {
                lemma_scan_is_scan(words, i + 2, paths, Some(n), force);
            }
        }
    }
}

proof fn lemma_config_is_config(words: Words, i: int, days: Option<u64>, init: bool)
    ensures
        crate::cli::config_words(words, i, days, init) matches Ok(c) ==> c is Config,
    decreases words.len() - i,
{
    if i < words.len() {
        lemma_config_is_config(words, i + 1, days, true);
        if i + 1 < words.len() {
            if let Some(n) = crate::cli::long_number(words[i + 1]) {
                lemma_config_is_config(words, i + 2, Some(n), init);
            }
        }
    }
}

proof fn lemma_scan_paths(words: Words, i: int, paths: Words, top: Option<usize>, force: bool)
    requires
        0 <= i <= words.len(),
        !words.contains("--force"@),
        !words.contains("--top"@),
    ensures
        scan_words(words, i, paths, top, force) == Ok::<CommandView, Seq<char>>(
            CommandView::Scan { paths: paths + words.skip(i), top, force },
        ),
    decreases words.len() - i,
{
    if i < words.len() {
        assert(words.contains(words[i]));
        lemma_scan_paths(words, i + 1, paths.push(words[i]), top, force);
        assert(paths.push(words[i]) + words.skip(i + 1) =~= paths + words.skip(i));
    } else {
        assert(paths + words.skip(i) =~= paths);
    }
}

/// What follows `scan` are the paths to scan, in their order; `--force` before
/// them forces the scan, and `--top` says how much it keeps.
pub proof fn law_scan_takes_paths(
    paths: Words,
    n: nat,
    plain: Vec<String>,
    forced: Vec<String>,
    topped: Vec<String>,
    a: Result<Request, CliError>,
    b: Result<Request, CliError>,
    c: Result<Request, CliError>,
)
    requires
        !paths.contains("--force"@),
        !paths.contains("--top"@),
        !paths.contains("-h"@),
        !paths.contains("--help"@),
        n <= usize::MAX,
        texts(plain@) == seq!["scan"@] + paths,
        texts(forced@) == seq!["scan"@, "--force"@] + paths,
        texts(topped@) == seq!["scan"@, "--top"@, decimal(n)] + paths,
        call_ensures(parse_cli, (&plain,), a),
        call_ensures(parse_cli, (&forced,), b),
        call_ensures(parse_cli, (&topped,), c),
    ensures
        runs(a, CommandView::Scan { paths, top: None, force: false }),
        runs(b, CommandView::Scan { paths, top: None, force: true }),
        runs(c, CommandView::Scan { paths, top: Some(n as usize), force: false }),
{
    lemma_words();
    lemma_number_is_a_choice(n);
    lemma_decimal(n);
    assert(crate::numbers::is_digit(decimal(n)[0]));
    let empty = Seq::<Seq<char>>::empty();
    let x = texts(plain@);
    let y = texts(forced@);
    let z = texts(topped@);
    assert(x.skip(1) =~= paths);
    assert(y.skip(2) =~= paths);
    assert(z.skip(3) =~= paths);
    lemma_scan_help(x, 1, paths);
    lemma_scan_help(y, 2, paths);
    lemma_scan_help(z, 3, paths);
    lemma_scan_paths(paths, 0, empty, None, false);
    assert(empty + paths.skip(0) =~= paths);
    assert(y.skip(1) =~= seq!["--force"@] + paths);
    lemma_scan_behind(seq!["--force"@], paths, 0, empty, None, true);
    lemma_scan_paths(paths, 0, empty, None, true);
    assert(y.skip(1)[0] == "--force"@);
    assert(z.skip(1) =~= seq!["--top"@, decimal(n)] + paths);
    lemma_scan_behind(seq!["--top"@, decimal(n)], paths, 0, empty, Some(n as usize), false);
    lemma_scan_paths(paths, 0, empty, Some(n as usize), false);
    assert(z.skip(1)[0] == "--top"@ && z.skip(1)[1] == decimal(n));
    assert(x.skip(0) =~= x && y.skip(0) =~= y && z.skip(0) =~= z);
    assert(x[0] == "scan"@ && y[0] == "scan"@ && z[0] == "scan"@);
}

proof fn lemma_scan_help(words: Words, heads: int, paths: Words)
    requires
        0 < heads <= words.len(),
        words.skip(heads) == paths,
        forall|k: int| 0 <= k < heads ==> #[trigger] words[k] != "-h"@ && words[k] != "--help"@,
        !paths.contains("-h"@),
        !paths.contains("--help"@),
    ensures
        asks_no_help(words),
{
    assert forall|k: int| 0 <= k < words.len() implies words[k] != "-h"@ && words[k] != "--help"@ by {
        if k >= heads {
            assert(paths[k - heads] == words[k]);
            assert(paths.contains(paths[k - heads]));
        }
    }
}

proof fn lemma_scan_behind(
    head: Words,
    words: Words,
    i: int,
    paths: Words,
    top: Option<usize>,
    force: bool,
)
    requires
        0 <= i <= words.len(),
    ensures
        scan_words(head + words, head.len() + i, paths, top, force) == scan_words(
            words,
            i,
            paths,
            top,
            force,
        ),
    decreases words.len() - i,
{
    let all = head + words;
    let at = head.len() + i;
    if i < words.len() {
        assert(all[at] == words[i]);
        lemma_scan_behind(head, words, i + 1, paths, top, true);
        lemma_scan_behind(head, words, i + 1, paths.push(words[i]), top, force);
        if i + 1 < words.len() {
            assert(all[at + 1] == words[i + 1]);
            if let Some(n) = crate::cli::word_number(words[i + 1]) {
                lemma_scan_behind(head, words, i + 2, paths, Some(n), force);
            }
        }
    }
}

/// This command is run with no global option set.
pub open spec fn runs(r: Result<Request, CliError>, command: CommandView) -> bool {
    r matches Ok(Request::Run(cli)) && cli.command@ == command && !cli.json && !cli.quiet
        && cli.limit == 40 && cli.workspace is None
}

/// `open` takes a kind and a number, `cache mark-removed` a kind, a path and a
/// confirmation, without which it is refused, and `workspace` a name.
pub proof fn law_command_arguments(
    n: nat,
    path: Seq<char>,
    name: Seq<char>,
    open: Vec<String>,
    mark: Vec<String>,
    unconfirmed: Vec<String>,
    create: Vec<String>,
    switch: Vec<String>,
    a: Result<Request, CliError>,
    b: Result<Request, CliError>,
    c: Result<Request, CliError>,
    d: Result<Request, CliError>,
    e: Result<Request, CliError>,
)
    requires
        n <= usize::MAX,
        path != "-h"@,
        path != "--help"@,
        name != "-h"@,
        name != "--help"@,
        texts(open@) == seq!["open"@, "folder"@, decimal(n)],
        texts(mark@) == seq!["cache"@, "mark-removed"@, "file"@, "--path"@, path, "--yes"@],
        texts(unconfirmed@) == seq!["cache"@, "mark-removed"@, "file"@, "--path"@, path],
        texts(create@) == seq!["workspace"@, "create"@, name],
        texts(switch@) == seq!["workspace"@, "use"@, name],
        call_ensures(parse_cli, (&open,), a),
        call_ensures(parse_cli, (&mark,), b),
        call_ensures(parse_cli, (&unconfirmed,), c),
        call_ensures(parse_cli, (&create,), d),
        call_ensures(parse_cli, (&switch,), e),
    ensures
        runs(a, CommandView::Open { target: NavigationTarget::Folder, index: n as usize }),
        runs(b, CommandView::MarkRemoved { target: NavigationTarget::File, path }),
        c is Err,
        runs(d, CommandView::WorkspaceCreate { name }),
        runs(e, CommandView::WorkspaceUse { name }),
{
    lemma_words();
    lemma_number_is_a_choice(n);
    lemma_decimal(n);
    assert(crate::numbers::is_digit(decimal(n)[0]));
    reveal_strlit("files");
    let v = texts(open@);
    let w = texts(mark@);
    let x = texts(unconfirmed@);
    let y = texts(create@);
    let z = texts(switch@);
    assert(v.skip(0) =~= v && w.skip(0) =~= w && x.skip(0) =~= x && y.skip(0) =~= y && z.skip(0)
        =~= z);
    assert(v.skip(1) =~= seq!["folder"@, decimal(n)]);
    let m = w.skip(1);
    assert(m =~= seq!["mark-removed"@, "file"@, "--path"@, path, "--yes"@]);
    reveal_with_fuel(crate::cli::mark_words, 4);
    let k = x.skip(1);
    assert(k =~= seq!["mark-removed"@, "file"@, "--path"@, path]);
    assert(y.skip(1) =~= seq!["create"@, name]);
    assert(z.skip(1) =~= seq!["use"@, name]);
}

// ---------------------------------------------------------------------------
// Printed lines
// ---------------------------------------------------------------------------

/// The lines hold this one.
pub open spec fn says(lines: Vec<String>, line: Seq<char>) -> bool {
    texts(lines@).contains(line)
}

proof fn lemma_added<T>(x: Seq<T>, y: Seq<T>, a: T)
    ensures
        x.contains(a) ==> (x + y).contains(a),
        y.contains(a) ==> (x + y).contains(a),
{
    if x.contains(a) {
        let i = choose|i: int| 0 <= i < x.len() && x[i] == a;
        assert((x + y)[i] == a);
    }
    if y.contains(a) {
        let i = choose|i: int| 0 <= i < y.len() && y[i] == a;
        assert((x + y)[x.len() + i] == a);
    }
}

/// What stands in one part of the status stands in the status.
proof fn lemma_status_part(s: Status, a: Seq<char>)
    ensures
        ({
            let all = status_lines(s);
            &&& freshness_lines(s).contains(a) ==> all.contains(a)
            &&& cache_lines(s).contains(a) ==> all.contains(a)
            &&& scope_lines(s).contains(a) ==> all.contains(a)
            &&& inventory_lines(s).contains(a) ==> all.contains(a)
            &&& cleanup_lines(s.manual_cleanups).contains(a) ==> all.contains(a)
            &&& savings_lines(s.cache_savings).contains(a) ==> all.contains(a)
            &&& rules_lines(s.category_rules).contains(a) ==> all.contains(a)
        }),
{
    let b = freshness_lines(s) + cache_lines(s);
    let c = b + scope_lines(s);
    let d = c + inventory_lines(s);
    let e = d + cleanup_lines(s.manual_cleanups);
    let f = e + savings_lines(s.cache_savings);
    let g = f + rules_lines(s.category_rules);
    lemma_added(freshness_lines(s), cache_lines(s), a);
    lemma_added(b, scope_lines(s), a);
    lemma_added(c, inventory_lines(s), a);
    lemma_added(d, cleanup_lines(s.manual_cleanups), a);
    lemma_added(e, savings_lines(s.cache_savings), a);
    lemma_added(f, rules_lines(s.category_rules), a);
    lemma_added(g, speed_lines(s.scan_stats), a);
}

/// The printed status says of the scan when it was made, how old it is and
/// whether it is stale, what it holds and how much of the drive that is, what was
/// removed by hand and what the cache has saved.
pub proof fn law_printed_status(s: &Status, r: Vec<String>)
    requires
        call_ensures(print_status, (s,), r),
    ensures
        says(r, "  scanned at: "@ + s.scanned_at_utc@),
        says(
            r,
            "  age: "@ + decimal(s.stale.age_days as nat) + " days"@ + if s.stale.is_stale {
                " (stale)"@
            } else {
                ""@
            },
        ),
        s.stale_at_utc is Some ==> says(r, "  stale on: "@ + s.stale_at_utc->0@),
        says(r, "  workspace: "@ + s.workspace@),
        says(r, "  snapshot: "@ + s.snapshot_path@),
        says(r, "  base snapshot: "@ + s.base_snapshot_path@),
        s.cache_mode == CacheMode::BaseScan ==> says(r, "  cache mode: "@ + "base scan"@),
        s.cache_mode == CacheMode::PresentTracked ==> says(
            r,
            "  cache mode: "@ + "present as tracked"@,
        ),
        says(
            r,
            "  total on disk: "@ + crate::sizes::size_text(s.total_allocated_bytes as nat),
        ),
        s.total_allocated_bytes != s.total_bytes ==> says(
            r,
            "  logical size: "@ + crate::sizes::size_text(s.total_bytes as nat),
        ),
        s.total_capacity_bytes is Some ==> says(
            r,
            "  drive capacity: "@ + crate::sizes::size_text(s.total_capacity_bytes->0 as nat),
        ),
        says(r, "  files: "@ + decimal(s.file_count as nat)),
        says(r, "  folders: "@ + decimal(s.folder_count as nat)),
        says(r, "  skipped: "@ + decimal(s.skipped_count as nat)),
        says(r, "  access denied: "@ + decimal(s.access_denied_count as nat)),
        says(
            r,
            "  manual cleanups: "@ + decimal(s.manual_cleanups.events as nat) + " event(s), "@
                + decimal(s.manual_cleanups.removed_files as nat) + " file(s), "@ + decimal(
                s.manual_cleanups.removed_folders as nat,
            ) + " folder(s), "@ + s.manual_cleanups.human_on_disk@ + " on disk"@,
        ),
        says(r, "  avoided readouts: "@ + decimal(s.cache_savings.counted_readouts as nat)),
        says(
            r,
            "  cache navigations: "@ + decimal(s.cache_savings.cache_navigation_count as nat),
        ),
        (s.category_rules matches Some(c) && c.changed_since_scan == Some(true)) ==> says(
            r,
            "  category rules: "@
                + "changed since scan; run dscan11 scan to refresh category totals"@,
        ),
        (s.category_rules matches Some(c) && c.changed_since_scan == Some(false)) ==> says(
            r,
            "  category rules: "@ + "unchanged"@,
        ),
{
    assert forall|a: Seq<char>|
        freshness_lines(*s).contains(a) || cache_lines(*s).contains(a) || scope_lines(*s).contains(
            a,
        ) || inventory_lines(*s).contains(a) || cleanup_lines(s.manual_cleanups).contains(a)
            || savings_lines(s.cache_savings).contains(a) || rules_lines(s.category_rules).contains(
            a,
        ) implies #[trigger] texts(r@).contains(a) by {
        lemma_status_part(*s, a);
    }
    let f = freshness_lines(*s);
    assert(f.contains(f[6]) && f.contains(f[7]) && f.contains(f[9]));
    let c = cache_lines(*s);
    assert(c.contains(c[1]) && c.contains(c[2]) && c.contains(c[4]) && c.contains(c[5]));
    let v = inventory_lines(*s);
    assert(v.contains(v[1]) && v.contains(v[2]) && v.contains(v[3]) && v.contains(v[4]));
    let m = cleanup_lines(s.manual_cleanups);
    assert(m.contains(m[1]));
    let w = savings_lines(s.cache_savings);
    assert(w.contains(w[1]) && w.contains(w[3]));
    let d = scope_lines(*s);
    assert(d.contains(d[1]) && d.contains(d[2]) && d.contains(d[d.len() - 2]));
    if let Some(k) = s.category_rules {
        let u = rules_lines(s.category_rules);
        assert(u.contains(u[1]));
    }
}

/// The printed report has a line for each finding, with its severity, path and
/// message, and says how many there are.
pub proof fn law_printed_report(report: &AuditReport, r: Vec<String>, i: int)
    requires
        call_ensures(crate::audit::print_audit_report, (report,), r),
        0 <= i < report.alerts@.len(),
    ensures
        says(r, "  alerts: "@ + decimal(report.alerts@.len())),
        ({
            let a = report.alerts@[i];
            let word = match a.severity {
                AuditSeverity::Info => "Info"@,
                AuditSeverity::Warning => "Warning"@,
                AuditSeverity::Alert => "Alert"@,
            };
            says(r, "  ["@ + word + "] "@ + a.path@ + ": "@ + a.message@)
        }),
{
    let head = crate::audit::report_head(*report);
    let alerts = crate::audit::report_alerts(report.alerts@);
    let folders = crate::audit::report_folders(report.largest_folders@);
    let a = head[5];
    let b = alerts[2 + i];
    assert(head.contains(a));
    assert(alerts.contains(b));
    lemma_added(head, alerts, a);
    lemma_added(head, alerts, b);
    lemma_added(head + alerts, folders, a);
    lemma_added(head + alerts, folders, b);
}

/// The cleanup list numbers the records in their order, and says of each what was
/// removed.
pub proof fn law_printed_cleanups(
    entries: &Vec<CleanupJournalEntry>,
    r: Vec<String>,
    n: int,
)
    requires
        call_ensures(print_cleanup_journal, (entries,), r),
        1 <= n <= entries@.len(),
    ensures
        r@.len() == entries@.len() + 1,
        ({
            let e = entries@[n - 1];
            r@[n]@ == "  "@ + decimal(n as nat) + ". "@ + e.timestamp.utc@ + " "@ + e.path@ + " ("@
                + e.human_on_disk@ + ", "@ + decimal(e.removed_files as nat) + " file(s), "@
                + decimal(e.removed_folders as nat) + " folder(s))"@
        }),
{
    assert(texts(r@).len() == r@.len());
    assert(texts(r@)[n] == r@[n]@);
}

// ---------------------------------------------------------------------------
// Audit rules
// ---------------------------------------------------------------------------

proof fn lemma_front(s: Seq<char>, kind: spec_fn(char) -> bool)
    ensures
        trim_front(s, kind).len() == 0 <==> forall|i: int|
            0 <= i < s.len() ==> kind(#[trigger] s[i]),
        trim_front(s, kind).len() > 0 ==> !kind(trim_front(s, kind)[0]),
    decreases s.len(),
{
    if s.len() > 0 && kind(s[0]) {
        let rest = s.drop_first();
        lemma_front(rest, kind);
        if forall|i: int| 0 <= i < rest.len() ==> kind(#[trigger] rest[i]) {
            assert forall|i: int| 0 <= i < s.len() implies kind(#[trigger] s[i]) by {
                if i > 0 {
                    assert(rest[i - 1] == s[i]);
                }
            }
        }
        if forall|i: int| 0 <= i < s.len() ==> kind(#[trigger] s[i]) {
            assert forall|i: int| 0 <= i < rest.len() implies kind(#[trigger] rest[i]) by {
                assert(rest[i] == s[i + 1]);
            }
        }
    }
}

proof fn lemma_back(s: Seq<char>, kind: spec_fn(char) -> bool)
    requires
        s.len() > 0,
        !kind(s[0]),
    ensures
        trim_back(s, kind).len() > 0,
    decreases s.len(),
{
    if kind(s.last()) {
        assert(s.drop_last()[0] == s[0]);
        lemma_back(s.drop_last(), kind);
    }
}

proof fn lemma_blank(s: Seq<char>)
    ensures
        trim(s).len() == 0 <==> forall|i: int|
            0 <= i < s.len() ==> crate::text::is_white(#[trigger] s[i]),
{
    let kind = |c: char| crate::text::is_white(c);
    lemma_front(s, kind);
    let rest = trim_front(s, kind);
    if rest.len() > 0 {
        lemma_back(rest, kind);
    }
    assert((forall|i: int| 0 <= i < s.len() ==> kind(#[trigger] s[i])) <==> (forall|i: int|
        0 <= i < s.len() ==> crate::text::is_white(#[trigger] s[i]))) by {
        if forall|i: int| 0 <= i < s.len() ==> kind(#[trigger] s[i]) {
            assert forall|i: int| 0 <= i < s.len() implies crate::text::is_white(
                #[trigger] s[i],
            ) by {
                assert(kind(s[i]));
            }
        }
    }
}

/// A path that a project may have: it holds something but white space, begins
/// with no slash and has no two dots in a row.
pub open spec fn usable_path(path: Seq<char>) -> bool {
    &&& exists|i: int| 0 <= i < path.len() && !crate::text::is_white(#[trigger] path[i])
    &&& !is_sep(path[0])
    &&& forall|i: int|
        0 <= i < path.len() - 1 ==> !(#[trigger] path[i] == '.' && path[i + 1] == '.')
}

/// A limit that may be set: none, or a number that is finite and not negative.
pub open spec fn usable_limit(limit: Option<Double>) -> bool {
    limit matches Some(mb) ==> mb.amount()
}

proof fn lemma_usable_path(path: Seq<char>)
    ensures
        ({
            let key = project_key(path);
            usable_path(path) <==> trim(path).len() > 0 && !has_part(key, ".."@)
                && !crate::text::begins(key, "/"@)
        }),
{
    let key = project_key(path);
    lemma_blank(path);
    reveal_strlit("..");
    reveal_strlit("/");
    assert(key.len() == path.len());
    assert forall|i: int| 0 <= i < path.len() implies (key[i] == '.' <==> path[i] == '.') && (key[i]
        == '/' <==> is_sep(path[i])) by {}
    if has_part(key, ".."@) {
        let at = choose|at: int| #[trigger] crate::text::part_at(key, ".."@, at);
        let part = key.subrange(at, at + 2);
        assert(part[0] == key[at] && part[1] == key[at + 1]);
        assert(".."@[0] == '.' && ".."@[1] == '.');
        assert(path[at] == '.' && path[at + 1] == '.');
    }
    if exists|i: int|
        0 <= i < path.len() - 1 && (#[trigger] path[i] == '.' && path[i + 1] == '.') {
        let i = choose|i: int|
            0 <= i < path.len() - 1 && (#[trigger] path[i] == '.' && path[i + 1] == '.');
        assert(key.subrange(i, i + 2) =~= ".."@);
        assert(crate::text::part_at(key, ".."@, i));
    }
    if path.len() > 0 {
        if crate::text::begins(key, "/"@) {
            assert(key.subrange(0, 1)[0] == key[0]);
            assert("/"@[0] == '/');
        }
        if is_sep(path[0]) {
            assert(key.subrange(0, 1) =~= "/"@);
        }
    }
}

proof fn lemma_projects_usable(projects: Seq<AuditProjectRule>, from: int)
    requires
        0 <= from <= projects.len(),
    ensures
        crate::audit_rules::projects_refused(projects, from) is None <==> forall|i: int|
            from <= i < projects.len() ==> crate::audit_rules::project_refused(
                #[trigger] projects[i],
            ) is None,
    decreases projects.len() - from,
{
    if from < projects.len() {
        lemma_projects_usable(projects, from + 1);
        if forall|i: int|
            from <= i < projects.len() ==> crate::audit_rules::project_refused(
                #[trigger] projects[i],
            ) is None {
            assert(crate::audit_rules::project_refused(projects[from]) is None);
        }
    }
}

/// Audit rules are accepted exactly where their schema is known, each project has
/// a usable path and usable limits, and the defaults are usable; then as many
/// rules are counted as there are projects.
pub proof fn law_accepted_audit_rules(
    rules: &AuditRules,
    r: Result<AuditRulesValidation, CliError>,
)
    requires
        call_ensures(validate_audit_rules, (rules,), r),
    ensures
        r is Ok <==> {
            &&& rules.schema_version matches Some(v) ==> v <= 1
            &&& forall|i: int|
                0 <= i < rules.projects@.len() ==> {
                    let p = #[trigger] rules.projects@[i];
                    usable_path(p.path@) && usable_limit(p.max_size_mb) && usable_limit(
                        p.max_git_size_mb,
                    ) && usable_limit(p.growth_alert_mb)
                }
            &&& usable_limit(rules.default_thresholds.max_size_mb)
            &&& usable_limit(rules.default_thresholds.max_git_size_mb)
            &&& usable_limit(rules.default_thresholds.growth_alert_mb)
        },
        r is Ok ==> r->Ok_0.valid && r->Ok_0.rule_count == rules.projects@.len(),
{
    lemma_projects_usable(rules.projects@, 0);
    assert forall|i: int| 0 <= i < rules.projects@.len() implies ({
        let p = #[trigger] rules.projects@[i];
        crate::audit_rules::project_refused(p) is None <==> usable_path(p.path@) && usable_limit(
            p.max_size_mb,
        ) && usable_limit(p.max_git_size_mb) && usable_limit(p.growth_alert_mb)
    }) by {
        lemma_usable_path(rules.projects@[i].path@);
    }
}

/// A heading of an inventory names the folder between its accents.
pub proof fn law_inventory_headings(line: &str, name: Seq<char>, r: Option<String>)
    requires
        call_ensures(parse_inventory_heading, (line,), r),
        line@ == "### `"@ + name + "`"@,
        forall|i: int| 0 <= i < name.len() ==> #[trigger] name[i] != '`',
        name != "### "@,
    ensures
        r is Some && r->0@ == name,
{
    reveal_strlit("### `");
    reveal_strlit("### ");
    reveal_strlit("`");
    let s = line@;
    let white = |c: char| crate::text::is_white(c);
    assert(s[0] == '#');
    assert(s.last() == '`');
    assert(trim_front(s, white) == s);
    assert(trim_back(s, white) == s);
    let head = "### `"@;
    assert(s.subrange(0, 5) =~= head);
    let rest = name + "`"@;
    assert(s.skip(5) =~= rest);
    if crate::text::begins(rest, head) {
        assert(rest.subrange(0, 5) == head);
        assert(rest.subrange(0, 5)[4] == rest[4]);
        assert(head[4] == '`');
        if name.len() > 4 {
            assert(name[4] == rest[4]);
        }
        assert(name.len() == 4) by {
            if name.len() < 4 {
                assert(rest.len() < 5);
            }
        }
        assert(name =~= "### "@) by {
            assert forall|i: int| 0 <= i < 4 implies name[i] == "### "@[i] by {
                assert(rest.subrange(0, 5)[i] == rest[i]);
                assert(head[i] == "### "@[i]);
            }
        }
    }
    assert(head.len() == 5);
    assert(crate::text::begins(s, head));
    assert(crate::audit_rules::without_heads(rest, head) == rest);
    assert(crate::audit_rules::without_heads(s, head) == rest);
    assert(trim(s) == s);
    assert(rest[name.len() as int] == '`');
    assert forall|i: int| 0 <= i < name.len() implies #[trigger] rest[i] != '`' by {
        assert(rest[i] == name[i]);
    }
    lemma_accent(rest, 0, name.len() as int);
    assert(rest.take(name.len() as int) =~= name);
}

proof fn lemma_accent(s: Seq<char>, from: int, at: int)
    requires
        0 <= from <= at < s.len(),
        s[at] == '`',
        forall|i: int| from <= i < at ==> #[trigger] s[i] != '`',
    ensures
        crate::audit_rules::accent_at(s, from) == at,
    decreases at - from,
{
    if from < at {
        assert(s[from] != '`');
        lemma_accent(s, from + 1, at);
    }
}

// ---------------------------------------------------------------------------
// Spelling of extensions
// ---------------------------------------------------------------------------

proof fn lemma_no_trim(s: Seq<char>)
    requires
        s.len() > 0,
        !crate::text::is_white(s[0]),
        !crate::text::is_white(s.last()),
    ensures
        trim(s) == s,
{
    let white = |c: char| crate::text::is_white(c);
    assert(trim_front(s, white) == s);
    assert(trim_back(s, white) == s);
}

/// An extension is compared without regard to case and to a dot before it, and a
/// plain one in lower case is compared as it stands.
pub proof fn law_spelling_of_extensions(
    plain: &str,
    dotted: &str,
    other: &str,
    x: String,
    y: String,
    z: String,
)
    requires
        call_ensures(normalize_extension, (plain,), x),
        call_ensures(normalize_extension, (dotted,), y),
        call_ensures(normalize_extension, (other,), z),
        plain@.len() > 0,
        !crate::text::is_white(plain@[0]),
        !crate::text::is_white(plain@.last()),
        plain@[0] != '.',
        dotted@ == seq!['.'] + plain@,
        reads_as(other@, plain@),
    ensures
        x@ == y@,
        x@ == z@,
        reads_as(x@, plain@),
        forall|i: int| 0 <= i < x@.len() ==> !('A' <= #[trigger] x@[i] && x@[i] <= 'Z'),
{
    let dot = |c: char| c == '.';
    lemma_no_trim(plain@);
    assert(dotted@[0] == '.' && dotted@.last() == plain@.last());
    lemma_no_trim(dotted@);
    assert(trim_front(plain@, dot) == plain@);
    assert(dotted@.drop_first() =~= plain@);
    assert(trim_front(dotted@, dot) == trim_front(plain@, dot));
    law_same_up_to_case(other@, plain@);
    let o = other@;
    assert(o[0] == plain@[0] || crate::text::letter_pair(o[0], plain@[0]));
    let n = o.len() - 1;
    assert(o[n] == plain@[n] || crate::text::letter_pair(o[n], plain@[n]));
    lemma_no_trim(o);
    assert(trim_front(o, dot) == o);
    law_same_up_to_case(x@, plain@);
    assert(x@ == crate::text::lower(plain@));
    assert(crate::text::lower(x@) =~= crate::text::lower(plain@)) by {
        assert forall|i: int| 0 <= i < x@.len() implies crate::text::lower(x@)[i]
            == crate::text::lower(plain@)[i] by {
            law_case_is_of_letters(plain@[i], x@[i]);
        }
    }
    assert forall|i: int| 0 <= i < x@.len() implies !('A' <= #[trigger] x@[i] && x@[i] <= 'Z') by {
        assert(x@[i] == crate::text::lower_char(plain@[i]));
    }
}

} // verus!
