//! What is listed, recorded and kept, stated of the calls that do so.
use crate::audit_rules::{
    audit_rules_from_inventory, heading, inventory_folders, inventory_of, inventory_rule, AuditRules,
    Inventory,
};
use crate::browse::{after_open, OpenOutcome, Screen, ScreenView};
use crate::categories::{category_rules_status, CategoryRules, CategoryRulesStatus};
use crate::double::{mb_to_bytes, Double};
use crate::error::CliError;
use crate::journal::{
    cache_mode, journal_lines, numbered, record_cache_usage, written_lines, CacheMode,
    CacheUsageEventKind, CacheUsageJournalEntry, JournalLine,
};
use crate::navigate::{offer_prune_missing_entry, PruneOffer};
use crate::names::NameMap;
use crate::numbers::decimal;
use crate::order::{lemma_placed, lemma_sorted, placed, sorted, Order};
use crate::pathlaws::{
    law_file_counts_in_every_folder_above, law_parent_drops_the_last_name, lemma_parent_heads,
};
use crate::paths::{components, file_name, join, names, parent, under, PathStyle};
use crate::prune::{
    file_is_cached, folder_is_cached, law_removed_file_leaves_the_totals,
    law_removed_folder_leaves_the_totals, rest_of, NavigationTarget,
};
use crate::ratio::{format_percent, format_scope_percent, is_fraction};
use crate::roots::{discover_default_roots, drive_root, present_drives};
use crate::scan::{
    add_to_folder_rollups, capped_sum, check_scan_roots, first_false, folder_id, folder_map, merge_all,
    scan_paths_at, scan_views, PartialScan,
};
use crate::sizes::{human_rate, human_size, unit_name};
use crate::snapshot::{
    skipped_views, CategoryRank, CategoryTotal, FileRank, FolderRank, ScanStats, SizedEntry, Snapshot,
};
use crate::status::version_from;
use crate::table::{truncate_end, truncate_middle};
use crate::text::{law_same_up_to_case, lines, reads_as, text_before, text_lt, texts, trim};
use crate::toplist::{BySize, TopList};
use crate::views::{print_entry_details, print_summary, summary_head};
use crate::workspace::{
    archive_moves, archive_tracking_files, archived_as, first_clash, legacy_files, list_workspaces,
    migrate_legacy_cache, move_views, moves_before, CachePaths, MigrationPlan, WorkspaceRegistry,
    WorkspaceView,
};
use vstd::arithmetic::power2::{lemma_pow2_adds, lemma_pow2_pos, pow2};
use vstd::prelude::*;

verus! {

// ---------------------------------------------------------------------------
// Ranks
// ---------------------------------------------------------------------------

/// Of two texts the one comes first that has the smaller character where they
/// first differ; a text comes before every longer one that it begins.
pub proof fn law_text_order(
    head: Seq<char>,
    x: char,
    y: char,
    s: Seq<char>,
    t: Seq<char>,
)
    ensures
        x != y ==> (text_lt(head.push(x) + s, head.push(y) + t) <==> x < y),
        text_lt(head, head.push(x) + s),
        !text_lt(head.push(x) + s, head),
    decreases head.len(),
{
    let a = head.push(x) + s;
    let b = head.push(y) + t;
    if head.len() > 0 {
        let rest = head.drop_first();
        law_text_order(rest, x, y, s, t);
        assert(a.drop_first() =~= rest.push(x) + s);
        assert(b.drop_first() =~= rest.push(y) + t);
        assert(a[0] == head[0] && b[0] == head[0]);
    } else {
        assert(a[0] == x && b[0] == y);
    }
}

/// Whether a text comes before another is told by the first character in which
/// they differ.
pub proof fn law_first_difference_decides(a: &str, b: &str, i: int, r: bool)
    requires
        call_ensures(text_before, (a, b), r),
        0 <= i < a@.len(),
        i < b@.len(),
        a@[i] != b@[i],
        forall|k: int| 0 <= k < i ==> #[trigger] a@[k] == b@[k],
    ensures
        r <==> a@[i] < b@[i],
{
    let head = a@.take(i);
    law_text_order(head, a@[i], b@[i], a@.skip(i + 1), b@.skip(i + 1));
    assert(head.push(a@[i]) + a@.skip(i + 1) =~= a@);
    assert(head.push(b@[i]) + b@.skip(i + 1) =~= b@);
}

/// A file ranks before another where it is larger; a folder and a category
/// where they are larger on disk; what leaves a full list first is smaller.
pub proof fn law_larger_ranks_first(a: SizedEntry, b: SizedEntry, c: CategoryTotal, d: CategoryTotal)
    ensures
        a.bytes > b.bytes ==> FileRank::le(a, b) && !FileRank::le(b, a),
        a.allocated_bytes > b.allocated_bytes ==> FolderRank::le(a, b) && !FolderRank::le(b, a),
        a.allocated_bytes == b.allocated_bytes && a.bytes > b.bytes ==> FolderRank::le(a, b)
            && !FolderRank::le(b, a),
        c.allocated_bytes > d.allocated_bytes ==> CategoryRank::le(c, d) && !CategoryRank::le(d, c),
        c.allocated_bytes == d.allocated_bytes && c.bytes > d.bytes ==> CategoryRank::le(c, d)
            && !CategoryRank::le(d, c),
        a.bytes < b.bytes ==> BySize::le(a, b) && !BySize::le(b, a),
        a.bytes == b.bytes && a.allocated_bytes < b.allocated_bytes ==> BySize::le(a, b)
            && !BySize::le(b, a),
{
}

/// Whether an entry is in a list.
pub open spec fn holds(list: Seq<SizedEntry>, x: SizedEntry) -> bool {
    exists|i: int| 0 <= i < list.len() && #[trigger] list[i] == x
}

proof fn lemma_holds(list: Seq<SizedEntry>, x: SizedEntry)
    ensures
        holds(list, x) <==> list.to_multiset().count(x) > 0,
{
    broadcast use vstd::seq_lib::group_to_multiset_ensures;

    assert(list.contains(x) <==> list.to_multiset().count(x) > 0);
    if list.contains(x) {
        let i = list.index_of(x);
        assert(list[i] == x);
    }
    if holds(list, x) {
        let i = choose|i: int| 0 <= i < list.len() && #[trigger] list[i] == x;
        assert(list.contains(x));
    }
}

/// An entry that is offered to a list of the largest stays, unless the list is
/// full of entries at least as large; nothing that stays is smaller than what
/// leaves, and nothing else comes in.
pub proof fn law_offered_entry_stays_if_large(
    list: &mut TopList,
    entry: SizedEntry,
    x: SizedEntry,
)
    requires
        old(list).wf(),
        old(list).limit() > 0,
        call_ensures(TopList::push, (list, entry), ()),
    ensures
        holds(final(list).entries(), x) ==> x == entry || holds(old(list).entries(), x),
        old(list).entries().len() < old(list).limit() ==> final(list).entries().len()
            == old(list).entries().len() + 1 && (x == entry || holds(old(list).entries(), x)
            ==> holds(final(list).entries(), x)),
        old(list).entries().len() == old(list).limit() ==> final(list).entries().len()
            == old(list).limit(),
        (x == entry || holds(old(list).entries(), x)) && !holds(final(list).entries(), x)
            ==> forall|i: int|
            0 <= i < final(list).entries().len() ==> (
            #[trigger] final(list).entries()[i]).bytes >= x.bytes,
{
    broadcast use vstd::seq_lib::group_to_multiset_ensures;

    let kept = old(list).entries();
    let all = placed::<SizedEntry, BySize>(kept, entry);
    let now = final(list).entries();
    lemma_placed::<SizedEntry, BySize>(kept, entry);
    lemma_holds(kept, x);
    lemma_holds(all, x);
    lemma_holds(now, x);
    if all.len() > old(list).limit() {
        assert(now == all.drop_first());
        if holds(now, x) {
            let i = choose|i: int| 0 <= i < now.len() && #[trigger] now[i] == x;
            assert(all[i + 1] == x);
        }
        if holds(all, x) && !holds(now, x) {
            let k = choose|k: int| 0 <= k < all.len() && #[trigger] all[k] == x;
            if k > 0 {
                assert(now[k - 1] == x);
            }
            assert forall|i: int| 0 <= i < now.len() implies (#[trigger] now[i]).bytes
                >= x.bytes by {
                assert(now[i] == all[i + 1]);
                assert(BySize::le(all[0], all[i + 1]));
            }
        }
    }
}

/// The snapshot of a scan: its totals and what it says of the scan, the files
/// by their size, and the folders that are largest on disk. A folder is left
/// out only where as many as asked for are listed, none of them smaller.
pub proof fn law_what_a_snapshot_lists(
    roots: Vec<String>,
    scan: PartialScan,
    rules: &CategoryRules,
    top_limit: usize,
    capacity: Option<u64>,
    stats: ScanStats,
    now: u64,
    r: Snapshot,
    x: SizedEntry,
)
    requires
        scan.wf(),
        call_ensures(scan_paths_at, (roots, scan, rules, top_limit, capacity, stats, now), r),
    ensures
        r.scanned_at_unix == now,
        r.roots == roots,
        r.total_bytes == scan.total_bytes,
        r.total_allocated_bytes == scan.total_allocated_bytes,
        r.file_count == scan.file_count,
        r.folder_count == scan.folder_count,
        r.total_capacity_bytes == capacity,
        holds(r.largest_files@, x) <==> holds(scan.largest_files.entries(), x),
        forall|i: int, j: int|
            0 <= i < j < r.largest_files@.len() ==> (#[trigger] r.largest_files@[i]).bytes >= (
            #[trigger] r.largest_files@[j]).bytes,
        forall|i: int, j: int|
            0 <= i < j < r.largest_folders@.len() ==> (
            #[trigger] r.largest_folders@[i]).allocated_bytes >= (
            #[trigger] r.largest_folders@[j]).allocated_bytes,
        forall|i: int, j: int|
            0 <= i < j < r.categories@.len() ==> (#[trigger] r.categories@[i]).allocated_bytes >= (
            #[trigger] r.categories@[j]).allocated_bytes,
        r.categories@.to_multiset() == scan.categories.vals().to_multiset(),
        r.largest_folders@.len() == vstd::math::min(
            top_limit as int,
            scan.folder_sizes.vals().len() as int,
        ),
        holds(r.largest_folders@, x) ==> holds(scan.folder_sizes.vals(), x),
        holds(scan.folder_sizes.vals(), x) && !holds(r.largest_folders@, x)
            ==> r.largest_folders@.len() == top_limit && forall|i: int|
            0 <= i < r.largest_folders@.len() ==> (
            #[trigger] r.largest_folders@[i]).allocated_bytes >= x.allocated_bytes,
{
    let files = scan.largest_files.entries();
    let folders = scan.folder_sizes.vals();
    let all = sorted::<SizedEntry, FolderRank>(folders);
    lemma_sorted::<SizedEntry, FileRank>(files);
    lemma_sorted::<SizedEntry, FolderRank>(folders);
    lemma_sorted::<CategoryTotal, CategoryRank>(scan.categories.vals());
    lemma_holds(files, x);
    lemma_holds(r.largest_files@, x);
    lemma_holds(folders, x);
    lemma_holds(all, x);
    let listed = r.largest_folders@;
    assert forall|i: int| 0 <= i < listed.len() implies listed[i] == #[trigger] all[i] by {}
    assert forall|i: int, j: int| 0 <= i < j < r.largest_files@.len() implies (
    #[trigger] r.largest_files@[i]).bytes >= (#[trigger] r.largest_files@[j]).bytes by {
        assert(FileRank::le(r.largest_files@[i], r.largest_files@[j]));
    }
    assert forall|i: int, j: int| 0 <= i < j < listed.len() implies (
    #[trigger] listed[i]).allocated_bytes >= (#[trigger] listed[j]).allocated_bytes by {
        assert(FolderRank::le(all[i], all[j]));
    }
    assert forall|i: int, j: int| 0 <= i < j < r.categories@.len() implies (
    #[trigger] r.categories@[i]).allocated_bytes >= (
    #[trigger] r.categories@[j]).allocated_bytes by {
        assert(CategoryRank::le(r.categories@[i], r.categories@[j]));
    }
    if holds(listed, x) {
        let i = choose|i: int| 0 <= i < listed.len() && #[trigger] listed[i] == x;
        assert(all[i] == x);
    }
    if holds(folders, x) && !holds(listed, x) {
        let k = choose|k: int| 0 <= k < all.len() && #[trigger] all[k] == x;
        if k < listed.len() {
            assert(listed[k] == x);
        }
        assert forall|i: int| 0 <= i < listed.len() implies (#[trigger] listed[i]).allocated_bytes
            >= x.allocated_bytes by {
            assert(FolderRank::le(all[i], all[k]));
        }
    }
}

// ---------------------------------------------------------------------------
// Records
// ---------------------------------------------------------------------------

/// A use of the cache is recorded by the numbers of the last full scan, or of
/// the active snapshot where there is none; moving about in the cache is no
/// readout, everything else is.
pub proof fn law_use_is_recorded_by_its_basis(
    base: Result<Snapshot, CliError>,
    active: Result<Snapshot, CliError>,
    event: CacheUsageEventKind,
    basis: Snapshot,
    r: Result<CacheUsageJournalEntry, CliError>,
)
    requires
        call_ensures(record_cache_usage, (base, active, event), r),
        base == Ok::<Snapshot, CliError>(basis) || (base is Err && active == Ok::<
            Snapshot,
            CliError,
        >(basis)),
    ensures
        r matches Ok(entry) ==> {
            &&& entry.event == event
            &&& entry.basis_scanned_at_unix == basis.scanned_at_unix
            &&& entry.basis_total_bytes == basis.total_bytes
            &&& entry.basis_total_allocated_bytes == basis.total_allocated_bytes
            &&& entry.basis_file_count == basis.file_count
            &&& entry.basis_folder_count == basis.folder_count
            &&& entry.basis_elapsed_ms == basis.scan_stats.elapsed_ms
            &&& !entry.counts_as_readout <==> event is CacheNavigation
        },
{
}

/// Nothing is recorded where no snapshot can be read.
pub proof fn law_no_use_without_a_snapshot(
    base: Result<Snapshot, CliError>,
    cause: CliError,
    event: CacheUsageEventKind,
    r: Result<CacheUsageJournalEntry, CliError>,
)
    requires
        call_ensures(record_cache_usage, (base, Err(cause), event), r),
        base is Err,
    ensures
        r == Err::<CacheUsageJournalEntry, CliError>(cause),
{
}

proof fn lemma_written_lines(all: Seq<Seq<char>>, i: int)
    requires
        0 <= i < all.len(),
    ensures
        forall|k: int|
            #![trigger written_lines(all)[k]]
            0 <= k < written_lines(all).len() ==> ({
                let (n, text) = written_lines(all)[k];
                1 <= n <= all.len() && text == all[n - 1] && trim(text).len() > 0
            }),
        forall|k: int, l: int|
            #![trigger written_lines(all)[k], written_lines(all)[l]]
            0 <= k < l < written_lines(all).len() ==> written_lines(all)[k].0 < written_lines(
                all,
            )[l].0,
        trim(all[i]).len() > 0 ==> written_lines(all).contains((i + 1, all[i])),
    decreases all.len(),
{
    let init = all.drop_last();
    let before = written_lines(init);
    let now = written_lines(all);
    if init.len() > 0 {
        let j = if i < init.len() {
            i
        } else {
            0
        };
        lemma_written_lines(init, j);
    }
    assert forall|k: int| 0 <= k < before.len() implies #[trigger] now[k] == before[k] by {}
    if i < init.len() {
        assert(init[i] == all[i]);
        if trim(all[i]).len() > 0 {
            let k = before.index_of((i + 1, all[i]));
            assert(now[k] == (i + 1, all[i]));
        }
    } else if trim(all[i]).len() > 0 {
        assert(now.last() == (i + 1, all[i]));
    }
}

/// The lines of a journal that are not blank are its entries: each under the
/// number of its line, in order, and none is left out.
pub proof fn law_journal_lines_keep_their_numbers(contents: &str, i: int, r: Vec<JournalLine>)
    requires
        call_ensures(journal_lines, (contents,), r),
        0 <= i < lines(contents@).len(),
    ensures
        forall|k: int|
            0 <= k < r@.len() ==> 1 <= (#[trigger] r@[k]).number <= lines(contents@).len()
                && r@[k].text@ == lines(contents@)[r@[k].number - 1] && trim(r@[k].text@).len() > 0,
        forall|k: int, l: int|
            0 <= k < l < r@.len() ==> (#[trigger] r@[k]).number < (#[trigger] r@[l]).number,
        trim(lines(contents@)[i]).len() > 0 ==> exists|k: int|
            0 <= k < r@.len() && (#[trigger] r@[k]).number == i + 1,
{
    let all = lines(contents@);
    lemma_written_lines(all, i);
    let written = written_lines(all);
    assert(numbered(r@) == written);
    assert forall|k: int| 0 <= k < r@.len() implies #[trigger] written[k] == (
        r@[k].number as int,
        r@[k].text@,
    ) by {}
    assert forall|k: int| 0 <= k < r@.len() implies 1 <= (#[trigger] r@[k]).number <= all.len()
        && r@[k].text@ == all[r@[k].number - 1] && trim(r@[k].text@).len() > 0 by {
        assert(written[k] == (r@[k].number as int, r@[k].text@));
    }
    assert forall|k: int, l: int| 0 <= k < l < r@.len() implies (#[trigger] r@[k]).number < (
    #[trigger] r@[l]).number by {
        assert(written[k].0 < written[l].0);
    }
    if trim(all[i]).len() > 0 {
        let k = written.index_of((i + 1, all[i]));
        assert(written[k] == (r@[k].number as int, r@[k].text@));
        assert(r@[k].number == i + 1);
    }
}

/// The cache is that of the last full scan only where it still says what that
/// scan said.
pub proof fn law_base_mode_says_the_same(
    base: Result<Snapshot, CliError>,
    snapshot: &Snapshot,
    r: CacheMode,
)
    requires
        call_ensures(cache_mode, (&base, snapshot), r),
    ensures
        r is BaseScan ==> {
            &&& base matches Ok(b)
            &&& b.scanned_at_unix == snapshot.scanned_at_unix
            &&& b.total_bytes == snapshot.total_bytes
            &&& b.total_allocated_bytes == snapshot.total_allocated_bytes
            &&& b.total_capacity_bytes == snapshot.total_capacity_bytes
            &&& b.file_count == snapshot.file_count
            &&& b.folder_count == snapshot.folder_count
            &&& b.access_denied_count == snapshot.access_denied_count
            &&& texts(b.roots@) == texts(snapshot.roots@)
            &&& b.categories@.len() == snapshot.categories@.len()
            &&& b.largest_files@.len() == snapshot.largest_files@.len()
            &&& b.largest_folders@.len() == snapshot.largest_folders@.len()
            &&& forall|i: int|
                0 <= i < b.largest_files@.len() ==> (#[trigger] b.largest_files@[i]).path@
                    == snapshot.largest_files@[i].path@ && b.largest_files@[i].bytes
                    == snapshot.largest_files@[i].bytes
            &&& forall|i: int|
                0 <= i < b.largest_folders@.len() ==> (#[trigger] b.largest_folders@[i]).path@
                    == snapshot.largest_folders@[i].path@ && b.largest_folders@[i].bytes
                    == snapshot.largest_folders@[i].bytes
            &&& forall|i: int|
                0 <= i < b.categories@.len() ==> (#[trigger] b.categories@[i]).name@
                    == snapshot.categories@[i].name@ && b.categories@[i].bytes
                    == snapshot.categories@[i].bytes
        },
        base is Err ==> r is PresentTracked,
{
    if r is BaseScan {
        let b = base->Ok_0;
        assert(crate::snapshot::entry_views(b.largest_files@).len() == b.largest_files@.len());
        assert(crate::snapshot::entry_views(b.largest_folders@).len() == b.largest_folders@.len());
        assert(crate::snapshot::category_views(b.categories@).len() == b.categories@.len());
        assert(crate::snapshot::entry_views(snapshot.largest_files@).len()
            == snapshot.largest_files@.len());
        assert(crate::snapshot::entry_views(snapshot.largest_folders@).len()
            == snapshot.largest_folders@.len());
        assert(crate::snapshot::category_views(snapshot.categories@).len()
            == snapshot.categories@.len());
        assert forall|i: int| 0 <= i < b.largest_files@.len() implies (
        #[trigger] b.largest_files@[i]).path@ == snapshot.largest_files@[i].path@
            && b.largest_files@[i].bytes == snapshot.largest_files@[i].bytes by {
            assert(crate::snapshot::entry_views(b.largest_files@)[i] == b.largest_files@[i]@);
            assert(crate::snapshot::entry_views(snapshot.largest_files@)[i]
                == snapshot.largest_files@[i]@);
        }
        assert forall|i: int| 0 <= i < b.largest_folders@.len() implies (
        #[trigger] b.largest_folders@[i]).path@ == snapshot.largest_folders@[i].path@
            && b.largest_folders@[i].bytes == snapshot.largest_folders@[i].bytes by {
            assert(crate::snapshot::entry_views(b.largest_folders@)[i] == b.largest_folders@[i]@);
            assert(crate::snapshot::entry_views(snapshot.largest_folders@)[i]
                == snapshot.largest_folders@[i]@);
        }
        assert forall|i: int| 0 <= i < b.categories@.len() implies (
        #[trigger] b.categories@[i]).name@ == snapshot.categories@[i].name@
            && b.categories@[i].bytes == snapshot.categories@[i].bytes by {
            assert(crate::snapshot::category_views(b.categories@)[i] == b.categories@[i]@);
            assert(crate::snapshot::category_views(snapshot.categories@)[i]
                == snapshot.categories@[i]@);
        }
    }
}

// ---------------------------------------------------------------------------
// Missing entries
// ---------------------------------------------------------------------------

/// An answer that is yes.
pub open spec fn says_yes(answer: Seq<char>) -> bool {
    reads_as(answer, "y"@) || reads_as(answer, "yes"@)
}

/// Only a yes takes a missing entry out of the cache, and then its bytes leave
/// the totals; any other answer changes nothing.
pub proof fn law_only_a_yes_removes(
    snapshot: &mut Snapshot,
    target: NavigationTarget,
    entry: &SizedEntry,
    answer: &str,
    r: Result<PruneOffer, CliError>,
)
    requires
        old(snapshot).wf(),
        call_ensures(offer_prune_missing_entry, (snapshot, target, entry, answer), r),
    ensures
        !says_yes(answer@) ==> r == Ok::<PruneOffer, CliError>(PruneOffer::Declined)
            && *final(snapshot) == *old(snapshot),
        says_yes(answer@) && target is File && file_is_cached(old(snapshot).cache(), entry.path@)
            ==> {
            &&& r matches Ok(offer) ==> offer is Removed
            &&& final(snapshot).total_bytes == rest_of(
                old(snapshot).total_bytes,
                entry.bytes as int,
            )
            &&& final(snapshot).total_allocated_bytes == rest_of(
                old(snapshot).total_allocated_bytes,
                entry.allocated_bytes as int,
            )
            &&& final(snapshot).file_count == rest_of(old(snapshot).file_count, 1)
        },
        says_yes(answer@) && target is Folder && folder_is_cached(old(snapshot).cache(), entry.path@)
            ==> {
            &&& r matches Ok(offer) ==> offer is Removed
            &&& final(snapshot).total_bytes == rest_of(
                old(snapshot).total_bytes,
                entry.bytes as int,
            )
        },
{
    law_same_up_to_case(answer@, "y"@);
    law_same_up_to_case(answer@, "yes"@);
    reveal_strlit("y");
    reveal_strlit("yes");
    assert(crate::text::lower("y"@) =~= "y"@);
    assert(crate::text::lower("yes"@) =~= "yes"@);
    let cache = old(snapshot).cache();
    assert(old(snapshot).largest_files.len() == cache.files.len());
    assert(old(snapshot).largest_folders.len() == cache.folders.len());
    law_removed_file_leaves_the_totals(cache, *entry);
    if folder_is_cached(cache, entry.path@) {
        law_removed_folder_leaves_the_totals(cache, *entry);
    }
}

/// After an entry was taken out, the main menu; where one stays that could not
/// be opened, the list it was chosen from; a failure is the end where nobody
/// can answer, and never where somebody can, but for an empty cache.
pub proof fn law_where_opening_leads(
    screen: Screen,
    outcome: OpenOutcome,
    interactive: bool,
    r: Result<Screen, CliError>,
)
    requires
        call_ensures(after_open, (screen, outcome, interactive), r),
    ensures
        outcome is Removed ==> r is Ok && r->Ok_0@ is Main,
        outcome is Launched && !(screen@ is Empty) ==> r is Ok && r->Ok_0@ == screen@,
        r is Err <==> outcome is Failed && (!interactive || screen@ is Empty),
        r matches Err(e) ==> (outcome matches OpenOutcome::Failed(message) && e.says(message@)),
        screen@ matches ScreenView::Details(lists, _, _) ==> (outcome is Kept || (outcome is Failed
            && interactive) ==> r is Ok && r->Ok_0@ == ScreenView::Lists(lists)),
{
}

// ---------------------------------------------------------------------------
// Thresholds, rates and sizes
// ---------------------------------------------------------------------------

/// A threshold of a whole number of megabytes is that number times 1,048,576
/// bytes, or the largest number of bytes where it is more.
pub proof fn law_whole_megabytes(mb: Double, n: nat, r: Option<u64>)
    requires
        call_ensures(mb_to_bytes, (mb,), r),
        is_fraction(mb, n, 1),
    ensures
        r is Some,
        r->0 == vstd::math::min((n * 1_048_576) as int, u64::MAX as int),
{
    vstd::arithmetic::power2::lemma2_to64();
    assert(pow2(20) == 1_048_576);
    let s = mb.significand();
    let scale = mb.scale();
    let power = scale + 20;
    if scale >= 0 {
        lemma_pow2_adds(scale as nat, 20);
        let p = pow2(scale as nat);
        assert(s * (p * 1_048_576) == n * 1_048_576) by (nonlinear_arith)
            requires
                s * p * 1 == n,
        ;
    } else if power >= 0 {
        lemma_pow2_adds((-scale) as nat, power as nat);
        let p = pow2((-scale) as nat);
        let q = pow2(power as nat);
        assert(s * q == n * 1_048_576) by (nonlinear_arith)
            requires
                s * 1 == n * p,
                p * q == 1_048_576,
        ;
    } else {
        lemma_pow2_adds(20, (-power) as nat);
        let p = pow2((-scale) as nat);
        let d = pow2((-power) as nat);
        lemma_pow2_pos((-power) as nat);
        let m: nat = n * 1_048_576;
        assert(s == m * d) by (nonlinear_arith)
            requires
                s * 1 == n * p,
                p == 1_048_576 * d,
                m == n * 1_048_576,
        ;
        assert((2 * s + d) / (2 * d) == m) by (nonlinear_arith)
            requires
                s == m * d,
                d > 0,
        ;
    }
}

/// What a unit is called, by how many times it is 1024 of the one before.
pub proof fn law_unit_names(unit: nat)
    requires
        unit <= 5,
    ensures
        unit == 0 <==> unit_name(unit) == " B"@,
        unit == 1 <==> unit_name(unit) == " KB"@,
        unit == 2 <==> unit_name(unit) == " MB"@,
        unit == 3 <==> unit_name(unit) == " GB"@,
        unit == 4 <==> unit_name(unit) == " TB"@,
        unit == 5 <==> unit_name(unit) == " PB"@,
{
    reveal_strlit(" B");
    reveal_strlit(" KB");
    reveal_strlit(" MB");
    reveal_strlit(" GB");
    reveal_strlit(" TB");
    reveal_strlit(" PB");
    assert(" B"@[1] == 'B' && " KB"@[1] == 'K' && " MB"@[1] == 'M');
    assert(" GB"@[1] == 'G' && " TB"@[1] == 'T' && " PB"@[1] == 'P');
}

/// A whole number of bytes per second is shown as that size per second, and what
/// is no rate as none.
pub proof fn law_rates_are_sizes_per_second(rate: Double, n: u64, r: String, size: String)
    requires
        call_ensures(human_rate, (rate,), r),
        call_ensures(human_size, (n,), size),
    ensures
        n > 0 && is_fraction(rate, n as nat, 1) ==> r@ == size@ + "/s"@,
        !rate.amount() ==> r@ == "0 B/s"@,
        is_fraction(rate, 0, 1) ==> r@ == "0 B/s"@,
{
    let s = rate.significand();
    let scale = rate.scale();
    vstd::arithmetic::power2::lemma2_to64();
    if is_fraction(rate, n as nat, 1) || is_fraction(rate, 0, 1) {
        let m: nat = if is_fraction(rate, n as nat, 1) {
            n as nat
        } else {
            0
        };
        assert(is_fraction(rate, m, 1));
        if scale >= 0 {
            let p = pow2(scale as nat);
            lemma_pow2_pos(scale as nat);
            assert(s * p == m) by (nonlinear_arith)
                requires
                    s * p * 1 == m,
            ;
            assert(m == 0 <==> s == 0) by (nonlinear_arith)
                requires
                    s * p == m,
                    p > 0,
            ;
        } else {
            let d = pow2((-scale) as nat);
            lemma_pow2_pos((-scale) as nat);
            assert((2 * s + d) / (2 * d) == m) by (nonlinear_arith)
                requires
                    s * 1 == m * d,
                    d > 0,
            ;
            assert(m == 0 <==> s == 0) by (nonlinear_arith)
                requires
                    s * 1 == m * d,
                    d > 0,
            ;
        }
        assert(s == 0 <==> rate.zero());
        if m > 0 {
            assert(rate.scaled(0) == m);
        }
    }
}

/// A scope is shown as its size, the size of the whole and the share in percent,
/// or as its size alone where the whole is not known.
pub proof fn law_scope_is_shown_against_the_whole(
    bytes: u64,
    whole: Option<u64>,
    r: String,
    size: String,
    capacity: String,
    percent: Option<String>,
)
    requires
        call_ensures(format_scope_percent, (bytes, whole), r),
        call_ensures(human_size, (bytes,), size),
        whole matches Some(w) ==> call_ensures(human_size, (w,), capacity),
        call_ensures(format_percent, (bytes, whole), percent),
    ensures
        percent matches Some(p) ==> r@ == size@ + " / "@ + capacity@ + " ("@ + p@ + ")"@,
        percent is None ==> r@ == size@ + " / n/a (n/a)"@,
{
}

/// The summary begins with the time of the scan, what takes how much on disk, and
/// the share of the whole; the logical size stands between them where it is
/// another.
pub proof fn law_summary_begins_with_the_totals(
    snapshot: &Snapshot,
    limit: usize,
    columns: Option<&str>,
    r: Vec<String>,
    disk: String,
    logical: String,
    scope: String,
)
    requires
        call_ensures(print_summary, (snapshot, limit, columns), r),
        call_ensures(human_size, (snapshot.total_allocated_bytes,), disk),
        call_ensures(human_size, (snapshot.total_bytes,), logical),
        call_ensures(
            format_scope_percent,
            (snapshot.total_allocated_bytes, snapshot.total_capacity_bytes),
            scope,
        ),
    ensures
        r@.len() >= 3,
        r@[0]@ == "Storage summary from unix "@ + decimal(snapshot.scanned_at_unix as nat),
        r@[1]@ == "Total on disk: "@ + disk@ + " across "@ + decimal(snapshot.file_count as nat)
            + " files"@,
        snapshot.total_bytes == snapshot.total_allocated_bytes ==> r@[2]@ == "Scanned scope: "@
            + scope@,
        snapshot.total_bytes != snapshot.total_allocated_bytes ==> r@.len() >= 4 && r@[2]@
            == "Logical size: "@ + logical@ && r@[3]@ == "Scanned scope: "@ + scope@,
{
    let all = texts(r@);
    let head = summary_head(*snapshot);
    assert(all.len() == r@.len());
    assert(head.len() >= 3);
    assert forall|i: int| 0 <= i < head.len() implies #[trigger] r@[i]@ == head[i] by {
        assert(all[i] == r@[i]@);
    }
}

// ---------------------------------------------------------------------------
// Folders and roots
// ---------------------------------------------------------------------------

/// A path with the components `inner` lies inside the folder with the components
/// `outer`.
pub open spec fn lies_inside(inner: Seq<Seq<char>>, outer: Seq<Seq<char>>) -> bool {
    &&& outer.len() < inner.len()
    &&& forall|i: int| 0 <= i < outer.len() ==> #[trigger] inner[i] == outer[i]
}

proof fn lemma_prefix_by_place(a: Seq<Seq<char>>, b: Seq<Seq<char>>)
    ensures
        a.is_prefix_of(b) <==> a.len() <= b.len() && forall|i: int|
            0 <= i < a.len() ==> #[trigger] b[i] == a[i],
{
    if a.is_prefix_of(b) {
        assert forall|i: int| 0 <= i < a.len() implies #[trigger] b[i] == a[i] by {
            assert(b.subrange(0, a.len() as int)[i] == b[i]);
        }
    }
    if a.len() <= b.len() && forall|i: int| 0 <= i < a.len() ==> #[trigger] b[i] == a[i] {
        assert(b.subrange(0, a.len() as int) =~= a);
    }
}

/// A file adds its bytes, its bytes on disk and one file to every folder from
/// the root down that it lies inside of, and to no other.
pub proof fn law_a_file_counts_in_its_folders(
    style: PathStyle,
    sizes: &mut NameMap<SizedEntry>,
    root: &str,
    file: &str,
    bytes: u64,
    allocated: u64,
    folder: Seq<char>,
)
    requires
        old(sizes).wf(),
        call_ensures(add_to_folder_rollups, (style, sizes, root, file, bytes, allocated), ()),
        names(style, file@).len() > 0,
        components(style, file@).len() - names(style, file@).len() <= components(
            style,
            root@,
        ).len(),
    ensures
        ({
            let id = folder_id(style, folder);
            let f = components(style, folder);
            let top = components(style, root@);
            let before = old(sizes).map();
            let after = final(sizes).map();
            if lies_inside(components(style, file@), f) && (f == top || lies_inside(f, top)) {
                &&& after.contains_key(id)
                &&& after[id].bytes == capped_sum(
                    if before.contains_key(id) {
                        before[id].bytes
                    } else {
                        0
                    },
                    bytes,
                )
                &&& after[id].allocated_bytes == capped_sum(
                    if before.contains_key(id) {
                        before[id].allocated_bytes
                    } else {
                        0
                    },
                    allocated,
                )
                &&& !before.contains_key(id) ==> after[id].files == Some(1u64)
                &&& before.contains_key(id) && before[id].files is Some ==> after[id].files is Some
                    && after[id].files->0 == capped_sum(before[id].files->0, 1)
            } else {
                &&& after.contains_key(id) == before.contains_key(id)
                &&& before.contains_key(id) ==> after[id].bytes == before[id].bytes
                    && after[id].allocated_bytes == before[id].allocated_bytes && after[id].files
                    == before[id].files
            }
        }),
{
    law_parent_drops_the_last_name(style, file@);
    let dir = parent(style, file@)->0;
    let f = components(style, folder);
    let top = components(style, root@);
    let all = components(style, file@);
    lemma_parent_heads(style, file@);
    law_file_counts_in_every_folder_above(
        style,
        folder_map(old(sizes).map()),
        root@,
        dir,
        bytes,
        allocated,
        folder,
    );
    lemma_prefix_by_place(f, components(style, dir));
    lemma_prefix_by_place(top, f);
    assert(components(style, dir) == all.drop_last());
    assert(under(style, dir, folder) <==> lies_inside(all, f)) by {
        if lies_inside(all, f) {
            assert forall|i: int| 0 <= i < f.len() implies #[trigger] all.drop_last()[i]
                == f[i] by {
                assert(all[i] == f[i]);
            }
        }
        if under(style, dir, folder) {
            assert forall|i: int| 0 <= i < f.len() implies #[trigger] all[i] == f[i] by {
                assert(all.drop_last()[i] == f[i]);
            }
        }
    }
    assert(under(style, folder, root@) <==> (f == top || lies_inside(f, top))) by {
        if under(style, folder, root@) && f.len() == top.len() {
            assert(f =~= top);
        }
    }
    let id = folder_id(style, folder);
    let before = folder_map(old(sizes).map());
    let after = folder_map(final(sizes).map());
    assert(before.contains_key(id) == old(sizes).map().contains_key(id));
    assert(after.contains_key(id) == final(sizes).map().contains_key(id));
}

/// A scan that is added to others adds what it has found to their totals.
pub proof fn law_one_more_root_adds_up(
    limit: usize,
    list: Vec<PartialScan>,
    longer: Vec<PartialScan>,
    one: PartialScan,
    before: PartialScan,
    after: PartialScan,
)
    requires
        longer@ == list@.push(one),
        call_ensures(merge_all, (limit, list), before),
        call_ensures(merge_all, (limit, longer), after),
    ensures
        after.total_bytes == capped_sum(before.total_bytes, one.total_bytes),
        after.total_allocated_bytes == capped_sum(
            before.total_allocated_bytes,
            one.total_allocated_bytes,
        ),
        after.file_count == capped_sum(before.file_count, one.file_count),
        after.folder_count == capped_sum(before.folder_count, one.folder_count),
        after.access_denied_count == capped_sum(
            before.access_denied_count,
            one.access_denied_count,
        ),
        after.skipped@.len() == before.skipped@.len() + one.skipped@.len(),
        list@.len() == 0 ==> before.total_bytes == 0 && before.file_count == 0
            && before.folder_count == 0 && before.skipped@.len() == 0,
{
    let views = scan_views(longer@);
    assert(views.drop_last() =~= scan_views(list@));
    assert(views.last() == one@);
    assert(skipped_views(after.skipped@).len() == after.skipped@.len());
    assert(skipped_views(before.skipped@).len() == before.skipped@.len());
    assert(skipped_views(one.skipped@).len() == one.skipped@.len());
}

/// The roots of a scan are accepted where there are any and each is a folder;
/// else the first that is none is named.
pub proof fn law_accepted_roots(
    roots: Vec<String>,
    are_dirs: Vec<bool>,
    i: int,
    r: Result<(), CliError>,
)
    requires
        roots@.len() == are_dirs@.len(),
        call_ensures(check_scan_roots, (&roots, &are_dirs), r),
    ensures
        r is Ok <==> roots@.len() > 0 && forall|k: int|
            0 <= k < are_dirs@.len() ==> #[trigger] are_dirs@[k],
        0 <= i < are_dirs@.len() && !are_dirs@[i] && (forall|k: int|
            0 <= k < i ==> #[trigger] are_dirs@[k]) ==> (r matches Err(e) && e.says(
            "scan root does not exist or is not a directory: "@ + roots@[i]@,
        )),
{
    lemma_first_false(are_dirs@, 0);
    let n = first_false(are_dirs@, 0);
    assert(texts(roots@).len() == roots@.len());
    if n < are_dirs@.len() {
        assert(!are_dirs@[n]);
        assert(texts(roots@)[n] == roots@[n]@);
    }
    if 0 <= i < are_dirs@.len() && !are_dirs@[i] && (forall|k: int|
        0 <= k < i ==> #[trigger] are_dirs@[k]) {
        if n < i {
            assert(are_dirs@[n]);
        }
        if i < n {
            assert(are_dirs@[i]);
        }
    }
}

proof fn lemma_first_false(flags: Seq<bool>, from: int)
    requires
        0 <= from <= flags.len(),
    ensures
        from <= first_false(flags, from) <= flags.len(),
        forall|k: int| from <= k < first_false(flags, from) ==> #[trigger] flags[k],
        first_false(flags, from) < flags.len() ==> !flags[first_false(flags, from)],
    decreases flags.len() - from,
{
    if from < flags.len() && flags[from] {
        lemma_first_false(flags, from + 1);
    }
}

proof fn lemma_present_drives(present: Seq<bool>, i: int)
    requires
        present.len() <= 26,
        0 <= i < 26,
    ensures
        present_drives(present).contains(drive_root(i)) <==> i < present.len() && present[i],
        present_drives(present).len() == 0 ==> (i < present.len() ==> !present[i]),
    decreases present.len(),
{
    if present.len() > 0 {
        let init = present.drop_last();
        let before = present_drives(init);
        let last = present.len() - 1;
        lemma_present_drives(init, i);
        assert(drive_root(i) == drive_root(last) ==> i == last) by {
            assert(drive_root(i)[0] == (('A' as u32) + i) as char);
            assert(drive_root(last)[0] == (('A' as u32) + last) as char);
        }
        if present.last() {
            let now = before.push(drive_root(last));
            if before.contains(drive_root(i)) {
                let k = before.index_of(drive_root(i));
                assert(now[k] == drive_root(i));
            }
            if now.contains(drive_root(i)) && i != last {
                let k = now.index_of(drive_root(i));
                assert(k < before.len());
                assert(before[k] == drive_root(i));
            }
            if i == last {
                assert(now.last() == drive_root(i));
            }
        }
    }
}

/// Without roots given, every drive that is there is scanned and no other; there
/// is nothing to scan only where no drive is there.
pub proof fn law_default_roots_are_the_drives(
    present: Vec<bool>,
    letter: char,
    r: Result<Vec<String>, CliError>,
)
    requires
        present@.len() == 26,
        call_ensures(discover_default_roots, (&present,), r),
        'A' <= letter <= 'Z',
    ensures
        r is Err <==> forall|k: int| 0 <= k < 26 ==> !#[trigger] present@[k],
        r matches Ok(roots) ==> (present@[letter as int - 'A' as int] <==> exists|k: int|
            0 <= k < roots@.len() && (#[trigger] roots@[k])@ == seq![letter, ':', '\\']),
{
    let i = letter as int - 'A' as int;
    lemma_present_drives(present@, i);
    assert(drive_root(i) =~= seq![letter, ':', '\\']);
    if r is Err {
        assert forall|k: int| 0 <= k < 26 implies !#[trigger] present@[k] by {
            lemma_present_drives(present@, k);
        }
    } else {
        let roots = r->Ok_0;
        let list = present_drives(present@);
        assert(texts(roots@) == list);
        assert(list.len() == roots@.len());
        if present@[i] {
            let k = list.index_of(drive_root(i));
            assert(roots@[k]@ == list[k]);
        }
        if exists|k: int| 0 <= k < roots@.len() && (#[trigger] roots@[k])@ == drive_root(i) {
            let k = choose|k: int|
                0 <= k < roots@.len() && (#[trigger] roots@[k])@ == drive_root(i);
            assert(list[k] == drive_root(i));
        }
        if forall|k: int| 0 <= k < 26 ==> !#[trigger] present@[k] {
            lemma_no_drives(present@);
        }
    }
}

proof fn lemma_no_drives(present: Seq<bool>)
    requires
        forall|k: int| 0 <= k < present.len() ==> !#[trigger] present[k],
    ensures
        present_drives(present).len() == 0,
    decreases present.len(),
{
    if present.len() > 0 {
        lemma_no_drives(present.drop_last());
    }
}

// ---------------------------------------------------------------------------
// The files of a workspace
// ---------------------------------------------------------------------------

/// A tracking file of a workspace that is there.
pub open spec fn is_tracked(paths: CachePaths, present: Seq<bool>, path: Seq<char>) -> bool {
    ||| present[0] && path == paths.base_snapshot_path@
    ||| present[1] && path == paths.cleanup_journal_path@
    ||| present[2] && path == paths.cache_usage_journal_path@
}

/// A new scan archives the base snapshot and the two journals, as far as they
/// are there, and no other file: each in the workspace's folder, under its own
/// name with the time behind it.
pub proof fn law_tracking_files_are_archived(
    style: PathStyle,
    paths: CachePaths,
    present: Vec<bool>,
    unix: u64,
    path: Seq<char>,
    r: Vec<(String, String)>,
)
    requires
        present@.len() == 3,
        call_ensures(archive_tracking_files, (style, &paths, &present, unix), r),
    ensures
        is_tracked(paths, present@, path) <==> exists|i: int|
            0 <= i < r@.len() && (#[trigger] r@[i]).0@ == path,
        forall|i: int|
            #![trigger r@[i]]
            0 <= i < r@.len() && file_name(style, r@[i].0@) is Some ==> r@[i].1@ == join(
                style,
                paths.base_dir@,
                file_name(style, r@[i].0@)->0 + "."@ + decimal(unix as nat) + ".archive"@,
            ),
{
    let moves = archive_moves(style, paths, present@, unix, 3);
    reveal_with_fuel(archive_moves, 4);
    assert(move_views(r@) == moves);
    assert(moves.len() == r@.len());
    assert forall|i: int| 0 <= i < r@.len() implies #[trigger] moves[i] == (
        r@[i].0@,
        r@[i].1@,
    ) by {}
    let n0: int = if present@[0] {
        1
    } else {
        0
    };
    let n1: int = n0 + if present@[1] {
        1int
    } else {
        0int
    };
    if present@[0] {
        assert(moves[0].0 == paths.base_snapshot_path@);
        assert(r@[0].0@ == paths.base_snapshot_path@);
    }
    if present@[1] {
        assert(moves[n0].0 == paths.cleanup_journal_path@);
        assert(r@[n0].0@ == paths.cleanup_journal_path@);
    }
    if present@[2] {
        assert(moves[n1].0 == paths.cache_usage_journal_path@);
        assert(r@[n1].0@ == paths.cache_usage_journal_path@);
    }
    assert forall|i: int| 0 <= i < r@.len() implies is_tracked(
        paths,
        present@,
        (#[trigger] r@[i]).0@,
    ) && r@[i].1@ == archived_as(style, paths.base_dir@, r@[i].0@, unix) by {
        assert(moves[i] == (r@[i].0@, r@[i].1@));
    }
}

proof fn lemma_first_clash(from: Seq<bool>, to: Seq<bool>, i: int)
    requires
        0 <= i <= from.len(),
        from.len() == to.len(),
    ensures
        i <= first_clash(from, to, i) <= from.len(),
        forall|k: int|
            #![trigger from[k]]
            i <= k < first_clash(from, to, i) ==> !(from[k] && to[k]),
        first_clash(from, to, i) < from.len() ==> from[first_clash(from, to, i)]
            && to[first_clash(from, to, i)],
    decreases from.len() - i,
{
    if i < from.len() && !(from[i] && to[i]) {
        lemma_first_clash(from, to, i + 1);
    }
}

/// The place of an old file and the one it is moved to.
pub open spec fn adopted(style: PathStyle, app_dir: Seq<char>, name: Seq<char>) -> (
    Seq<char>,
    Seq<char>,
) {
    (
        join(style, app_dir, name),
        join(style, join(style, join(style, app_dir, "workspaces"@), "default"@), name),
    )
}

proof fn lemma_moves_before(
    style: PathStyle,
    app_dir: Seq<char>,
    from: Seq<bool>,
    n: int,
    k: int,
)
    requires
        0 <= n <= from.len(),
        from.len() == 4,
        0 <= k < 4,
    ensures
        k < n && from[k] ==> moves_before(style, app_dir, from, n).contains(
            adopted(style, app_dir, legacy_files()[k]),
        ),
        forall|i: int|
            0 <= i < moves_before(style, app_dir, from, n).len() ==> exists|j: int|
                0 <= j < n && #[trigger] from[j] && #[trigger] moves_before(
                    style,
                    app_dir,
                    from,
                    n,
                )[i] == adopted(style, app_dir, legacy_files()[j]),
    decreases n,
{
    if n > 0 {
        lemma_moves_before(style, app_dir, from, n - 1, k);
        let before = moves_before(style, app_dir, from, n - 1);
        let now = moves_before(style, app_dir, from, n);
        if from[n - 1] {
            assert(now.last() == adopted(style, app_dir, legacy_files()[n - 1]));
        }
        if k < n - 1 && from[k] {
            let i = before.index_of(adopted(style, app_dir, legacy_files()[k]));
            assert(now[i] == before[i]);
        }
        assert forall|i: int| 0 <= i < now.len() implies exists|j: int|
            0 <= j < n && #[trigger] from[j] && #[trigger] now[i] == adopted(
                style,
                app_dir,
                legacy_files()[j],
            ) by {
            if i < before.len() {
                assert(now[i] == before[i]);
                let j = choose|j: int|
                    0 <= j < n - 1 && #[trigger] from[j] && #[trigger] before[i] == adopted(
                        style,
                        app_dir,
                        legacy_files()[j],
                    );
                assert(from[j] && now[i] == adopted(style, app_dir, legacy_files()[j]));
            } else {
                assert(from[n - 1] && now[i] == adopted(style, app_dir, legacy_files()[n - 1]));
            }
        }
    }
}

/// An old cache is adopted without writing over a file: it is refused where a
/// file stands at both ends; else every old file that is there moves, under its
/// own name, into the folder of the default workspace. Nothing is created where
/// there is nothing old.
pub proof fn law_old_cache_is_adopted(
    style: PathStyle,
    app_dir: &str,
    from: Vec<bool>,
    to: Vec<bool>,
    k: int,
    i: int,
    r: MigrationPlan,
)
    requires
        from@.len() == 4,
        to@.len() == 4,
        call_ensures(migrate_legacy_cache, (style, app_dir, &from, &to), r),
        0 <= k < 4,
    ensures
        r.refused is Some <==> exists|j: int| 0 <= j < 4 && #[trigger] from@[j] && to@[j],
        r.create_dir is Some <==> exists|j: int| 0 <= j < 4 && #[trigger] from@[j],
        r.create_dir matches Some(dir) ==> dir@ == join(
            style,
            join(style, app_dir@, "workspaces"@),
            "default"@,
        ),
        r.refused is None && from@[k] ==> exists|m: int|
            0 <= m < r.moves@.len() && (#[trigger] r.moves@[m]).0@ == join(
                style,
                app_dir@,
                legacy_files()[k],
            ),
        0 <= i < r.moves@.len() ==> exists|j: int|
            0 <= j < 4 && #[trigger] from@[j] && !to@[j] && r.moves@[i].0@ == adopted(
                style,
                app_dir@,
                legacy_files()[j],
            ).0 && r.moves@[i].1@ == adopted(style, app_dir@, legacy_files()[j]).1,
{
    lemma_first_clash(from@, to@, 0);
    let n = first_clash(from@, to@, 0);
    lemma_moves_before(style, app_dir@, from@, n, k);
    let moves = moves_before(style, app_dir@, from@, n);
    assert(move_views(r.moves@) == moves);
    assert(moves.len() == r.moves@.len());
    if 0 <= i < r.moves@.len() {
        assert(moves[i] == (r.moves@[i].0@, r.moves@[i].1@));
        let j = choose|j: int|
            0 <= j < n && #[trigger] from@[j] && moves[i] == adopted(
                style,
                app_dir@,
                legacy_files()[j],
            );
        assert(from@[j] && !to@[j]);
    }
    if exists|j: int| 0 <= j < 4 && #[trigger] from@[j] {
        let j = choose|j: int| 0 <= j < 4 && #[trigger] from@[j];
        assert(from@.contains(true));
    }
    if from@.contains(true) {
        let j = from@.index_of(true);
        assert(from@[j]);
    }
    if r.refused is None && from@[k] {
        let m = moves.index_of(adopted(style, app_dir@, legacy_files()[k]));
        assert(moves[m] == (r.moves@[m].0@, r.moves@[m].1@));
    }
    if n < 4 {
        assert(from@[n] && to@[n]);
    }
}

/// Every known workspace is listed, no other, and the active one alone is marked.
pub proof fn law_listed_workspaces(
    style: PathStyle,
    registry: &WorkspaceRegistry,
    app_dir: &str,
    have: Vec<bool>,
    name: Seq<char>,
    r: Vec<WorkspaceView>,
)
    requires
        registry.wf(),
        have@.len() == registry.workspaces.keys().len(),
        call_ensures(list_workspaces, (style, registry, app_dir, &have), r),
    ensures
        registry.known().contains_key(name) <==> exists|i: int|
            0 <= i < r@.len() && (#[trigger] r@[i]).name@ == name,
        forall|i: int|
            0 <= i < r@.len() ==> ((#[trigger] r@[i]).active <==> r@[i].name@ == registry.active@),
        forall|i: int|
            0 <= i < r@.len() ==> (#[trigger] r@[i]).created_at_unix
                == registry.known()[r@[i].name@].created_at_unix && r@[i].has_snapshot == have@[i],
        forall|i: int, j: int|
            0 <= i < j < r@.len() ==> text_lt((#[trigger] r@[i]).name@, (#[trigger] r@[j]).name@),
{
    let keys = registry.workspaces.keys();
    assert forall|i: int| 0 <= i < r@.len() implies (#[trigger] r@[i]).shows(
        style,
        app_dir@,
        keys[i],
        keys[i] == registry.active@,
        registry.known()[keys[i]],
        have@[i],
    ) by {}
    if registry.known().contains_key(name) {
        let i = keys.index_of(name);
        assert(keys.contains(name));
        assert(r@[i].name@ == name);
    }
    if exists|i: int| 0 <= i < r@.len() && (#[trigger] r@[i]).name@ == name {
        let i = choose|i: int| 0 <= i < r@.len() && (#[trigger] r@[i]).name@ == name;
        registry.workspaces.lemma_at(i);
        assert(keys[i] == name);
    }
    assert forall|i: int, j: int| 0 <= i < j < r@.len() implies text_lt(
        (#[trigger] r@[i]).name@,
        (#[trigger] r@[j]).name@,
    ) by {
        assert(text_lt(keys[i], keys[j]));
    }
}

// ---------------------------------------------------------------------------
// Texts that are cut
// ---------------------------------------------------------------------------

/// A text that fits is shown as it is; one that does not is cut to fit, with
/// dots for what is left out: in the middle, so that it begins and ends as
/// before, or at the end, so that it begins as before.
pub proof fn law_cut_texts_keep_their_ends(
    value: &str,
    most: usize,
    middle: String,
    end: String,
    i: int,
)
    requires
        call_ensures(truncate_middle, (value, most), middle),
        call_ensures(truncate_end, (value, most), end),
    ensures
        value@.len() <= most ==> middle@ == value@ && end@ == value@,
        value@.len() > most ==> middle@.len() == most && end@.len() == most,
        value@.len() > most && 0 <= i && 2 * i + 5 <= most ==> middle@[i] == value@[i]
            && middle@[most - 1 - i] == value@[value@.len() - 1 - i],
        value@.len() > most && 0 <= i < most - 3 ==> end@[i] == value@[i],
        value@.len() > most && most - 3 <= i < most && 0 <= i ==> end@[i] == '.',
{
    reveal_strlit("...");
}

// ---------------------------------------------------------------------------
// Details
// ---------------------------------------------------------------------------

/// The details of an entry say its path, its sizes, its category where it is a
/// file or how many files it holds where it is a folder, and whether it is
/// there.
pub proof fn law_printed_details(
    entry: &SizedEntry,
    kind: NavigationTarget,
    found: bool,
    r: Vec<String>,
    size: String,
    disk: String,
)
    requires
        call_ensures(print_entry_details, (entry, kind, found), r),
        call_ensures(human_size, (entry.bytes,), size),
        call_ensures(human_size, (entry.allocated_bytes,), disk),
    ensures
        r@.len() == 7,
        r@[2]@ == "  path: "@ + entry.path@,
        r@[3]@ == "  size: "@ + size@,
        r@[4]@ == "  on disk: "@ + disk@,
        kind is File && entry.category is Some ==> r@[5]@ == "  category: "@
            + entry.category->0@,
        kind is Folder && entry.files is Some ==> r@[5]@ == "  files: "@ + decimal(
            entry.files->0 as nat,
        ),
        found ==> r@[6]@ == "  exists: "@ + "true"@,
        !found ==> r@[6]@ == "  exists: "@ + "false"@,
{
    let all = texts(r@);
    assert(all.len() == 7);
    assert forall|i: int| 0 <= i < 7 implies #[trigger] r@[i]@ == all[i] by {}
}

/// The version of a state file is what its field says where it can be one, that
/// of old files where it says nothing, and none where the file is no JSON.
pub proof fn law_version_of_a_file(found: Option<Option<u64>>, legacy: u32, r: Option<u32>)
    requires
        call_ensures(version_from, (found, legacy), r),
    ensures
        r is None <==> found is None,
        found matches Some(Some(n)) ==> (n < 0x1_0000_0000 ==> r is Some && r->0 == n),
        found matches Some(Some(n)) ==> (n >= 0x1_0000_0000 ==> r == Some(legacy)),
        found matches Some(None) ==> r == Some(legacy),
{
}

/// The rules have changed since a scan exactly where their fingerprint is not
/// the one that the scan recorded; that is unknown where it recorded none.
pub proof fn law_rules_changed_since_the_scan(
    snapshot: &Snapshot,
    rules: &CategoryRules,
    r: CategoryRulesStatus,
)
    requires
        call_ensures(category_rules_status, (snapshot, rules), r),
    ensures
        r.changed_since_scan is Some <==> snapshot.category_rules_fingerprint is Some,
        snapshot.category_rules_fingerprint matches Some(print) ==> (r.changed_since_scan == Some(
            true,
        ) <==> print@ != r.current_fingerprint@),
{
}

// ---------------------------------------------------------------------------
// Inventories
// ---------------------------------------------------------------------------

/// The folder that a list of folders ends with or that is still open.
pub open spec fn mentions(inventory: Inventory, name: Seq<char>) -> bool {
    inventory.folder == Some(name) || exists|k: int|
        0 <= k < inventory.closed.len() && (#[trigger] inventory.closed[k]).0 == name
}

proof fn lemma_mentions(all: Seq<Seq<char>>, name: Seq<char>)
    ensures
        mentions(inventory_of(all), name) <==> exists|i: int|
            0 <= i < all.len() && heading(#[trigger] all[i]) == Some(name),
    decreases all.len(),
{
    if all.len() > 0 {
        let init = all.drop_last();
        lemma_mentions(init, name);
        let before = inventory_of(init);
        let now = inventory_of(all);
        let last = all.last();
        assert(all[all.len() - 1] == last);
        if mentions(before, name) {
            let i = choose|i: int| 0 <= i < init.len() && heading(#[trigger] init[i]) == Some(name);
            assert(all[i] == init[i]);
            if before.folder == Some(name) && heading(last) is Some {
                assert(now.closed.last().0 == name);
            } else if before.folder != Some(name) {
                let k = choose|k: int|
                    0 <= k < before.closed.len() && (#[trigger] before.closed[k]).0 == name;
                assert(now.closed[k].0 == name);
            }
        }
        if mentions(now, name) && heading(last) != Some(name) {
            if now.folder == Some(name) {
                assert(before.folder == Some(name));
            } else {
                let k = choose|k: int|
                    0 <= k < now.closed.len() && (#[trigger] now.closed[k]).0 == name;
                if k < before.closed.len() {
                    assert(before.closed[k].0 == name);
                }
            }
            assert(mentions(before, name));
        }
        if exists|i: int| 0 <= i < all.len() && heading(#[trigger] all[i]) == Some(name) {
            let i = choose|i: int| 0 <= i < all.len() && heading(#[trigger] all[i]) == Some(name);
            if i < init.len() {
                assert(init[i] == all[i]);
            }
        }
    }
}

/// The rules made from an inventory have a project for each folder that has a
/// heading, and for no other.
pub proof fn law_each_heading_is_a_project(
    path: &str,
    contents: String,
    rules: AuditRules,
    name: Seq<char>,
)
    requires
        call_ensures(audit_rules_from_inventory, (path, Ok(contents)), Ok(rules)),
    ensures
        (exists|k: int| 0 <= k < rules.projects@.len() && (#[trigger] rules.projects@[k]).path@ == name)
            <==> exists|i: int|
            0 <= i < lines(contents@).len() && heading(#[trigger] lines(contents@)[i]) == Some(name),
        forall|k: int|
            0 <= k < rules.projects@.len() ==> (#[trigger] rules.projects@[k]).watch_generated_outputs,
{
    let all = lines(contents@);
    lemma_mentions(all, name);
    let open = inventory_of(all);
    let folders = inventory_folders(contents@);
    let projects = rules.projects@;
    if mentions(open, name) {
        if open.folder == Some(name) {
            assert(folders.last().0 == name);
            assert(inventory_rule(projects[folders.len() - 1], folders[folders.len() - 1]));
        } else {
            let k = choose|k: int|
                0 <= k < open.closed.len() && (#[trigger] open.closed[k]).0 == name;
            assert(folders[k].0 == name);
            assert(inventory_rule(projects[k], folders[k]));
        }
    }
    if exists|k: int| 0 <= k < projects.len() && (#[trigger] projects[k]).path@ == name {
        let k = choose|k: int| 0 <= k < projects.len() && (#[trigger] projects[k]).path@ == name;
        assert(inventory_rule(projects[k], folders[k]));
        if k < open.closed.len() {
            assert(open.closed[k].0 == name);
        }
        assert(mentions(open, name));
    }
}

} // verus!
