//! Journals of manual removals and of cache use.
use crate::clock::{is_moment, moment_failed, timestamped_event, TimestampedEvent};
use crate::config::{CACHE_USAGE_JOURNAL_VERSION, CLEANUP_JOURNAL_VERSION};
use crate::error::CliError;
use crate::numbers::{decimal, decimal_text};
use crate::prune::{
    at_or_under, cached, one_path, prune_cached_entry, prune_result, pruned, same_path, Cache,
    NavigationTarget, PruneResult,
};
use crate::sizes::{duration_text, human_duration, human_size, size_text};
use crate::snapshot::{SizedEntry, Snapshot};
use crate::sums::{lemma_filter, lemma_sum_push, lemma_sum_take, sum_of};
use crate::text::{is_blank, lines, lines_of, same_text, texts, trim};
use vstd::prelude::*;

verus! {

// ---------------------------------------------------------------------------
// Labels
// ---------------------------------------------------------------------------

/// The word for a kind of entry.
pub open spec fn target_label(target: NavigationTarget) -> Seq<char> {
    match target {
        NavigationTarget::File => "file"@,
        NavigationTarget::Folder => "folder"@,
    }
}

/// The kind of entry that a word stands for; anything but `file` is a folder.
pub open spec fn labelled_target(label: Seq<char>) -> NavigationTarget {
    if label == "file"@ {
        NavigationTarget::File
    } else {
        NavigationTarget::Folder
    }
}

/// The word for a kind of entry.
pub fn navigation_target_label(target: NavigationTarget) -> (r: &'static str)
    ensures
        r@ == target_label(target),
{
    match target {
        NavigationTarget::File => "file",
        NavigationTarget::Folder => "folder",
    }
}

/// The kind of entry that a word stands for.
pub fn navigation_target_from_label(label: &str) -> (r: NavigationTarget)
    ensures
        r == labelled_target(label@),
{
    if same_text(label, "file") {
        NavigationTarget::File
    } else {
        NavigationTarget::Folder
    }
}

/// Reading back a written word gives the kind that was written.
pub proof fn law_label_round_trip(target: NavigationTarget)
    ensures
        labelled_target(target_label(target)) == target,
{
    reveal_strlit("file");
    reveal_strlit("folder");
    assert("file"@.len() != "folder"@.len());
}

// ---------------------------------------------------------------------------
// The cleanup journal
// ---------------------------------------------------------------------------

/// A manual removal.
#[derive(Debug, PartialEq, Eq)]
pub struct CleanupJournalEntry {
    pub version: u32,
    pub timestamp: TimestampedEvent,
    pub target_type: String,
    pub path: String,
    pub removed_files: usize,
    pub removed_folders: usize,
    pub bytes: u64,
    pub allocated_bytes: u64,
    pub human_size: String,
    pub human_on_disk: String,
    pub entry: SizedEntry,
}

impl CleanupJournalEntry {
    /// This is the record of a removal.
    pub open spec fn records(
        self,
        target: NavigationTarget,
        entry: SizedEntry,
        result: PruneResult,
        timestamp: TimestampedEvent,
    ) -> bool {
        &&& self.version == CLEANUP_JOURNAL_VERSION
        &&& self.timestamp == timestamp
        &&& self.target_type@ == target_label(target)
        &&& self.path == entry.path
        &&& self.removed_files == result.removed_files
        &&& self.removed_folders == result.removed_folders
        &&& self.bytes == entry.bytes
        &&& self.allocated_bytes == entry.allocated_bytes
        &&& self.human_size@ == size_text(entry.bytes as nat)
        &&& self.human_on_disk@ == size_text(entry.allocated_bytes as nat)
        &&& self.entry == entry
    }
}

/// The record of a removal at a given moment.
pub fn cleanup_entry_at(
    target: NavigationTarget,
    entry: &SizedEntry,
    result: &PruneResult,
    timestamp: TimestampedEvent,
) -> (r: CleanupJournalEntry)
    ensures
        r.records(target, *entry, *result, timestamp),
{
    CleanupJournalEntry {
        version: CLEANUP_JOURNAL_VERSION,
        timestamp,
        target_type: navigation_target_label(target).to_owned(),
        path: entry.path.clone(),
        removed_files: result.removed_files,
        removed_folders: result.removed_folders,
        bytes: entry.bytes,
        allocated_bytes: entry.allocated_bytes,
        human_size: human_size(entry.bytes),
        human_on_disk: human_size(entry.allocated_bytes),
        entry: entry.clone(),
    }
}

/// Adds the record of a removal to the journal, with the current time.
pub fn append_cleanup_journal(
    journal: &mut Vec<CleanupJournalEntry>,
    target: NavigationTarget,
    entry: &SizedEntry,
    result: &PruneResult,
) -> (r: Result<(), CliError>)
    ensures
        match r {
            Ok(_) => final(journal)@.len() == old(journal)@.len() + 1
                && final(journal)@.drop_last() == old(journal)@
                && final(journal)@.last().records(
                target,
                *entry,
                *result,
                final(journal)@.last().timestamp,
            ) && is_moment(final(journal)@.last().timestamp),
            Err(e) => moment_failed(e) && *final(journal) == *old(journal),
        },
{
    match timestamped_event() {
        Ok(timestamp) => {
            let ghost before = journal@;
            journal.push(cleanup_entry_at(target, entry, result, timestamp));
            assert(journal@.drop_last() =~= before);
            Ok(())
        },
        Err(e) => Err(e),
    }
}

/// The cache after one journalled removal.
pub open spec fn replayed_one(cache: Cache, record: CleanupJournalEntry) -> Cache {
    pruned(cache, labelled_target(record.target_type@), record.entry)
}

/// The cache after the journalled removals, one after the other.
pub open spec fn replayed(cache: Cache, journal: Seq<CleanupJournalEntry>) -> Cache
    decreases journal.len(),
{
    if journal.len() == 0 {
        cache
    } else {
        replayed_one(replayed(cache, journal.drop_last()), journal.last())
    }
}

/// The base snapshot with the journalled removals made again.
pub fn fast_forward_cache(base: Snapshot, journal: &Vec<CleanupJournalEntry>) -> (r: Snapshot)
    requires
        base.wf(),
    ensures
        r.same_scan(&base),
        r.cache() == replayed(base.cache(), journal@),
        r.wf(),
{
    let mut snapshot = base;
    for i in 0..journal.len()
        invariant
            snapshot.same_scan(&base),
            snapshot.cache() == replayed(base.cache(), journal@.take(i as int)),
            snapshot.wf(),
    {
        assert(journal@.take(i + 1).drop_last() == journal@.take(i as int));
        assert(journal@.take(i + 1).last() == journal@[i as int]);
        prune_cached_entry(
            &mut snapshot,
            navigation_target_from_label(journal[i].target_type.as_str()),
            &journal[i].entry,
        );
    }
    assert(journal@.take(journal@.len() as int) == journal@);
    snapshot
}

// ---------------------------------------------------------------------------
// Marking what has gone
// ---------------------------------------------------------------------------

/// The cached entries of a kind.
pub open spec fn entries_of(snapshot: Snapshot, target: NavigationTarget) -> Seq<SizedEntry> {
    match target {
        NavigationTarget::File => snapshot.largest_files@,
        NavigationTarget::Folder => snapshot.largest_folders@,
    }
}

/// The place of the first entry at the path, the length where there is none.
pub open spec fn path_at(list: Seq<SizedEntry>, path: Seq<char>, from: int) -> int
    decreases list.len() - from,
{
    if from >= list.len() || one_path(list[from].path@, path) {
        from
    } else {
        path_at(list, path, from + 1)
    }
}

/// The first cached entry at the path.
pub open spec fn cached_at(snapshot: Snapshot, target: NavigationTarget, path: Seq<char>) -> Option<
    SizedEntry,
> {
    let list = entries_of(snapshot, target);
    let i = path_at(list, path, 0);
    if 0 <= i < list.len() {
        Some(list[i])
    } else {
        None
    }
}

/// The first cached entry at the path.
pub fn find_cached_entry_by_path<'a>(
    snapshot: &'a Snapshot,
    target: NavigationTarget,
    path: &str,
) -> (r: Option<&'a SizedEntry>)
    ensures
        match r {
            Some(e) => cached_at(*snapshot, target, path@) == Some(*e),
            None => cached_at(*snapshot, target, path@) is None,
        },
{
    let list = match target {
        NavigationTarget::File => &snapshot.largest_files,
        NavigationTarget::Folder => &snapshot.largest_folders,
    };
    for i in 0..list.len()
        invariant
            list@ == entries_of(*snapshot, target),
            path_at(list@, path@, 0) == path_at(list@, path@, i as int),
    {
        if same_path(list[i].path.as_str(), path) {
            return Some(&list[i]);
        }
    }
    None
}

/// Where an entry is found at a path it is cached at its own.
proof fn lemma_found_is_cached(snapshot: Snapshot, target: NavigationTarget, path: Seq<char>)
    requires
        cached_at(snapshot, target, path) is Some,
    ensures
        ({
            let entry = cached_at(snapshot, target, path)->0;
            &&& entries_of(snapshot, target).contains(entry)
            &&& one_path(entry.path@, path)
            &&& cached(snapshot.cache(), target, entry)
        }),
{
    let list = entries_of(snapshot, target);
    lemma_path_at(list, path, 0);
    let i = path_at(list, path, 0);
    let entry = list[i];
    let elsewhere_keep = |e: SizedEntry| !one_path(e.path@, entry.path@);
    let outside_keep = |e: SizedEntry| !at_or_under(e.path@, entry.path@);
    lemma_filter(list, elsewhere_keep);
    lemma_filter(list, outside_keep);
    assert(!elsewhere_keep(list[i]));
    assert(!outside_keep(list[i]));
    if list.filter(elsewhere_keep) == list {
        assert(elsewhere_keep(list.filter(elsewhere_keep)[i]));
    }
    if list.filter(outside_keep) == list {
        assert(outside_keep(list.filter(outside_keep)[i]));
    }
}

proof fn lemma_path_at(list: Seq<SizedEntry>, path: Seq<char>, from: int)
    requires
        0 <= from,
    ensures
        from <= path_at(list, path, from),
        from <= list.len() ==> path_at(list, path, from) <= list.len(),
        path_at(list, path, from) < list.len() ==> one_path(
            list[path_at(list, path, from)].path@,
            path,
        ),
    decreases list.len() - from,
{
    if !(from >= list.len() || one_path(list[from].path@, path)) {
        lemma_path_at(list, path, from + 1);
    }
}

/// What marking a path as removed gives back.
#[derive(Debug, PartialEq, Eq)]
pub struct MarkRemovedResult {
    pub removed: bool,
    pub target_type: String,
    pub path: String,
    pub removed_files: usize,
    pub removed_folders: usize,
    pub snapshot_path: String,
}

/// A marked removal: the snapshot after it, its record, and what is reported.
pub struct Marked {
    pub snapshot: Snapshot,
    pub record: CleanupJournalEntry,
    pub report: MarkRemovedResult,
}

impl Marked {
    /// This is the removal of the entry from the snapshot.
    pub open spec fn removes(
        self,
        snapshot: Snapshot,
        target: NavigationTarget,
        entry: SizedEntry,
        snapshot_path: Seq<char>,
    ) -> bool {
        let result = prune_result(snapshot.cache(), target, entry);
        &&& self.snapshot.same_scan(&snapshot)
        &&& self.snapshot.cache() == pruned(snapshot.cache(), target, entry)
        &&& self.snapshot.wf()
        &&& self.record.records(target, entry, result, self.record.timestamp)
        &&& self.report.removed
        &&& self.report.target_type@ == target_label(target)
        &&& self.report.path == entry.path
        &&& self.report.removed_files == result.removed_files
        &&& self.report.removed_folders == result.removed_folders
        &&& self.report.snapshot_path@ == snapshot_path
    }
}

/// The error of a path that may not be marked. `on_disk` is what came of looking
/// for it on disk.
pub open spec fn mark_refused(
    snapshot: Snapshot,
    target: NavigationTarget,
    path: Seq<char>,
    on_disk: Result<bool, CliError>,
    e: CliError,
) -> bool {
    if cached_at(snapshot, target, path) is None {
        e.says(
            "cached "@ + target_label(target) + " path not found in active snapshot: "@ + path,
        )
    } else {
        match on_disk {
            Err(cause) => e == cause,
            Ok(true) => e.says(
                "cached "@ + target_label(target) + " still exists on disk: "@ + path,
            ),
            Ok(false) => false,
        }
    }
}

/// The path may be marked: it is cached and gone from disk.
pub open spec fn markable(
    snapshot: Snapshot,
    target: NavigationTarget,
    path: Seq<char>,
    on_disk: Result<bool, CliError>,
) -> bool {
    cached_at(snapshot, target, path) is Some && on_disk == Ok::<bool, CliError>(false)
}

/// The cached entry that a path may be marked as removed by: it is cached, and
/// gone from the disk.
pub fn checked_removal(
    snapshot: &Snapshot,
    target: NavigationTarget,
    path: &str,
    on_disk: Result<bool, CliError>,
) -> (r: Result<SizedEntry, CliError>)
    ensures
        match r {
            Ok(entry) => markable(*snapshot, target, path@, on_disk) && cached_at(
                *snapshot,
                target,
                path@,
            ) == Some(entry),
            Err(e) => mark_refused(*snapshot, target, path@, on_disk, e),
        },
{
    let label = navigation_target_label(target);
    let entry = match find_cached_entry_by_path(snapshot, target, path) {
        Some(entry) => entry.clone(),
        None => {
            return Err(
                CliError::Message(
                    "cached ".to_owned().concat(label).concat(
                        " path not found in active snapshot: ",
                    ).concat(path),
                ),
            );
        },
    };
    match on_disk {
        Err(e) => Err(e),
        Ok(true) => Err(
            CliError::Message(
                "cached ".to_owned().concat(label).concat(" still exists on disk: ").concat(path),
            ),
        ),
        Ok(false) => Ok(entry),
    }
}

/// Marks a cached path as removed at a given moment.
pub fn mark_cached_path_removed_at(
    snapshot: Snapshot,
    target: NavigationTarget,
    path: &str,
    on_disk: Result<bool, CliError>,
    timestamp: Result<TimestampedEvent, CliError>,
    snapshot_path: &str,
) -> (r: Result<Marked, CliError>)
    requires
        snapshot.wf(),
    ensures
        if markable(snapshot, target, path@, on_disk) {
            let entry = cached_at(snapshot, target, path@)->0;
            match timestamp {
                Ok(t) => r matches Ok(m) && m.removes(snapshot, target, entry, snapshot_path@)
                    && m.record.timestamp == t,
                Err(cause) => r == Err::<Marked, CliError>(cause),
            }
        } else {
            r matches Err(e) && mark_refused(snapshot, target, path@, on_disk, e)
        },
{
    let entry = match checked_removal(&snapshot, target, path, on_disk) {
        Ok(entry) => entry,
        Err(e) => return Err(e),
    };
    let mut after = snapshot;
    let result = prune_cached_entry(&mut after, target, &entry);
    let timestamp = match timestamp {
        Ok(t) => t,
        Err(e) => return Err(e),
    };
    let record = cleanup_entry_at(target, &entry, &result, timestamp);
    let report = MarkRemovedResult {
        removed: true,
        target_type: navigation_target_label(target).to_owned(),
        path: entry.path,
        removed_files: result.removed_files,
        removed_folders: result.removed_folders,
        snapshot_path: snapshot_path.to_owned(),
    };
    Ok(Marked { snapshot: after, record, report })
}

/// Marks a cached path as removed now.
pub fn mark_cached_path_removed(
    snapshot: Snapshot,
    target: NavigationTarget,
    path: &str,
    on_disk: Result<bool, CliError>,
    snapshot_path: &str,
) -> (r: Result<Marked, CliError>)
    requires
        snapshot.wf(),
    ensures
        if markable(snapshot, target, path@, on_disk) {
            match r {
                Ok(m) => m.removes(
                    snapshot,
                    target,
                    cached_at(snapshot, target, path@)->0,
                    snapshot_path@,
                ) && is_moment(m.record.timestamp),
                Err(e) => moment_failed(e),
            }
        } else {
            r matches Err(e) && mark_refused(snapshot, target, path@, on_disk, e)
        },
{
    mark_cached_path_removed_at(
        snapshot,
        target,
        path,
        on_disk,
        timestamped_event(),
        snapshot_path,
    )
}

/// A marked removal takes at least one entry out of the cached list.
pub proof fn law_marking_removes(snapshot: Snapshot, target: NavigationTarget, path: Seq<char>)
    requires
        cached_at(snapshot, target, path) is Some,
        snapshot.largest_files@.len() <= usize::MAX,
        snapshot.largest_folders@.len() <= usize::MAX,
    ensures
        ({
            let entry = cached_at(snapshot, target, path)->0;
            let result = prune_result(snapshot.cache(), target, entry);
            match target {
                NavigationTarget::File => result.removed_files > 0,
                NavigationTarget::Folder => result.removed_folders > 0,
            }
        }),
{
    lemma_found_is_cached(snapshot, target, path);
    let entry = cached_at(snapshot, target, path)->0;
    lemma_filter(snapshot.largest_files@, |e: SizedEntry| !one_path(e.path@, entry.path@));
    lemma_filter(snapshot.largest_folders@, |e: SizedEntry| !at_or_under(e.path@, entry.path@));
}

/// Replaying the journal over the base keeps up with marking: where the active
/// cache is the base with the journal replayed, it still is once a removal has
/// been marked and recorded.
pub proof fn law_marking_keeps_replay(
    base: Cache,
    journal: Seq<CleanupJournalEntry>,
    snapshot: Snapshot,
    target: NavigationTarget,
    entry: SizedEntry,
    snapshot_path: Seq<char>,
    marked: Marked,
)
    requires
        snapshot.cache() == replayed(base, journal),
        marked.removes(snapshot, target, entry, snapshot_path),
    ensures
        marked.snapshot.cache() == replayed(base, journal.push(marked.record)),
{
    law_label_round_trip(target);
    assert(journal.push(marked.record).drop_last() == journal);
}

/// Replaying an empty journal gives the base back.
pub proof fn law_empty_replay(base: Cache)
    ensures
        replayed(base, Seq::empty()) == base,
{
}

/// Empty journals count nothing: after a full scan, which starts them anew,
/// nothing is removed and nothing is saved.
pub proof fn law_empty_journals_count_nothing()
    ensures
        sum_of(Seq::empty(), removed_files_in()) == 0,
        sum_of(Seq::empty(), removed_folders_in()) == 0,
        sum_of(Seq::empty(), removed_bytes_in()) == 0,
        sum_of(Seq::empty(), removed_allocated_in()) == 0,
        sum_of(Seq::empty(), readouts_in()) == 0,
        sum_of(Seq::empty(), navigations_in()) == 0,
        sum_of(Seq::empty(), saved_bytes_in()) == 0,
        sum_of(Seq::empty(), saved_allocated_in()) == 0,
        sum_of(Seq::empty(), saved_files_in()) == 0,
        sum_of(Seq::empty(), saved_folders_in()) == 0,
        sum_of(Seq::empty(), saved_time_in()) == 0,
{
}

/// Replaying a journal in two parts is replaying it whole.
pub proof fn law_replay_in_parts(
    base: Cache,
    first: Seq<CleanupJournalEntry>,
    second: Seq<CleanupJournalEntry>,
)
    ensures
        replayed(replayed(base, first), second) == replayed(base, first + second),
    decreases second.len(),
{
    if second.len() == 0 {
        assert(first + second == first);
    } else {
        law_replay_in_parts(base, first, second.drop_last());
        assert((first + second).drop_last() == first + second.drop_last());
    }
}

/// Replaying the last removal once more changes nothing.
pub proof fn law_replay_last_again(base: Cache, journal: Seq<CleanupJournalEntry>)
    requires
        journal.len() > 0,
    ensures
        replayed(base, journal.push(journal.last())) == replayed(base, journal),
{
    assert(journal.push(journal.last()).drop_last() == journal);
    crate::prune::law_prune_twice(
        replayed(base, journal.drop_last()),
        labelled_target(journal.last().target_type@),
        journal.last().entry,
    );
}

// ---------------------------------------------------------------------------
// Journal files
// ---------------------------------------------------------------------------

/// A line of a journal file with its number, counted from one.
#[derive(Debug, PartialEq, Eq)]
pub struct JournalLine {
    pub number: usize,
    pub text: String,
}

/// The numbers and texts of lines.
pub open spec fn numbered(list: Seq<JournalLine>) -> Seq<(int, Seq<char>)> {
    list.map_values(|l: JournalLine| (l.number as int, l.text@))
}

/// The lines that are not blank, each with its number.
pub open spec fn written_lines(all: Seq<Seq<char>>) -> Seq<(int, Seq<char>)>
    decreases all.len(),
{
    if all.len() == 0 {
        Seq::empty()
    } else if trim(all.last()).len() == 0 {
        written_lines(all.drop_last())
    } else {
        written_lines(all.drop_last()).push((all.len() as int, all.last()))
    }
}

/// The entries of a journal file, still as text.
pub fn journal_lines(contents: &str) -> (r: Vec<JournalLine>)
    ensures
        numbered(r@) == written_lines(lines(contents@)),
{
    let all = lines_of(contents);
    let ghost every = texts(all@);
    let mut kept: Vec<JournalLine> = Vec::new();
    assert(numbered(kept@) =~= Seq::<(int, Seq<char>)>::empty());
    for i in 0..all.len()
        invariant
            every == texts(all@),
            numbered(kept@) == written_lines(every.take(i as int)),
    {
        assert(every.take(i + 1).drop_last() =~= every.take(i as int));
        assert(every.take(i + 1).last() == all@[i as int]@);
        let ghost before = numbered(kept@);
        if !is_blank(all[i].as_str()) {
            let line = JournalLine { number: i + 1, text: all[i].clone() };
            kept.push(line);
            assert(numbered(kept@) =~= before.push((i + 1, all@[i as int]@)));
        }
    }
    assert(every.take(every.len() as int) =~= every);
    kept
}

/// Where in a journal file an entry could not be parsed.
pub fn journal_line_context(label: &str, path: &str, number: usize) -> (r: String)
    ensures
        r@ == "failed to parse "@ + label@ + " "@ + path@ + " line "@ + decimal(number as nat),
{
    "failed to parse ".to_owned().concat(label).concat(" ").concat(path).concat(" line ").concat(
        decimal_text(number as u64).as_str(),
    )
}

// ---------------------------------------------------------------------------
// Totals
// ---------------------------------------------------------------------------

/// A sum that stops at the largest machine number.
pub open spec fn capped(n: nat) -> u64 {
    if n <= u64::MAX {
        n as u64
    } else {
        u64::MAX
    }
}

/// What has been removed by hand.
#[derive(Debug, PartialEq, Eq)]
pub struct ManualCleanupTotals {
    pub events: usize,
    pub removed_files: usize,
    pub removed_folders: usize,
    pub bytes: u64,
    pub allocated_bytes: u64,
    pub human_size: String,
    pub human_on_disk: String,
}

/// The removed files of a record.
pub open spec fn removed_files_in() -> spec_fn(CleanupJournalEntry) -> nat {
    |e: CleanupJournalEntry| e.removed_files as nat
}

/// The removed folders of a record.
pub open spec fn removed_folders_in() -> spec_fn(CleanupJournalEntry) -> nat {
    |e: CleanupJournalEntry| e.removed_folders as nat
}

/// The removed bytes of a record.
pub open spec fn removed_bytes_in() -> spec_fn(CleanupJournalEntry) -> nat {
    |e: CleanupJournalEntry| e.bytes as nat
}

/// The bytes removed from disk of a record.
pub open spec fn removed_allocated_in() -> spec_fn(CleanupJournalEntry) -> nat {
    |e: CleanupJournalEntry| e.allocated_bytes as nat
}

/// The totals of the cleanup journal. Byte sums stop at the largest number;
/// the counts must add up within machine range.
pub fn manual_cleanup_totals(entries: &Vec<CleanupJournalEntry>) -> (r: ManualCleanupTotals)
    requires
        sum_of(entries@, removed_files_in()) <= usize::MAX,
        sum_of(entries@, removed_folders_in()) <= usize::MAX,
    ensures
        r.events == entries@.len(),
        r.removed_files == sum_of(entries@, removed_files_in()),
        r.removed_folders == sum_of(entries@, removed_folders_in()),
        r.bytes == capped(sum_of(entries@, removed_bytes_in())),
        r.allocated_bytes == capped(sum_of(entries@, removed_allocated_in())),
        r.human_size@ == size_text(r.bytes as nat),
        r.human_on_disk@ == size_text(r.allocated_bytes as nat),
{
    let mut removed_files: usize = 0;
    let mut removed_folders: usize = 0;
    let mut bytes: u64 = 0;
    let mut allocated_bytes: u64 = 0;
    for i in 0..entries.len()
        invariant
            sum_of(entries@, removed_files_in()) <= usize::MAX,
            sum_of(entries@, removed_folders_in()) <= usize::MAX,
            removed_files == sum_of(entries@.take(i as int), removed_files_in()),
            removed_folders == sum_of(entries@.take(i as int), removed_folders_in()),
            bytes == capped(sum_of(entries@.take(i as int), removed_bytes_in())),
            allocated_bytes == capped(sum_of(entries@.take(i as int), removed_allocated_in())),
    {
        proof {
            lemma_sum_take(entries@, i as int, removed_files_in());
            lemma_sum_take(entries@, i as int, removed_folders_in());
            lemma_sum_take(entries@, i as int, removed_bytes_in());
            lemma_sum_take(entries@, i as int, removed_allocated_in());
        }
        let entry = &entries[i];
        removed_files += entry.removed_files;
        removed_folders += entry.removed_folders;
        bytes = bytes.saturating_add(entry.bytes);
        allocated_bytes = allocated_bytes.saturating_add(entry.allocated_bytes);
    }
    assert(entries@.take(entries@.len() as int) == entries@);
    ManualCleanupTotals {
        events: entries.len(),
        removed_files,
        removed_folders,
        bytes,
        allocated_bytes,
        human_size: human_size(bytes),
        human_on_disk: human_size(allocated_bytes),
    }
}

/// The totals of the cleanup journal, or nothing where its counts do not add
/// up within machine range.
pub fn checked_cleanup_totals(entries: &Vec<CleanupJournalEntry>) -> (r: Option<
    ManualCleanupTotals,
>)
    ensures
        r is Some <==> sum_of(entries@, removed_files_in()) <= usize::MAX && sum_of(
            entries@,
            removed_folders_in(),
        ) <= usize::MAX,
        r matches Some(t) ==> {
            &&& t.events == entries@.len()
            &&& t.removed_files == sum_of(entries@, removed_files_in())
            &&& t.removed_folders == sum_of(entries@, removed_folders_in())
            &&& t.bytes == capped(sum_of(entries@, removed_bytes_in()))
            &&& t.allocated_bytes == capped(sum_of(entries@, removed_allocated_in()))
            &&& t.human_size@ == size_text(t.bytes as nat)
            &&& t.human_on_disk@ == size_text(t.allocated_bytes as nat)
        },
{
    let mut removed_files: usize = 0;
    let mut removed_folders: usize = 0;
    for i in 0..entries.len()
        invariant
            removed_files == sum_of(entries@.take(i as int), removed_files_in()),
            removed_folders == sum_of(entries@.take(i as int), removed_folders_in()),
    {
        proof {
            lemma_sum_take(entries@, i as int, removed_files_in());
            lemma_sum_take(entries@, i as int, removed_folders_in());
        }
        let entry = &entries[i];
        removed_files = match removed_files.checked_add(entry.removed_files) {
            Some(n) => n,
            None => return None,
        };
        removed_folders = match removed_folders.checked_add(entry.removed_folders) {
            Some(n) => n,
            None => return None,
        };
    }
    assert(entries@.take(entries@.len() as int) == entries@);
    Some(manual_cleanup_totals(entries))
}

/// What a command did with the cache.
#[derive(Debug, Clone, Copy, PartialEq, Eq, Structural)]
pub enum CacheUsageEventKind {
    Summary,
    Files,
    Folders,
    Browse,
    ScanAutoSkip,
    CacheNavigation,
}

impl CacheUsageEventKind {
    /// Whether the event stands for a scan that was not needed.
    pub fn counts_as_readout(self) -> (r: bool)
        ensures
            r == (self != CacheUsageEventKind::CacheNavigation),
    {
        matches!(
            self,
            CacheUsageEventKind::Summary | CacheUsageEventKind::Files | CacheUsageEventKind::Folders
                | CacheUsageEventKind::Browse | CacheUsageEventKind::ScanAutoSkip
        )
    }
}

/// A use of the cache.
#[derive(Debug, PartialEq, Eq)]
pub struct CacheUsageJournalEntry {
    pub version: u32,
    pub timestamp: TimestampedEvent,
    pub event: CacheUsageEventKind,
    pub counts_as_readout: bool,
    pub basis_scanned_at_unix: u64,
    pub basis_total_bytes: u64,
    pub basis_total_allocated_bytes: u64,
    pub basis_file_count: u64,
    pub basis_folder_count: u64,
    pub basis_elapsed_ms: u64,
}

impl CacheUsageJournalEntry {
    /// This is the record of an event on the basis of a snapshot.
    pub open spec fn records(self, event: CacheUsageEventKind, basis: Snapshot) -> bool {
        &&& self.version == CACHE_USAGE_JOURNAL_VERSION
        &&& self.event == event
        &&& self.counts_as_readout == (event != CacheUsageEventKind::CacheNavigation)
        &&& self.basis_scanned_at_unix == basis.scanned_at_unix
        &&& self.basis_total_bytes == basis.total_bytes
        &&& self.basis_total_allocated_bytes == basis.total_allocated_bytes
        &&& self.basis_file_count == basis.file_count
        &&& self.basis_folder_count == basis.folder_count
        &&& self.basis_elapsed_ms == basis.scan_stats.elapsed_ms
    }
}

/// The record of an event at a given moment.
pub fn cache_usage_at(
    event: CacheUsageEventKind,
    basis: &Snapshot,
    timestamp: TimestampedEvent,
) -> (r: CacheUsageJournalEntry)
    ensures
        r.records(event, *basis),
        r.timestamp == timestamp,
{
    CacheUsageJournalEntry {
        version: CACHE_USAGE_JOURNAL_VERSION,
        timestamp,
        event,
        counts_as_readout: event.counts_as_readout(),
        basis_scanned_at_unix: basis.scanned_at_unix,
        basis_total_bytes: basis.total_bytes,
        basis_total_allocated_bytes: basis.total_allocated_bytes,
        basis_file_count: basis.file_count,
        basis_folder_count: basis.folder_count,
        basis_elapsed_ms: basis.scan_stats.elapsed_ms,
    }
}

/// The snapshot that savings are measured by: the base where it can be read,
/// else the active one.
pub open spec fn usage_basis(
    base: Result<Snapshot, CliError>,
    active: Result<Snapshot, CliError>,
) -> Result<Snapshot, CliError> {
    match base {
        Ok(_) => base,
        Err(_) => active,
    }
}

/// The record of an event now. The active snapshot is what counts where there
/// is no base.
pub fn record_cache_usage(
    base: Result<Snapshot, CliError>,
    active: Result<Snapshot, CliError>,
    event: CacheUsageEventKind,
) -> (r: Result<CacheUsageJournalEntry, CliError>)
    ensures
        match usage_basis(base, active) {
            Ok(basis) => match r {
                Ok(entry) => entry.records(event, basis) && is_moment(entry.timestamp),
                Err(e) => moment_failed(e),
            },
            Err(cause) => r == Err::<CacheUsageJournalEntry, CliError>(cause),
        },
{
    let basis = match base {
        Ok(snapshot) => snapshot,
        Err(_) => match active {
            Ok(snapshot) => snapshot,
            Err(e) => return Err(e),
        },
    };
    match timestamped_event() {
        Ok(timestamp) => Ok(cache_usage_at(event, &basis, timestamp)),
        Err(e) => Err(e),
    }
}

/// What the cache has saved.
#[derive(Debug, PartialEq, Eq)]
pub struct CacheSavingsTotals {
    pub counted_readouts: usize,
    pub estimated_logical_bytes_not_rewalked: u64,
    pub estimated_allocated_bytes_not_rewalked: u64,
    pub estimated_files_not_rechecked: u64,
    pub estimated_folders_not_rechecked: u64,
    pub estimated_scan_time_saved_ms: u64,
    pub estimated_logical_size_not_rewalked: String,
    pub estimated_on_disk_not_rewalked: String,
    pub estimated_scan_time_saved: String,
    pub cache_navigation_count: usize,
    pub basis: String,
}

/// One, where the use counts as a readout.
pub open spec fn readouts_in() -> spec_fn(CacheUsageJournalEntry) -> nat {
    |e: CacheUsageJournalEntry|
        if e.counts_as_readout {
            1
        } else {
            0
        }
}

/// One, where the use is a navigation.
pub open spec fn navigations_in() -> spec_fn(CacheUsageJournalEntry) -> nat {
    |e: CacheUsageJournalEntry|
        if e.event == CacheUsageEventKind::CacheNavigation {
            1
        } else {
            0
        }
}

/// The bytes that a readout did not walk again.
pub open spec fn saved_bytes_in() -> spec_fn(CacheUsageJournalEntry) -> nat {
    |e: CacheUsageJournalEntry|
        if e.counts_as_readout {
            e.basis_total_bytes as nat
        } else {
            0
        }
}

/// The bytes on disk that a readout did not walk again.
pub open spec fn saved_allocated_in() -> spec_fn(CacheUsageJournalEntry) -> nat {
    |e: CacheUsageJournalEntry|
        if e.counts_as_readout {
            e.basis_total_allocated_bytes as nat
        } else {
            0
        }
}

/// The files that a readout did not check again.
pub open spec fn saved_files_in() -> spec_fn(CacheUsageJournalEntry) -> nat {
    |e: CacheUsageJournalEntry|
        if e.counts_as_readout {
            e.basis_file_count as nat
        } else {
            0
        }
}

/// The folders that a readout did not check again.
pub open spec fn saved_folders_in() -> spec_fn(CacheUsageJournalEntry) -> nat {
    |e: CacheUsageJournalEntry|
        if e.counts_as_readout {
            e.basis_folder_count as nat
        } else {
            0
        }
}

/// The milliseconds that a readout saved.
pub open spec fn saved_time_in() -> spec_fn(CacheUsageJournalEntry) -> nat {
    |e: CacheUsageJournalEntry|
        if e.counts_as_readout {
            e.basis_elapsed_ms as nat
        } else {
            0
        }
}

/// The savings that the usage journal stands for: each counted readout is one
/// scan that was not needed. Sums stop at the largest number.
pub fn cache_savings_totals(entries: &Vec<CacheUsageJournalEntry>) -> (r: CacheSavingsTotals)
    ensures
        r.counted_readouts == sum_of(entries@, readouts_in()),
        r.estimated_logical_bytes_not_rewalked == capped(sum_of(entries@, saved_bytes_in())),
        r.estimated_allocated_bytes_not_rewalked == capped(sum_of(entries@, saved_allocated_in())),
        r.estimated_files_not_rechecked == capped(sum_of(entries@, saved_files_in())),
        r.estimated_folders_not_rechecked == capped(sum_of(entries@, saved_folders_in())),
        r.estimated_scan_time_saved_ms == capped(sum_of(entries@, saved_time_in())),
        r.estimated_logical_size_not_rewalked@ == size_text(
            r.estimated_logical_bytes_not_rewalked as nat,
        ),
        r.estimated_on_disk_not_rewalked@ == size_text(
            r.estimated_allocated_bytes_not_rewalked as nat,
        ),
        r.estimated_scan_time_saved@ == duration_text(r.estimated_scan_time_saved_ms as nat),
        r.cache_navigation_count == sum_of(entries@, navigations_in()),
        r.basis@
            == "Each counted cache readout estimates one avoided full readout of the last scanned scope."@,
{
    let mut readouts: usize = 0;
    let mut navigations: usize = 0;
    let mut bytes: u64 = 0;
    let mut allocated: u64 = 0;
    let mut files: u64 = 0;
    let mut folders: u64 = 0;
    let mut time: u64 = 0;
    for i in 0..entries.len()
        invariant
            readouts <= i,
            navigations <= i,
            readouts == sum_of(entries@.take(i as int), readouts_in()),
            navigations == sum_of(entries@.take(i as int), navigations_in()),
            bytes == capped(sum_of(entries@.take(i as int), saved_bytes_in())),
            allocated == capped(sum_of(entries@.take(i as int), saved_allocated_in())),
            files == capped(sum_of(entries@.take(i as int), saved_files_in())),
            folders == capped(sum_of(entries@.take(i as int), saved_folders_in())),
            time == capped(sum_of(entries@.take(i as int), saved_time_in())),
    {
        proof {
            lemma_sum_take(entries@, i as int, readouts_in());
            lemma_sum_take(entries@, i as int, navigations_in());
            lemma_sum_take(entries@, i as int, saved_bytes_in());
            lemma_sum_take(entries@, i as int, saved_allocated_in());
            lemma_sum_take(entries@, i as int, saved_files_in());
            lemma_sum_take(entries@, i as int, saved_folders_in());
            lemma_sum_take(entries@, i as int, saved_time_in());
        }
        let entry = &entries[i];
        if entry.counts_as_readout {
            readouts += 1;
            bytes = bytes.saturating_add(entry.basis_total_bytes);
            allocated = allocated.saturating_add(entry.basis_total_allocated_bytes);
            files = files.saturating_add(entry.basis_file_count);
            folders = folders.saturating_add(entry.basis_folder_count);
            time = time.saturating_add(entry.basis_elapsed_ms);
        }
        if entry.event == CacheUsageEventKind::CacheNavigation {
            navigations += 1;
        }
    }
    assert(entries@.take(entries@.len() as int) == entries@);
    CacheSavingsTotals {
        counted_readouts: readouts,
        estimated_logical_bytes_not_rewalked: bytes,
        estimated_allocated_bytes_not_rewalked: allocated,
        estimated_files_not_rechecked: files,
        estimated_folders_not_rechecked: folders,
        estimated_scan_time_saved_ms: time,
        estimated_logical_size_not_rewalked: human_size(bytes),
        estimated_on_disk_not_rewalked: human_size(allocated),
        estimated_scan_time_saved: human_duration(time),
        cache_navigation_count: navigations,
        basis:
            "Each counted cache readout estimates one avoided full readout of the last scanned scope.".to_owned(),
    }
}

/// A recorded navigation adds to the number of navigations and to none of the
/// savings.
pub proof fn law_navigation_saves_nothing(
    entries: Seq<CacheUsageJournalEntry>,
    record: CacheUsageJournalEntry,
    basis: Snapshot,
)
    requires
        record.records(CacheUsageEventKind::CacheNavigation, basis),
    ensures
        ({
            let after = entries.push(record);
            &&& sum_of(after, navigations_in()) == sum_of(entries, navigations_in()) + 1
            &&& sum_of(after, readouts_in()) == sum_of(entries, readouts_in())
            &&& sum_of(after, saved_bytes_in()) == sum_of(entries, saved_bytes_in())
            &&& sum_of(after, saved_allocated_in()) == sum_of(entries, saved_allocated_in())
            &&& sum_of(after, saved_files_in()) == sum_of(entries, saved_files_in())
            &&& sum_of(after, saved_folders_in()) == sum_of(entries, saved_folders_in())
            &&& sum_of(after, saved_time_in()) == sum_of(entries, saved_time_in())
        }),
{
    lemma_sum_push(entries, record, navigations_in());
    lemma_sum_push(entries, record, readouts_in());
    lemma_sum_push(entries, record, saved_bytes_in());
    lemma_sum_push(entries, record, saved_allocated_in());
    lemma_sum_push(entries, record, saved_files_in());
    lemma_sum_push(entries, record, saved_folders_in());
    lemma_sum_push(entries, record, saved_time_in());
}

/// A recorded readout adds one scan of its basis to the savings.
pub proof fn law_readout_saves_one_scan(
    entries: Seq<CacheUsageJournalEntry>,
    record: CacheUsageJournalEntry,
    event: CacheUsageEventKind,
    basis: Snapshot,
)
    requires
        record.records(event, basis),
        event != CacheUsageEventKind::CacheNavigation,
    ensures
        ({
            let after = entries.push(record);
            &&& sum_of(after, navigations_in()) == sum_of(entries, navigations_in())
            &&& sum_of(after, readouts_in()) == sum_of(entries, readouts_in()) + 1
            &&& sum_of(after, saved_bytes_in()) == sum_of(entries, saved_bytes_in())
                + basis.total_bytes
            &&& sum_of(after, saved_allocated_in()) == sum_of(entries, saved_allocated_in())
                + basis.total_allocated_bytes
            &&& sum_of(after, saved_files_in()) == sum_of(entries, saved_files_in())
                + basis.file_count
            &&& sum_of(after, saved_folders_in()) == sum_of(entries, saved_folders_in())
                + basis.folder_count
            &&& sum_of(after, saved_time_in()) == sum_of(entries, saved_time_in())
                + basis.scan_stats.elapsed_ms
        }),
{
    lemma_sum_push(entries, record, navigations_in());
    lemma_sum_push(entries, record, readouts_in());
    lemma_sum_push(entries, record, saved_bytes_in());
    lemma_sum_push(entries, record, saved_allocated_in());
    lemma_sum_push(entries, record, saved_files_in());
    lemma_sum_push(entries, record, saved_folders_in());
    lemma_sum_push(entries, record, saved_time_in());
}

// ---------------------------------------------------------------------------
// Cache mode
// ---------------------------------------------------------------------------

/// Whether the active snapshot is the last full scan.
#[derive(Debug, Clone, Copy, PartialEq, Eq, Structural)]
pub enum CacheMode {
    BaseScan,
    PresentTracked,
}

/// The mode of the cache: the last full scan as it was, or tracked since.
pub open spec fn mode_of(base: Result<Snapshot, CliError>, snapshot: Snapshot) -> CacheMode {
    match base {
        Ok(b) => if b.equal(&snapshot) {
            CacheMode::BaseScan
        } else {
            CacheMode::PresentTracked
        },
        Err(_) => CacheMode::PresentTracked,
    }
}

/// The mode of the cache.
pub fn cache_mode(base: &Result<Snapshot, CliError>, snapshot: &Snapshot) -> (r: CacheMode)
    ensures
        r == mode_of(*base, *snapshot),
{
    match base {
        Ok(b) => if b.equals(snapshot) {
            CacheMode::BaseScan
        } else {
            CacheMode::PresentTracked
        },
        Err(_) => CacheMode::PresentTracked,
    }
}

/// The last full scan, as it is restored: its own snapshot.
pub fn restore_base_cache(base: Result<Snapshot, CliError>) -> (r: Result<Snapshot, CliError>)
    ensures
        r == base,
{
    base
}

/// A restored base is in base mode. Rates that are no numbers equal nothing, so
/// the statistics must equal themselves.
pub proof fn law_restored_is_base(base: Snapshot)
    requires
        base.scan_stats.equal(base.scan_stats),
    ensures
        mode_of(Ok(base), base) == CacheMode::BaseScan,
{
}

/// A cache that lost an entry is no longer the base scan.
pub proof fn law_removal_leaves_base_mode(
    base: Snapshot,
    target: NavigationTarget,
    entry: SizedEntry,
    after: Snapshot,
)
    requires
        cached(base.cache(), target, entry),
        after.cache() == pruned(base.cache(), target, entry),
    ensures
        mode_of(Ok(base), after) == CacheMode::PresentTracked,
{
    let elsewhere_keep = |e: SizedEntry| !one_path(e.path@, entry.path@);
    let outside_keep = |e: SizedEntry| !at_or_under(e.path@, entry.path@);
    lemma_filter(base.largest_files@, elsewhere_keep);
    lemma_filter(base.largest_folders@, outside_keep);
    crate::prune::lemma_pruned_lengths(base.cache(), target, entry);
    match target {
        NavigationTarget::File => {
            assert(after.largest_files@.len() < base.largest_files@.len());
            assert(crate::snapshot::entry_views(after.largest_files@).len()
                != crate::snapshot::entry_views(base.largest_files@).len());
        },
        NavigationTarget::Folder => {
            assert(after.largest_folders@.len() < base.largest_folders@.len());
            assert(crate::snapshot::entry_views(after.largest_folders@).len()
                != crate::snapshot::entry_views(base.largest_folders@).len());
        },
    }
}

// ---------------------------------------------------------------------------
// Listing
// ---------------------------------------------------------------------------

/// A line of the cleanup list. `at` counts from zero.
pub open spec fn cleanup_line(at: nat, entry: CleanupJournalEntry) -> Seq<char> {
    "  "@ + decimal(at + 1) + ". "@ + entry.timestamp.utc@ + " "@ + entry.path@ + " ("@
        + entry.human_on_disk@ + ", "@ + decimal(entry.removed_files as nat) + " file(s), "@
        + decimal(entry.removed_folders as nat) + " folder(s))"@
}

/// The cleanup list.
pub open spec fn cleanup_list(entries: Seq<CleanupJournalEntry>) -> Seq<Seq<char>> {
    if entries.len() == 0 {
        seq!["No manual cleanup entries."@]
    } else {
        seq!["Manual cleanup journal"@] + Seq::new(
            entries.len(),
            |i: int| cleanup_line(i as nat, entries[i]),
        )
    }
}

/// The lines that list the cleanup journal.
pub fn print_cleanup_journal(entries: &Vec<CleanupJournalEntry>) -> (r: Vec<String>)
    ensures
        texts(r@) == cleanup_list(entries@),
{
    let mut out: Vec<String> = Vec::new();
    if entries.len() == 0 {
        out.push("No manual cleanup entries.".to_owned());
        assert(texts(out@) =~= cleanup_list(entries@));
        return out;
    }
    out.push("Manual cleanup journal".to_owned());
    for i in 0..entries.len()
        invariant
            entries@.len() > 0,
            out@.len() == i + 1,
            texts(out@) =~= cleanup_list(entries@).take(i + 1),
    {
        let entry = &entries[i];
        let line = "  ".to_owned().concat(decimal_text(i as u64 + 1).as_str()).concat(". ").concat(
            entry.timestamp.utc.as_str(),
        ).concat(" ").concat(entry.path.as_str()).concat(" (").concat(
            entry.human_on_disk.as_str(),
        ).concat(", ").concat(decimal_text(entry.removed_files as u64).as_str()).concat(
            " file(s), ",
        ).concat(decimal_text(entry.removed_folders as u64).as_str()).concat(" folder(s))");
        assert(line@ == cleanup_line(i as nat, *entry));
        assert(cleanup_list(entries@)[i + 1] == line@);
        out.push(line);
    }
    assert(cleanup_list(entries@).take(entries@.len() as int + 1) =~= cleanup_list(entries@));
    out
}

} // verus!
