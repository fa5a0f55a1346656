//! The cached result of a scan.
use crate::clock::{current_unix, read_from_clock, seconds_or};
use crate::double::Double;
use crate::error::CliError;
use crate::order::Order;
use crate::text::{
    lemma_text_lt_asymmetric, lemma_text_lt_total, lemma_text_lt_transitive, same_text, text_before,
    text_le, texts,
};
use vstd::prelude::*;

verus! {

/// The snapshot schema that this version writes and reads.
pub const SNAPSHOT_VERSION: u32 = 3;

/// Seconds in a day.
pub const DAY: u64 = 86_400;

/// A file or folder with its size.
#[derive(Debug, PartialEq, Eq)]
pub struct SizedEntry {
    pub path: String,
    pub bytes: u64,
    pub allocated_bytes: u64,
    pub files: Option<u64>,
    pub category: Option<String>,
}

/// A copy of an optional text.
pub fn copy_text(text: &Option<String>) -> (r: Option<String>)
    ensures
        r == *text,
{
    match text {
        Some(t) => Some(t.clone()),
        None => None,
    }
}

impl Clone for SizedEntry {
    fn clone(&self) -> (r: Self)
        ensures
            r == *self,
    {
        SizedEntry {
            path: self.path.clone(),
            bytes: self.bytes,
            allocated_bytes: self.allocated_bytes,
            files: self.files,
            category: copy_text(&self.category),
        }
    }
}

/// What an entry says, its texts by their characters.
pub struct EntryView {
    pub path: Seq<char>,
    pub bytes: u64,
    pub allocated_bytes: u64,
    pub files: Option<u64>,
    pub category: Option<Seq<char>>,
}

/// The characters of an optional text.
pub open spec fn opt_text(text: Option<String>) -> Option<Seq<char>> {
    match text {
        Some(t) => Some(t@),
        None => None,
    }
}

impl View for SizedEntry {
    type V = EntryView;

    open spec fn view(&self) -> EntryView {
        EntryView {
            path: self.path@,
            bytes: self.bytes,
            allocated_bytes: self.allocated_bytes,
            files: self.files,
            category: opt_text(self.category),
        }
    }
}

/// What a list of entries says.
pub open spec fn entry_views(list: Seq<SizedEntry>) -> Seq<EntryView> {
    list.map_values(|e: SizedEntry| e@)
}

/// The size of a category.
#[derive(Debug, PartialEq, Eq)]
pub struct CategoryTotal {
    pub name: String,
    pub bytes: u64,
    pub allocated_bytes: u64,
    pub files: u64,
}

impl Clone for CategoryTotal {
    fn clone(&self) -> (r: Self)
        ensures
            r == *self,
    {
        CategoryTotal {
            name: self.name.clone(),
            bytes: self.bytes,
            allocated_bytes: self.allocated_bytes,
            files: self.files,
        }
    }
}

/// What a category total says.
pub struct CategoryView {
    pub name: Seq<char>,
    pub bytes: u64,
    pub allocated_bytes: u64,
    pub files: u64,
}

impl View for CategoryTotal {
    type V = CategoryView;

    open spec fn view(&self) -> CategoryView {
        CategoryView {
            name: self.name@,
            bytes: self.bytes,
            allocated_bytes: self.allocated_bytes,
            files: self.files,
        }
    }
}

/// What a list of category totals says.
pub open spec fn category_views(list: Seq<CategoryTotal>) -> Seq<CategoryView> {
    list.map_values(|c: CategoryTotal| c@)
}

/// A path that a scan left out, and why.
#[derive(Debug, PartialEq, Eq)]
pub struct SkippedPath {
    pub path: String,
    pub reason: String,
}

impl Clone for SkippedPath {
    fn clone(&self) -> (r: Self)
        ensures
            r == *self,
    {
        SkippedPath { path: self.path.clone(), reason: self.reason.clone() }
    }
}

/// What a list of skipped paths says: path and reason.
pub open spec fn skipped_views(list: Seq<SkippedPath>) -> Seq<(Seq<char>, Seq<char>)> {
    list.map_values(|s: SkippedPath| (s.path@, s.reason@))
}

/// How long a scan took and how fast it went.
#[derive(Debug, Clone, Copy, PartialEq, Eq)]
pub struct ScanStats {
    pub elapsed_ms: u64,
    pub files_per_second: Double,
    pub folders_per_second: Double,
    pub logical_bytes_per_second: Double,
    pub allocated_bytes_per_second: Double,
}

impl Default for ScanStats {
    fn default() -> (r: Self)
        ensures
            r == (ScanStats {
                elapsed_ms: 0,
                files_per_second: Double { bits: 0 },
                folders_per_second: Double { bits: 0 },
                logical_bytes_per_second: Double { bits: 0 },
                allocated_bytes_per_second: Double { bits: 0 },
            }),
    {
        let zero = Double { bits: 0 };
        ScanStats {
            elapsed_ms: 0,
            files_per_second: zero,
            folders_per_second: zero,
            logical_bytes_per_second: zero,
            allocated_bytes_per_second: zero,
        }
    }
}

impl ScanStats {
    /// Equality of statistics, rates compared as doubles are.
    pub open spec fn equal(self, other: ScanStats) -> bool {
        &&& self.elapsed_ms == other.elapsed_ms
        &&& self.files_per_second.equal(other.files_per_second)
        &&& self.folders_per_second.equal(other.folders_per_second)
        &&& self.logical_bytes_per_second.equal(other.logical_bytes_per_second)
        &&& self.allocated_bytes_per_second.equal(other.allocated_bytes_per_second)
    }

    /// Whether two statistics are equal.
    pub fn equals(&self, other: &ScanStats) -> (r: bool)
        ensures
            r == self.equal(*other),
    {
        self.elapsed_ms == other.elapsed_ms && self.files_per_second.equals(other.files_per_second)
            && self.folders_per_second.equals(other.folders_per_second)
            && self.logical_bytes_per_second.equals(other.logical_bytes_per_second)
            && self.allocated_bytes_per_second.equals(other.allocated_bytes_per_second)
    }
}

/// The cached result of a scan.
#[derive(Debug, PartialEq, Eq)]
pub struct Snapshot {
    pub version: u32,
    pub scanned_at_unix: u64,
    pub roots: Vec<String>,
    pub total_bytes: u64,
    pub total_allocated_bytes: u64,
    pub total_capacity_bytes: Option<u64>,
    pub file_count: u64,
    pub folder_count: u64,
    pub categories: Vec<CategoryTotal>,
    pub largest_files: Vec<SizedEntry>,
    pub largest_folders: Vec<SizedEntry>,
    pub skipped: Vec<SkippedPath>,
    pub access_denied_count: u64,
    pub category_rules_fingerprint: Option<String>,
    pub category_rules_source: Option<String>,
    pub scan_stats: ScanStats,
}

/// The age of a snapshot against the configured threshold.
#[derive(Debug, Clone, Copy, PartialEq, Eq)]
pub struct StaleInfo {
    pub age_days: u64,
    pub stale_after_days: u64,
    pub is_stale: bool,
}

/// The age in whole days of something scanned at `scanned`, seen at `now`; a
/// clock that stands before the scan makes it new.
pub open spec fn age_days(scanned: u64, now: u64) -> int {
    if now >= scanned {
        (now - scanned) / (DAY as int)
    } else {
        0
    }
}

/// The staleness of a scan: threshold zero means never stale.
pub open spec fn staleness(scanned: u64, now: u64, stale_after_days: u64) -> StaleInfo {
    StaleInfo {
        age_days: age_days(scanned, now) as u64,
        stale_after_days,
        is_stale: stale_after_days > 0 && age_days(scanned, now) >= stale_after_days,
    }
}

impl Snapshot {
    /// The staleness of this snapshot at the time `now`.
    pub fn stale_info_at(&self, now: u64, stale_after_days: u64) -> (r: StaleInfo)
        ensures
            r == staleness(self.scanned_at_unix, now, stale_after_days),
    {
        let age_seconds: u64 = now.saturating_sub(self.scanned_at_unix);
        let days: u64 = age_seconds / DAY;
        StaleInfo {
            age_days: days,
            stale_after_days,
            is_stale: stale_after_days > 0 && days >= stale_after_days,
        }
    }

    /// The staleness of this snapshot now; an unreadable clock makes it new.
    pub fn stale_info(&self, stale_after_days: u64) -> (r: StaleInfo)
        ensures
            exists|reading: Result<u64, CliError>| #[trigger]
                read_from_clock(reading) && r == staleness(
                    self.scanned_at_unix,
                    seconds_or(reading, self.scanned_at_unix),
                    stale_after_days,
                ),
    {
        let reading = current_unix();
        let ghost given = reading;
        assert(read_from_clock(given));
        let now: u64 = match reading {
            Ok(seconds) => seconds,
            Err(_) => self.scanned_at_unix,
        };
        self.stale_info_at(now, stale_after_days)
    }
}

/// A snapshot never gets younger: what is stale stays stale.
pub proof fn law_stale_stays_stale(scanned: u64, now: u64, later: u64, days: u64)
    requires
        now <= later,
        staleness(scanned, now, days).is_stale,
    ensures
        staleness(scanned, later, days).is_stale,
{
}

/// A threshold of zero days switches staleness off.
pub proof fn law_zero_days_never_stale(scanned: u64, now: u64)
    ensures
        !staleness(scanned, now, 0).is_stale,
{
}

// ---------------------------------------------------------------------------
// Equality
// ---------------------------------------------------------------------------

impl Snapshot {
    /// Two snapshots say the same.
    pub open spec fn equal(&self, other: &Snapshot) -> bool {
        &&& self.version == other.version
        &&& self.scanned_at_unix == other.scanned_at_unix
        &&& texts(self.roots@) == texts(other.roots@)
        &&& self.total_bytes == other.total_bytes
        &&& self.total_allocated_bytes == other.total_allocated_bytes
        &&& self.total_capacity_bytes == other.total_capacity_bytes
        &&& self.file_count == other.file_count
        &&& self.folder_count == other.folder_count
        &&& category_views(self.categories@) == category_views(other.categories@)
        &&& entry_views(self.largest_files@) == entry_views(other.largest_files@)
        &&& entry_views(self.largest_folders@) == entry_views(other.largest_folders@)
        &&& skipped_views(self.skipped@) == skipped_views(other.skipped@)
        &&& self.access_denied_count == other.access_denied_count
        &&& opt_text(self.category_rules_fingerprint) == opt_text(
            other.category_rules_fingerprint,
        )
        &&& opt_text(self.category_rules_source) == opt_text(other.category_rules_source)
        &&& self.scan_stats.equal(other.scan_stats)
    }

    /// Whether two snapshots say the same.
    pub fn equals(&self, other: &Snapshot) -> (r: bool)
        ensures
            r == self.equal(other),
    {
        self.version == other.version && self.scanned_at_unix == other.scanned_at_unix
            && same_texts(&self.roots, &other.roots) && self.total_bytes == other.total_bytes
            && self.total_allocated_bytes == other.total_allocated_bytes && same_number(
            self.total_capacity_bytes,
            other.total_capacity_bytes,
        ) && self.file_count == other.file_count && self.folder_count == other.folder_count
            && same_categories(&self.categories, &other.categories) && same_entries(
            &self.largest_files,
            &other.largest_files,
        ) && same_entries(&self.largest_folders, &other.largest_folders) && same_skipped(
            &self.skipped,
            &other.skipped,
        ) && self.access_denied_count == other.access_denied_count && same_optional(
            &self.category_rules_fingerprint,
            &other.category_rules_fingerprint,
        ) && same_optional(&self.category_rules_source, &other.category_rules_source)
            && self.scan_stats.equals(&other.scan_stats)
    }
}

fn same_number(a: Option<u64>, b: Option<u64>) -> (r: bool)
    ensures
        r == (a == b),
{
    match (a, b) {
        (Some(x), Some(y)) => x == y,
        (None, None) => true,
        _ => false,
    }
}

/// Whether two optional texts are equal.
pub fn same_optional(a: &Option<String>, b: &Option<String>) -> (r: bool)
    ensures
        r == (opt_text(*a) == opt_text(*b)),
{
    match (a, b) {
        (Some(x), Some(y)) => same_text(x.as_str(), y.as_str()),
        (None, None) => true,
        _ => false,
    }
}

fn same_entry(a: &SizedEntry, b: &SizedEntry) -> (r: bool)
    ensures
        r == (a@ == b@),
{
    same_text(a.path.as_str(), b.path.as_str()) && a.bytes == b.bytes && a.allocated_bytes
        == b.allocated_bytes && same_number(a.files, b.files) && same_optional(
        &a.category,
        &b.category,
    )
}

/// Whether two lists of texts are equal.
pub fn same_texts(a: &Vec<String>, b: &Vec<String>) -> (r: bool)
    ensures
        r == (texts(a@) == texts(b@)),
{
    let ghost x = texts(a@);
    let ghost y = texts(b@);
    if a.len() != b.len() {
        assert(x.len() != y.len());
        return false;
    }
    for i in 0..a.len()
        invariant
            a@.len() == b@.len(),
            x == texts(a@),
            y == texts(b@),
            forall|k: int| 0 <= k < i ==> #[trigger] x[k] == y[k],
    {
        if !same_text(a[i].as_str(), b[i].as_str()) {
            assert(x[i as int] != y[i as int]);
            return false;
        }
    }
    assert(x =~= y);
    true
}

fn same_entries(a: &Vec<SizedEntry>, b: &Vec<SizedEntry>) -> (r: bool)
    ensures
        r == (entry_views(a@) == entry_views(b@)),
{
    let ghost x = entry_views(a@);
    let ghost y = entry_views(b@);
    if a.len() != b.len() {
        assert(x.len() != y.len());
        return false;
    }
    for i in 0..a.len()
        invariant
            a@.len() == b@.len(),
            x == entry_views(a@),
            y == entry_views(b@),
            forall|k: int| 0 <= k < i ==> #[trigger] x[k] == y[k],
    {
        if !same_entry(&a[i], &b[i]) {
            assert(x[i as int] != y[i as int]);
            return false;
        }
    }
    assert(x =~= y);
    true
}

fn same_categories(a: &Vec<CategoryTotal>, b: &Vec<CategoryTotal>) -> (r: bool)
    ensures
        r == (category_views(a@) == category_views(b@)),
{
    let ghost x = category_views(a@);
    let ghost y = category_views(b@);
    if a.len() != b.len() {
        assert(x.len() != y.len());
        return false;
    }
    for i in 0..a.len()
        invariant
            a@.len() == b@.len(),
            x == category_views(a@),
            y == category_views(b@),
            forall|k: int| 0 <= k < i ==> #[trigger] x[k] == y[k],
    {
        let same = same_text(a[i].name.as_str(), b[i].name.as_str()) && a[i].bytes == b[i].bytes
            && a[i].allocated_bytes == b[i].allocated_bytes && a[i].files == b[i].files;
        if !same {
            assert(x[i as int] != y[i as int]);
            return false;
        }
    }
    assert(x =~= y);
    true
}

fn same_skipped(a: &Vec<SkippedPath>, b: &Vec<SkippedPath>) -> (r: bool)
    ensures
        r == (skipped_views(a@) == skipped_views(b@)),
{
    let ghost x = skipped_views(a@);
    let ghost y = skipped_views(b@);
    if a.len() != b.len() {
        assert(x.len() != y.len());
        return false;
    }
    for i in 0..a.len()
        invariant
            a@.len() == b@.len(),
            x == skipped_views(a@),
            y == skipped_views(b@),
            forall|k: int| 0 <= k < i ==> #[trigger] x[k] == y[k],
    {
        let same = same_text(a[i].path.as_str(), b[i].path.as_str()) && same_text(
            a[i].reason.as_str(),
            b[i].reason.as_str(),
        );
        if !same {
            assert(x[i as int] != y[i as int]);
            return false;
        }
    }
    assert(x =~= y);
    true
}

// ---------------------------------------------------------------------------
// Ranking
// ---------------------------------------------------------------------------

/// Larger before smaller, then by name.
pub open spec fn ranks_before(
    a1: u64,
    a2: u64,
    a3: Seq<char>,
    b1: u64,
    b2: u64,
    b3: Seq<char>,
) -> bool {
    a1 > b1 || (a1 == b1 && (a2 > b2 || (a2 == b2 && text_le(a3, b3))))
}

/// `text_le` is transitive.
pub proof fn lemma_text_le_transitive(a: Seq<char>, b: Seq<char>, c: Seq<char>)
    requires
        text_le(a, b),
        text_le(b, c),
    ensures
        text_le(a, c),
{
    if a != b && b != c {
        lemma_text_lt_transitive(a, b, c);
    }
}

fn ranked_before(a1: u64, a2: u64, a3: &str, b1: u64, b2: u64, b3: &str) -> (r: bool)
    ensures
        r == ranks_before(a1, a2, a3@, b1, b2, b3@),
{
    if a1 != b1 {
        a1 > b1
    } else if a2 != b2 {
        a2 > b2
    } else {
        let later = text_before(b3, a3);
        proof {
            lemma_text_lt_total(a3@, b3@);
            if later {
                lemma_text_lt_asymmetric(b3@, a3@);
            }
        }
        !later
    }
}

/// Folders: larger on disk first, then logically larger, then by path.
pub struct FolderRank;

impl Order<SizedEntry> for FolderRank {
    open spec fn le(a: SizedEntry, b: SizedEntry) -> bool {
        ranks_before(a.allocated_bytes, a.bytes, a.path@, b.allocated_bytes, b.bytes, b.path@)
    }

    proof fn total(a: SizedEntry, b: SizedEntry) {
        lemma_text_lt_total(a.path@, b.path@);
    }

    proof fn transitive(a: SizedEntry, b: SizedEntry, c: SizedEntry) {
        if text_le(a.path@, b.path@) && text_le(b.path@, c.path@) {
            lemma_text_le_transitive(a.path@, b.path@, c.path@);
        }
    }

    fn may_precede(a: &SizedEntry, b: &SizedEntry) -> bool {
        ranked_before(
            a.allocated_bytes,
            a.bytes,
            a.path.as_str(),
            b.allocated_bytes,
            b.bytes,
            b.path.as_str(),
        )
    }
}

/// Files: logically larger first, then by path.
pub struct FileRank;

impl Order<SizedEntry> for FileRank {
    open spec fn le(a: SizedEntry, b: SizedEntry) -> bool {
        ranks_before(a.bytes, 0, a.path@, b.bytes, 0, b.path@)
    }

    proof fn total(a: SizedEntry, b: SizedEntry) {
        lemma_text_lt_total(a.path@, b.path@);
    }

    proof fn transitive(a: SizedEntry, b: SizedEntry, c: SizedEntry) {
        if text_le(a.path@, b.path@) && text_le(b.path@, c.path@) {
            lemma_text_le_transitive(a.path@, b.path@, c.path@);
        }
    }

    fn may_precede(a: &SizedEntry, b: &SizedEntry) -> bool {
        ranked_before(a.bytes, 0, a.path.as_str(), b.bytes, 0, b.path.as_str())
    }
}

/// Categories: larger on disk first, then logically larger, then by name.
pub struct CategoryRank;

impl Order<CategoryTotal> for CategoryRank {
    open spec fn le(a: CategoryTotal, b: CategoryTotal) -> bool {
        ranks_before(a.allocated_bytes, a.bytes, a.name@, b.allocated_bytes, b.bytes, b.name@)
    }

    proof fn total(a: CategoryTotal, b: CategoryTotal) {
        lemma_text_lt_total(a.name@, b.name@);
    }

    proof fn transitive(a: CategoryTotal, b: CategoryTotal, c: CategoryTotal) {
        if text_le(a.name@, b.name@) && text_le(b.name@, c.name@) {
            lemma_text_le_transitive(a.name@, b.name@, c.name@);
        }
    }

    fn may_precede(a: &CategoryTotal, b: &CategoryTotal) -> bool {
        ranked_before(
            a.allocated_bytes,
            a.bytes,
            a.name.as_str(),
            b.allocated_bytes,
            b.bytes,
            b.name.as_str(),
        )
    }
}

/// Texts in alphabetical order of their code points.
pub struct Alphabetical;

impl Order<String> for Alphabetical {
    open spec fn le(a: String, b: String) -> bool {
        text_le(a@, b@)
    }

    proof fn total(a: String, b: String) {
        lemma_text_lt_total(a@, b@);
    }

    proof fn transitive(a: String, b: String, c: String) {
        lemma_text_le_transitive(a@, b@, c@);
    }

    fn may_precede(a: &String, b: &String) -> bool {
        let later = text_before(b.as_str(), a.as_str());
        proof {
            lemma_text_lt_total(a@, b@);
            if later {
                lemma_text_lt_asymmetric(b@, a@);
            }
        }
        !later
    }
}

} // verus!
