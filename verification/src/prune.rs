//! Taking a path out of a cached snapshot without a new scan.
use crate::order::{in_order, lemma_sorted, sort, sorted};
use crate::snapshot::{
    opt_text, CategoryRank, CategoryTotal, FileRank, FolderRank, SizedEntry, Snapshot,
};
use crate::sums::{
    lemma_filter, lemma_filter_members, lemma_filter_take, lemma_sum_filter, lemma_sum_part,
    lemma_sum_sorted, lemma_sum_take, lemma_sum_update, sum_of,
};
use crate::text::{
    begins, law_case_is_of_letters, letter_pair, lower, lower_char, same_text, texts, to_chars,
    to_lower_char, trim_back,
};
use crate::paths::{is_sep, sep};
use vstd::prelude::*;

verus! {

// ---------------------------------------------------------------------------
// Paths as the cache compares them
// ---------------------------------------------------------------------------

/// Forward slashes turned round.
pub open spec fn backslashed(s: Seq<char>) -> Seq<char> {
    s.map_values(
        |c: char|
            if c == '/' {
                '\\'
            } else {
                c
            },
    )
}

/// A path without separators at its end, separators and case made equal.
pub open spec fn path_key(path: Seq<char>) -> Seq<char> {
    lower(backslashed(trim_back(path, |c: char| is_sep(c))))
}

/// The two texts name one path.
pub open spec fn one_path(left: Seq<char>, right: Seq<char>) -> bool {
    path_key(left) == path_key(right)
}

/// The path is the folder or lies inside it.
pub open spec fn at_or_under(path: Seq<char>, folder: Seq<char>) -> bool {
    one_path(path, folder) || begins(path_key(path), path_key(folder).push('\\'))
}

/// The path without separators at its end, separators and case made equal.
pub fn normalized_path(path: &str) -> (r: Vec<char>)
    ensures
        r@ == path_key(path@),
{
    let chars = to_chars(path);
    let ghost kind = |c: char| is_sep(c);
    let mut end: usize = chars.len();
    assert(chars@.take(end as int) == chars@);
    while end > 0 && sep(chars[end - 1])
        invariant
            end <= chars@.len(),
            kind == (|c: char| is_sep(c)),
            trim_back(chars@, kind) == trim_back(chars@.take(end as int), kind),
        decreases end,
    {
        assert(chars@.take(end as int).drop_last() == chars@.take(end - 1));
        assert(chars@.take(end as int).last() == chars@[end - 1]);
        end -= 1;
    }
    let ghost body = trim_back(chars@, kind);
    assert(body == chars@.take(end as int)) by {
        if end > 0 {
            assert(chars@.take(end as int).last() == chars@[end - 1]);
        }
    }
    let mut key: Vec<char> = Vec::new();
    for i in 0..end
        invariant
            end <= chars@.len(),
            body == chars@.take(end as int),
            key@ == lower(backslashed(body)).take(i as int),
    {
        let c = chars[i];
        key.push(
            if c == '/' {
                '\\'
            } else {
                to_lower_char(c)
            },
        );
        assert(body[i as int] == c);
        assert(lower(backslashed(body))[i as int] == key@.last());
        assert(lower(backslashed(body)).take(i + 1) == lower(backslashed(body)).take(i as int).push(
            key@.last(),
        ));
    }
    assert(lower(backslashed(body)).take(end as int) == lower(backslashed(body)));
    key
}

fn same_chars(a: &Vec<char>, b: &Vec<char>) -> (r: bool)
    ensures
        r == (a@ == b@),
{
    if a.len() != b.len() {
        return false;
    }
    for i in 0..a.len()
        invariant
            a@.len() == b@.len(),
            forall|k: int| 0 <= k < i ==> a@[k] == b@[k],
    {
        if a[i] != b[i] {
            return false;
        }
    }
    assert(a@ == b@);
    true
}

/// Whether the two texts name one path.
pub fn same_path(left: &str, right: &str) -> (r: bool)
    ensures
        r == one_path(left@, right@),
{
    same_chars(&normalized_path(left), &normalized_path(right))
}

/// Whether the path is the folder or lies inside it.
pub fn path_is_under(path: &str, folder: &str) -> (r: bool)
    ensures
        r == at_or_under(path@, folder@),
{
    let path_chars = normalized_path(path);
    let mut head = normalized_path(folder);
    if same_chars(&path_chars, &head) {
        return true;
    }
    head.push('\\');
    crate::text::stands_at(path_chars.as_slice(), head.as_slice(), 0)
}

// ---------------------------------------------------------------------------
// The model
// ---------------------------------------------------------------------------

/// What pruning changes in a snapshot.
pub struct Cache {
    pub files: Seq<SizedEntry>,
    pub folders: Seq<SizedEntry>,
    pub categories: Seq<CategoryTotal>,
    pub bytes: u64,
    pub allocated_bytes: u64,
    pub file_count: u64,
    pub folder_count: u64,
}

impl Snapshot {
    /// The part of a snapshot that pruning changes.
    pub open spec fn cache(&self) -> Cache {
        Cache {
            files: self.largest_files@,
            folders: self.largest_folders@,
            categories: self.categories@,
            bytes: self.total_bytes,
            allocated_bytes: self.total_allocated_bytes,
            file_count: self.file_count,
            folder_count: self.folder_count,
        }
    }

    /// The part of a snapshot that pruning leaves alone is the same.
    pub open spec fn same_scan(&self, other: &Snapshot) -> bool {
        &&& self.version == other.version
        &&& self.scanned_at_unix == other.scanned_at_unix
        &&& self.roots == other.roots
        &&& self.total_capacity_bytes == other.total_capacity_bytes
        &&& self.skipped == other.skipped
        &&& self.access_denied_count == other.access_denied_count
        &&& self.category_rules_fingerprint == other.category_rules_fingerprint
        &&& self.category_rules_source == other.category_rules_source
        &&& self.scan_stats == other.scan_stats
    }

    /// The category totals add up within machine range.
    pub open spec fn wf(&self) -> bool {
        sums_fit(self.categories@)
    }
}

/// Subtraction that stops at zero.
pub open spec fn less(a: u64, b: u64) -> u64 {
    if a >= b {
        (a - b) as u64
    } else {
        0
    }
}

/// Three quantities of a category: bytes, bytes on disk, files.
#[derive(Clone, Copy)]
pub struct Amounts {
    pub bytes: u64,
    pub allocated_bytes: u64,
    pub files: u64,
}

/// The bytes of a category.
pub open spec fn bytes_in() -> spec_fn(CategoryTotal) -> nat {
    |c: CategoryTotal| c.bytes as nat
}

/// The bytes on disk of a category.
pub open spec fn allocated_in() -> spec_fn(CategoryTotal) -> nat {
    |c: CategoryTotal| c.allocated_bytes as nat
}

/// The files of a category.
pub open spec fn files_in() -> spec_fn(CategoryTotal) -> nat {
    |c: CategoryTotal| c.files as nat
}

/// Each sum over the categories fits in 64 bits.
pub open spec fn sums_fit(cats: Seq<CategoryTotal>) -> bool {
    &&& sum_of(cats, bytes_in()) <= u64::MAX
    &&& sum_of(cats, allocated_in()) <= u64::MAX
    &&& sum_of(cats, files_in()) <= u64::MAX
}

/// The category counts anything at all.
pub open spec fn counts(c: CategoryTotal) -> bool {
    c.bytes > 0 || c.allocated_bytes > 0 || c.files > 0
}

/// The categories that count something.
pub open spec fn counting(cats: Seq<CategoryTotal>) -> Seq<CategoryTotal> {
    cats.filter(|c: CategoryTotal| counts(c))
}

/// The place of the first category of that name, the length where none has it.
pub open spec fn named_at(cats: Seq<CategoryTotal>, name: Seq<char>) -> int
    decreases cats.len(),
{
    if cats.len() == 0 {
        0
    } else {
        let i = named_at(cats.drop_last(), name);
        if i < cats.len() - 1 {
            i
        } else if cats.last().name@ == name {
            cats.len() - 1
        } else {
            cats.len() as int
        }
    }
}

/// A category less the amounts, down to zero.
pub open spec fn lessened(c: CategoryTotal, x: Amounts) -> CategoryTotal {
    CategoryTotal {
        name: c.name,
        bytes: less(c.bytes, x.bytes),
        allocated_bytes: less(c.allocated_bytes, x.allocated_bytes),
        files: less(c.files, x.files),
    }
}

/// What is left of the amounts once the category has given all it can.
pub open spec fn left_over(c: CategoryTotal, x: Amounts) -> Amounts {
    Amounts {
        bytes: less(x.bytes, c.bytes),
        allocated_bytes: less(x.allocated_bytes, c.allocated_bytes),
        files: less(x.files, c.files),
    }
}

/// The categories after one file has left its category.
pub open spec fn without_file(cats: Seq<CategoryTotal>, file: SizedEntry) -> Seq<CategoryTotal> {
    match opt_text(file.category) {
        None => cats,
        Some(name) => {
            let i = named_at(cats, name);
            let x = Amounts {
                bytes: file.bytes,
                allocated_bytes: file.allocated_bytes,
                files: 1,
            };
            counting(
                if i < cats.len() {
                    cats.update(i, lessened(cats[i], x))
                } else {
                    cats
                },
            )
        },
    }
}

/// The categories after the files have left theirs, one after the other.
pub open spec fn without_files(cats: Seq<CategoryTotal>, files: Seq<SizedEntry>) -> Seq<
    CategoryTotal,
>
    decreases files.len(),
{
    if files.len() == 0 {
        cats
    } else {
        without_file(without_files(cats, files.drop_last()), files.last())
    }
}

/// The categories that the files name, in the order of the files.
pub open spec fn named_by(files: Seq<SizedEntry>) -> Seq<Seq<char>>
    decreases files.len(),
{
    if files.len() == 0 {
        seq![]
    } else {
        match opt_text(files.last().category) {
            None => named_by(files.drop_last()),
            Some(name) => named_by(files.drop_last()).push(name),
        }
    }
}

/// The amounts taken from the named categories, each giving what it can, and
/// what is left of them.
pub open spec fn taken_by_name(
    cats: Seq<CategoryTotal>,
    x: Amounts,
    named: Seq<Seq<char>>,
) -> (Seq<CategoryTotal>, Amounts)
    decreases named.len(),
{
    if named.len() == 0 {
        (cats, x)
    } else {
        let (d, y) = taken_by_name(cats, x, named.drop_last());
        let i = named_at(d, named.last());
        if i < d.len() {
            (d.update(i, lessened(d[i], y)), left_over(d[i], y))
        } else {
            (d, y)
        }
    }
}

/// The amounts taken from all categories, the first ones first, and what is
/// left of them.
pub open spec fn taken_in_turn(cats: Seq<CategoryTotal>, x: Amounts) -> (
    Seq<CategoryTotal>,
    Amounts,
)
    decreases cats.len(),
{
    if cats.len() == 0 {
        (cats, x)
    } else {
        let (d, y) = taken_in_turn(cats.drop_last(), x);
        (d.push(lessened(cats.last(), y)), left_over(cats.last(), y))
    }
}

/// The amounts taken from the categories, the named ones first; those that
/// count nothing any more are gone.
pub open spec fn taken(cats: Seq<CategoryTotal>, x: Amounts, named: Seq<Seq<char>>) -> Seq<
    CategoryTotal,
> {
    let (d, y) = taken_by_name(cats, x, named);
    counting(taken_in_turn(d, y).0)
}

/// By how much the categories exceed the totals.
pub open spec fn excess(
    cats: Seq<CategoryTotal>,
    bytes: u64,
    allocated: u64,
    files: u64,
) -> Amounts {
    Amounts {
        bytes: less(sum_of(cats, bytes_in()) as u64, bytes),
        allocated_bytes: less(sum_of(cats, allocated_in()) as u64, allocated),
        files: less(sum_of(cats, files_in()) as u64, files),
    }
}

/// The categories brought down to the totals, the named ones first, in order.
pub open spec fn reconciled(
    cats: Seq<CategoryTotal>,
    bytes: u64,
    allocated: u64,
    files: u64,
    named: Seq<Seq<char>>,
) -> Seq<CategoryTotal> {
    sorted::<CategoryTotal, CategoryRank>(
        taken(cats, excess(cats, bytes, allocated, files), named),
    )
}

/// A folder less what has gone from inside it.
pub open spec fn shrunk(folder: SizedEntry, gone: SizedEntry) -> SizedEntry {
    SizedEntry {
        path: folder.path,
        bytes: less(folder.bytes, gone.bytes),
        allocated_bytes: less(folder.allocated_bytes, gone.allocated_bytes),
        files: match (folder.files, gone.files) {
            (Some(have), Some(n)) => Some(less(have, n)),
            _ => folder.files,
        },
        category: folder.category,
    }
}

/// The folder, shrunk where it holds what has gone.
pub open spec fn shrunk_around(folder: SizedEntry, gone: SizedEntry) -> SizedEntry {
    if at_or_under(gone.path@, folder.path@) {
        shrunk(folder, gone)
    } else {
        folder
    }
}

/// Each folder that holds what has gone, shrunk; the rest as they were.
pub open spec fn shrunk_all(folders: Seq<SizedEntry>, gone: SizedEntry) -> Seq<SizedEntry> {
    folders.map_values(|f: SizedEntry| shrunk_around(f, gone))
}

/// Some folder holds what has gone.
pub open spec fn some_hold(folders: Seq<SizedEntry>, gone: SizedEntry) -> bool {
    exists|i: int|
        0 <= i < folders.len() && at_or_under(gone.path@, (#[trigger] folders[i]).path@)
}

/// The folders after something has gone from inside some of them.
pub open spec fn without_inside(folders: Seq<SizedEntry>, gone: SizedEntry) -> Seq<SizedEntry> {
    if some_hold(folders, gone) {
        sorted::<SizedEntry, FolderRank>(shrunk_all(folders, gone))
    } else {
        folders
    }
}

/// The entries at another path.
pub open spec fn elsewhere(list: Seq<SizedEntry>, path: Seq<char>) -> Seq<SizedEntry> {
    list.filter(|e: SizedEntry| !one_path(e.path@, path))
}

/// The entries outside the folder.
pub open spec fn outside(list: Seq<SizedEntry>, folder: Seq<char>) -> Seq<SizedEntry> {
    list.filter(|e: SizedEntry| !at_or_under(e.path@, folder))
}

/// The entries at or under the folder.
pub open spec fn inside(list: Seq<SizedEntry>, folder: Seq<char>) -> Seq<SizedEntry> {
    list.filter(|e: SizedEntry| at_or_under(e.path@, folder))
}

/// The cache without a file. Where the file is not cached nothing changes.
pub open spec fn without_cached_file(cache: Cache, file: SizedEntry) -> Cache {
    let files = elsewhere(cache.files, file.path@);
    if files.len() == cache.files.len() {
        Cache { files, ..cache }
    } else {
        let bytes = less(cache.bytes, file.bytes);
        let allocated_bytes = less(cache.allocated_bytes, file.allocated_bytes);
        let file_count = less(cache.file_count, 1);
        Cache {
            files,
            folders: cache.folders,
            categories: reconciled(
                without_file(cache.categories, file),
                bytes,
                allocated_bytes,
                file_count,
                named_by(seq![file]),
            ),
            bytes,
            allocated_bytes,
            file_count,
            folder_count: cache.folder_count,
        }
    }
}

/// How many files leave with a folder: as many as it says it holds, or those
/// that are cached.
pub open spec fn files_gone(cache: Cache, folder: SizedEntry) -> u64 {
    match folder.files {
        Some(n) => n,
        None => inside(cache.files, folder.path@).len() as u64,
    }
}

/// The cache without a folder and what lies inside it. Where no such folder is
/// cached the totals stay.
pub open spec fn without_cached_folder(cache: Cache, folder: SizedEntry) -> Cache {
    let files = outside(cache.files, folder.path@);
    let folders = outside(cache.folders, folder.path@);
    if folders.len() == cache.folders.len() {
        Cache { files, folders, ..cache }
    } else {
        let bytes = less(cache.bytes, folder.bytes);
        let allocated_bytes = less(cache.allocated_bytes, folder.allocated_bytes);
        let file_count = less(cache.file_count, files_gone(cache, folder));
        let gone = inside(cache.files, folder.path@);
        Cache {
            files,
            folders: without_inside(folders, folder),
            categories: reconciled(
                without_files(cache.categories, gone),
                bytes,
                allocated_bytes,
                file_count,
                named_by(gone),
            ),
            bytes,
            allocated_bytes,
            file_count,
            folder_count: less(
                cache.folder_count,
                (cache.folders.len() - folders.len()) as u64,
            ),
        }
    }
}

// ---------------------------------------------------------------------------
// Category totals
// ---------------------------------------------------------------------------

/// The sums of the categories cannot grow.
proof fn lemma_sums_filter(cats: Seq<CategoryTotal>)
    ensures
        sum_of(counting(cats), bytes_in()) == sum_of(cats, bytes_in()),
        sum_of(counting(cats), allocated_in()) == sum_of(cats, allocated_in()),
        sum_of(counting(cats), files_in()) == sum_of(cats, files_in()),
{
    let keep = |c: CategoryTotal| counts(c);
    lemma_sum_filter(cats, keep, bytes_in());
    lemma_sum_filter(cats, keep, allocated_in());
    lemma_sum_filter(cats, keep, files_in());
}

proof fn lemma_sums_update(cats: Seq<CategoryTotal>, i: int, c: CategoryTotal)
    requires
        0 <= i < cats.len(),
    ensures
        sum_of(cats.update(i, c), bytes_in()) == sum_of(cats, bytes_in()) - cats[i].bytes + c.bytes,
        sum_of(cats.update(i, c), allocated_in()) == sum_of(cats, allocated_in())
            - cats[i].allocated_bytes + c.allocated_bytes,
        sum_of(cats.update(i, c), files_in()) == sum_of(cats, files_in()) - cats[i].files + c.files,
{
    lemma_sum_update(cats, i, c, bytes_in());
    lemma_sum_update(cats, i, c, allocated_in());
    lemma_sum_update(cats, i, c, files_in());
}

proof fn lemma_named_at(cats: Seq<CategoryTotal>, name: Seq<char>)
    ensures
        0 <= named_at(cats, name) <= cats.len(),
        named_at(cats, name) < cats.len() ==> cats[named_at(cats, name)].name@ == name,
        forall|k: int| 0 <= k < named_at(cats, name) ==> (#[trigger] cats[k]).name@ != name,
    decreases cats.len(),
{
    if cats.len() > 0 {
        lemma_named_at(cats.drop_last(), name);
        assert forall|k: int| 0 <= k < named_at(cats, name) implies (#[trigger] cats[k]).name@
            != name by {
            if k < cats.len() - 1 {
                assert(cats.drop_last()[k] == cats[k]);
            }
        }
    }
}

/// Taking a file out of its category leaves sums that fit.
proof fn lemma_without_file_fits(cats: Seq<CategoryTotal>, file: SizedEntry)
    requires
        sums_fit(cats),
    ensures
        sums_fit(without_file(cats, file)),
{
    match opt_text(file.category) {
        None => {},
        Some(name) => {
            let i = named_at(cats, name);
            let x = Amounts {
                bytes: file.bytes,
                allocated_bytes: file.allocated_bytes,
                files: 1,
            };
            lemma_named_at(cats, name);
            lemma_sums_filter(cats);
            if i < cats.len() {
                lemma_sums_update(cats, i, lessened(cats[i], x));
                lemma_sums_filter(cats.update(i, lessened(cats[i], x)));
            }
        },
    }
}

fn find_category(cats: &Vec<CategoryTotal>, name: &str) -> (r: usize)
    ensures
        r == named_at(cats@, name@),
        r <= cats@.len(),
{
    proof {
        lemma_named_at(cats@, name@);
    }
    for i in 0..cats.len()
        invariant
            0 <= named_at(cats@, name@) <= cats@.len(),
            named_at(cats@, name@) < cats@.len() ==> cats@[named_at(cats@, name@)].name@ == name@,
            forall|k: int| 0 <= k < named_at(cats@, name@) ==> (#[trigger] cats@[k]).name@ != name@,
            forall|k: int| 0 <= k < i ==> (#[trigger] cats@[k]).name@ != name@,
    {
        if same_text(cats[i].name.as_str(), name) {
            return i;
        }
    }
    cats.len()
}

fn drop_empty_categories(cats: &Vec<CategoryTotal>) -> (r: Vec<CategoryTotal>)
    ensures
        r@ == counting(cats@),
{
    let ghost keep = |c: CategoryTotal| counts(c);
    let mut kept: Vec<CategoryTotal> = Vec::new();
    proof {
        reveal(Seq::filter);
    }
    for i in 0..cats.len()
        invariant
            keep == (|c: CategoryTotal| counts(c)),
            kept@ == cats@.take(i as int).filter(keep),
    {
        proof {
            lemma_filter_take(cats@, i as int, keep);
        }
        let c = &cats[i];
        if c.bytes > 0 || c.allocated_bytes > 0 || c.files > 0 {
            kept.push(c.clone());
        }
    }
    assert(cats@.take(cats@.len() as int) == cats@);
    kept
}

/// Takes what it can of the amounts from the category.
pub fn subtract_from_category(category: &mut CategoryTotal, amounts: &mut Amounts)
    ensures
        *final(category) == lessened(*old(category), *old(amounts)),
        *final(amounts) == left_over(*old(category), *old(amounts)),
{
    if amounts.bytes > 0 {
        let subtract: u64 = if category.bytes <= amounts.bytes {
            category.bytes
        } else {
            amounts.bytes
        };
        category.bytes -= subtract;
        amounts.bytes -= subtract;
    }
    if amounts.allocated_bytes > 0 {
        let subtract: u64 = if category.allocated_bytes <= amounts.allocated_bytes {
            category.allocated_bytes
        } else {
            amounts.allocated_bytes
        };
        category.allocated_bytes -= subtract;
        amounts.allocated_bytes -= subtract;
    }
    if amounts.files > 0 {
        let subtract: u64 = if category.files <= amounts.files {
            category.files
        } else {
            amounts.files
        };
        category.files -= subtract;
        amounts.files -= subtract;
    }
}

/// Takes the file out of its category and gives the category's name.
pub fn subtract_category_file(snapshot: &mut Snapshot, entry: &SizedEntry) -> (r: Option<String>)
    ensures
        r == entry.category,
        final(snapshot).same_scan(old(snapshot)),
        final(snapshot).cache() == (Cache {
            categories: without_file(old(snapshot).categories@, *entry),
            ..old(snapshot).cache()
        }),
{
    match &entry.category {
        None => None,
        Some(name) => {
            let i: usize = find_category(&snapshot.categories, name.as_str());
            if i < snapshot.categories.len() {
                let mut x = Amounts {
                    bytes: entry.bytes,
                    allocated_bytes: entry.allocated_bytes,
                    files: 1,
                };
                let mut category = snapshot.categories[i].clone();
                subtract_from_category(&mut category, &mut x);
                snapshot.categories.set(i, category);
            }
            snapshot.categories = drop_empty_categories(&snapshot.categories);
            Some(name.clone())
        },
    }
}

/// Takes the amounts from the categories, the preferred ones first; those that
/// count nothing any more go.
pub fn subtract_category_excess(
    categories: &mut Vec<CategoryTotal>,
    amounts: Amounts,
    preferred_categories: &Vec<String>,
)
    ensures
        final(categories)@ == taken(old(categories)@, amounts, texts(preferred_categories@)),
{
    let ghost before = categories@;
    let ghost named = texts(preferred_categories@);
    let mut rest = amounts;
    let mut list: Vec<CategoryTotal> = Vec::new();
    std::mem::swap(categories, &mut list);
    assert(named.take(0) == Seq::<Seq<char>>::empty());
    for p in 0..preferred_categories.len()
        invariant
            named == texts(preferred_categories@),
            (list@, rest) == taken_by_name(before, amounts, named.take(p as int)),
    {
        assert(named.take(p + 1).drop_last() == named.take(p as int));
        let i: usize = find_category(&list, preferred_categories[p].as_str());
        if i < list.len() {
            let mut category = list[i].clone();
            subtract_from_category(&mut category, &mut rest);
            list.set(i, category);
        }
    }
    assert(named.take(named.len() as int) == named);
    let ghost (d, y) = taken_by_name(before, amounts, named);
    let mut swept: Vec<CategoryTotal> = Vec::new();
    for i in 0..list.len()
        invariant
            list@ == d,
            (swept@, rest) == taken_in_turn(d.take(i as int), y),
    {
        assert(d.take(i + 1).drop_last() == d.take(i as int));
        let mut category = list[i].clone();
        subtract_from_category(&mut category, &mut rest);
        swept.push(category);
    }
    assert(d.take(d.len() as int) == d);
    *categories = drop_empty_categories(&swept);
}

/// Whether each sum over the categories fits in 64 bits.
pub fn category_sums_fit(cats: &Vec<CategoryTotal>) -> (r: bool)
    ensures
        r == sums_fit(cats@),
{
    let mut all = Amounts { bytes: 0, allocated_bytes: 0, files: 0 };
    for i in 0..cats.len()
        invariant
            all.bytes == sum_of(cats@.take(i as int), bytes_in()),
            all.allocated_bytes == sum_of(cats@.take(i as int), allocated_in()),
            all.files == sum_of(cats@.take(i as int), files_in()),
    {
        proof {
            lemma_sum_take(cats@, i as int, bytes_in());
            lemma_sum_take(cats@, i as int, allocated_in());
            lemma_sum_take(cats@, i as int, files_in());
        }
        let c = &cats[i];
        if c.bytes > u64::MAX - all.bytes || c.allocated_bytes > u64::MAX - all.allocated_bytes
            || c.files > u64::MAX - all.files {
            return false;
        }
        all.bytes += c.bytes;
        all.allocated_bytes += c.allocated_bytes;
        all.files += c.files;
    }
    assert(cats@.take(cats@.len() as int) == cats@);
    true
}

fn total_amounts(cats: &Vec<CategoryTotal>) -> (r: Amounts)
    requires
        sums_fit(cats@),
    ensures
        r.bytes == sum_of(cats@, bytes_in()),
        r.allocated_bytes == sum_of(cats@, allocated_in()),
        r.files == sum_of(cats@, files_in()),
{
    let mut all = Amounts { bytes: 0, allocated_bytes: 0, files: 0 };
    for i in 0..cats.len()
        invariant
            sums_fit(cats@),
            all.bytes == sum_of(cats@.take(i as int), bytes_in()),
            all.allocated_bytes == sum_of(cats@.take(i as int), allocated_in()),
            all.files == sum_of(cats@.take(i as int), files_in()),
    {
        proof {
            lemma_sum_take(cats@, i as int, bytes_in());
            lemma_sum_take(cats@, i as int, allocated_in());
            lemma_sum_take(cats@, i as int, files_in());
        }
        all.bytes += cats[i].bytes;
        all.allocated_bytes += cats[i].allocated_bytes;
        all.files += cats[i].files;
    }
    assert(cats@.take(cats@.len() as int) == cats@);
    all
}

/// Brings the categories down to the totals, the preferred ones first, and
/// puts them in order.
pub fn reconcile_category_totals(snapshot: &mut Snapshot, preferred_categories: &Vec<String>)
    requires
        old(snapshot).wf(),
    ensures
        final(snapshot).same_scan(old(snapshot)),
        final(snapshot).cache() == (Cache {
            categories: reconciled(
                old(snapshot).categories@,
                old(snapshot).total_bytes,
                old(snapshot).total_allocated_bytes,
                old(snapshot).file_count,
                texts(preferred_categories@),
            ),
            ..old(snapshot).cache()
        }),
{
    let all = total_amounts(&snapshot.categories);
    let over = Amounts {
        bytes: all.bytes.saturating_sub(snapshot.total_bytes),
        allocated_bytes: all.allocated_bytes.saturating_sub(snapshot.total_allocated_bytes),
        files: all.files.saturating_sub(snapshot.file_count),
    };
    assert(over == excess(
        snapshot.categories@,
        snapshot.total_bytes,
        snapshot.total_allocated_bytes,
        snapshot.file_count,
    ));
    subtract_category_excess(&mut snapshot.categories, over, preferred_categories);
    sort_categories(&mut snapshot.categories);
}

/// Puts the categories in order.
pub fn sort_categories(categories: &mut Vec<CategoryTotal>)
    ensures
        final(categories)@ == sorted::<CategoryTotal, CategoryRank>(old(categories)@),
{
    let mut list: Vec<CategoryTotal> = Vec::new();
    std::mem::swap(categories, &mut list);
    *categories = sort::<CategoryTotal, CategoryRank>(list);
}

/// Puts the folders in order.
pub fn sort_largest_folders(largest_folders: &mut Vec<SizedEntry>)
    ensures
        final(largest_folders)@ == sorted::<SizedEntry, FolderRank>(old(largest_folders)@),
{
    let mut list: Vec<SizedEntry> = Vec::new();
    std::mem::swap(largest_folders, &mut list);
    *largest_folders = sort::<SizedEntry, FolderRank>(list);
}

// ---------------------------------------------------------------------------
// Pruning
// ---------------------------------------------------------------------------

/// What a cached path is.
#[derive(Debug, Clone, Copy, PartialEq, Eq, Structural)]
pub enum NavigationTarget {
    File,
    Folder,
}

/// How many files and folders left the cache.
#[derive(Debug, Clone, Copy, PartialEq, Eq, Structural)]
pub struct PruneResult {
    pub removed_files: usize,
    pub removed_folders: usize,
}

/// Shrinks each cached folder that holds what has gone, and puts the folders in
/// order where one did.
pub fn subtract_folder_from_cached_ancestors(snapshot: &mut Snapshot, entry: &SizedEntry)
    ensures
        final(snapshot).same_scan(old(snapshot)),
        final(snapshot).cache() == (Cache {
            folders: without_inside(old(snapshot).largest_folders@, *entry),
            ..old(snapshot).cache()
        }),
{
    let ghost before = snapshot.largest_folders@;
    let mut changed = false;
    let mut list: Vec<SizedEntry> = Vec::new();
    std::mem::swap(&mut snapshot.largest_folders, &mut list);
    let size: usize = list.len();
    for i in 0..size
        invariant
            list@.len() == before.len(),
            size == before.len(),
            forall|k: int| 0 <= k < i ==> #[trigger] list@[k] == shrunk_around(before[k], *entry),
            forall|k: int| i <= k < before.len() ==> #[trigger] list@[k] == before[k],
            changed == some_hold(before.take(i as int), *entry),
    {
        let mut cached = list[i].clone();
        assert(cached == before[i as int]);
        let holds = path_is_under(entry.path.as_str(), cached.path.as_str());
        proof {
            let now = before.take(i as int);
            let next = before.take(i + 1);
            if changed {
                let k = choose|k: int|
                    0 <= k < now.len() && at_or_under(entry.path@, (#[trigger] now[k]).path@);
                assert(next[k] == now[k]);
            }
            if holds {
                assert(next[i as int] == before[i as int]);
            }
            if some_hold(next, *entry) && !holds {
                let k = choose|k: int|
                    0 <= k < next.len() && at_or_under(entry.path@, (#[trigger] next[k]).path@);
                assert(k != i);
                assert(now[k] == next[k]);
            }
        }
        if holds {
            cached.bytes = cached.bytes.saturating_sub(entry.bytes);
            cached.allocated_bytes = cached.allocated_bytes.saturating_sub(entry.allocated_bytes);
            if let (Some(cached_files), Some(removed_files)) = (cached.files, entry.files) {
                cached.files = Some(cached_files.saturating_sub(removed_files));
            }
            changed = true;
        }
        list.set(i, cached);
    }
    assert(before.take(before.len() as int) == before);
    assert(list@ == shrunk_all(before, *entry));
    if changed {
        snapshot.largest_folders = list;
        sort_largest_folders(&mut snapshot.largest_folders);
    } else {
        assert forall|k: int| 0 <= k < before.len() implies list@[k] == before[k] by {
            assert(list@[k] == shrunk_around(before[k], *entry));
        }
        assert(list@ == before);
        snapshot.largest_folders = list;
    }
}

/// Takes a file that is no longer cached out of the totals.
pub fn subtract_snapshot_file(snapshot: &mut Snapshot, entry: &SizedEntry)
    requires
        old(snapshot).wf(),
    ensures
        final(snapshot).same_scan(old(snapshot)),
        final(snapshot).cache() == ({
            let cache = old(snapshot).cache();
            let bytes = less(cache.bytes, entry.bytes);
            let allocated_bytes = less(cache.allocated_bytes, entry.allocated_bytes);
            let file_count = less(cache.file_count, 1);
            Cache {
                categories: reconciled(
                    without_file(cache.categories, *entry),
                    bytes,
                    allocated_bytes,
                    file_count,
                    named_by(seq![*entry]),
                ),
                bytes,
                allocated_bytes,
                file_count,
                ..cache
            }
        }),
{
    proof {
        lemma_without_file_fits(snapshot.categories@, *entry);
    }
    snapshot.total_bytes = snapshot.total_bytes.saturating_sub(entry.bytes);
    snapshot.total_allocated_bytes = snapshot.total_allocated_bytes.saturating_sub(
        entry.allocated_bytes,
    );
    snapshot.file_count = snapshot.file_count.saturating_sub(1);
    let mut preferred: Vec<String> = Vec::new();
    let ghost files = seq![*entry];
    if let Some(category) = subtract_category_file(snapshot, entry) {
        preferred.push(category);
    }
    proof {
        assert(files.drop_last() == Seq::<SizedEntry>::empty());
        assert(files.last() == *entry);
        assert(named_by(files.drop_last()) == Seq::<Seq<char>>::empty());
        assert(texts(preferred@) =~= named_by(files));
    }
    reconcile_category_totals(snapshot, &preferred);
}

/// Takes a file out of the cache.
pub fn prune_cached_file(snapshot: &mut Snapshot, entry: &SizedEntry) -> (r: PruneResult)
    requires
        old(snapshot).wf(),
    ensures
        final(snapshot).same_scan(old(snapshot)),
        final(snapshot).cache() == without_cached_file(old(snapshot).cache(), *entry),
        r.removed_files == old(snapshot).largest_files@.len() - elsewhere(
            old(snapshot).largest_files@,
            entry.path@,
        ).len(),
        r.removed_folders == 0,
{
    let ghost before = snapshot.largest_files@;
    let ghost keep = |e: SizedEntry| !one_path(e.path@, entry.path@);
    let mut kept: Vec<SizedEntry> = Vec::new();
    proof {
        reveal(Seq::filter);
        lemma_filter(before, keep);
    }
    for i in 0..snapshot.largest_files.len()
        invariant
            snapshot.largest_files@ == before,
            keep == (|e: SizedEntry| !one_path(e.path@, entry.path@)),
            kept@ == before.take(i as int).filter(keep),
    {
        proof {
            lemma_filter_take(before, i as int, keep);
        }
        let cached = &snapshot.largest_files[i];
        if !same_path(cached.path.as_str(), entry.path.as_str()) {
            kept.push(cached.clone());
        }
    }
    assert(before.take(before.len() as int) == before);
    let removed_files: usize = snapshot.largest_files.len() - kept.len();
    snapshot.largest_files = kept;
    if removed_files > 0 {
        subtract_snapshot_file(snapshot, entry);
    }
    PruneResult { removed_files, removed_folders: 0 }
}

pub fn split_outside(
    list: &Vec<SizedEntry>,
    folder: &str,
) -> (r: (Vec<SizedEntry>, Vec<SizedEntry>))
    ensures
        r.0@ == outside(list@, folder@),
        r.1@ == inside(list@, folder@),
        r.0@.len() + r.1@.len() == list@.len(),
{
    let ghost keep = |e: SizedEntry| !at_or_under(e.path@, folder@);
    let ghost drop = |e: SizedEntry| at_or_under(e.path@, folder@);
    let mut kept: Vec<SizedEntry> = Vec::new();
    let mut gone: Vec<SizedEntry> = Vec::new();
    proof {
        reveal(Seq::filter);
    }
    for i in 0..list.len()
        invariant
            keep == (|e: SizedEntry| !at_or_under(e.path@, folder@)),
            drop == (|e: SizedEntry| at_or_under(e.path@, folder@)),
            kept@ == list@.take(i as int).filter(keep),
            gone@ == list@.take(i as int).filter(drop),
            kept@.len() + gone@.len() == i,
    {
        proof {
            lemma_filter_take(list@, i as int, keep);
            lemma_filter_take(list@, i as int, drop);
        }
        let cached = &list[i];
        if path_is_under(cached.path.as_str(), folder) {
            gone.push(cached.clone());
        } else {
            kept.push(cached.clone());
        }
    }
    assert(list@.take(list@.len() as int) == list@);
    (kept, gone)
}

/// Takes a folder and what lies inside it out of the cache.
pub fn prune_cached_folder(snapshot: &mut Snapshot, entry: &SizedEntry) -> (r: PruneResult)
    requires
        old(snapshot).wf(),
    ensures
        final(snapshot).same_scan(old(snapshot)),
        final(snapshot).cache() == without_cached_folder(old(snapshot).cache(), *entry),
        r.removed_files == files_gone(old(snapshot).cache(), *entry) as usize,
        r.removed_folders == old(snapshot).largest_folders@.len() - outside(
            old(snapshot).largest_folders@,
            entry.path@,
        ).len(),
{
    let ghost start = *snapshot;
    let (files, gone) = split_outside(&snapshot.largest_files, entry.path.as_str());
    let (folders, gone_folders) = split_outside(&snapshot.largest_folders, entry.path.as_str());
    let removed_folders: usize = gone_folders.len();
    snapshot.largest_files = files;
    snapshot.largest_folders = folders;
    let removed_file_count: u64 = match entry.files {
        Some(n) => n,
        None => gone.len() as u64,
    };
    if removed_folders > 0 {
        snapshot.total_bytes = snapshot.total_bytes.saturating_sub(entry.bytes);
        snapshot.total_allocated_bytes = snapshot.total_allocated_bytes.saturating_sub(
            entry.allocated_bytes,
        );
        snapshot.file_count = snapshot.file_count.saturating_sub(removed_file_count);
        snapshot.folder_count = snapshot.folder_count.saturating_sub(removed_folders as u64);
        subtract_folder_from_cached_ancestors(snapshot, entry);
        let mut preferred: Vec<String> = Vec::new();
        let ghost middle = *snapshot;
        assert(gone@.take(0) == Seq::<SizedEntry>::empty());
        for i in 0..gone.len()
            invariant
                snapshot.same_scan(&middle),
                snapshot.cache() == (Cache {
                    categories: without_files(middle.categories@, gone@.take(i as int)),
                    ..middle.cache()
                }),
                snapshot.wf(),
                texts(preferred@) == named_by(gone@.take(i as int)),
        {
            assert(gone@.take(i + 1).drop_last() == gone@.take(i as int));
            assert(gone@.take(i + 1).last() == gone@[i as int]);
            proof {
                lemma_without_file_fits(snapshot.categories@, gone@[i as int]);
            }
            if let Some(category) = subtract_category_file(snapshot, &gone[i]) {
                preferred.push(category);
            }
            assert(texts(preferred@) =~= named_by(gone@.take(i + 1)));
        }
        assert(gone@.take(gone@.len() as int) == gone@);
        reconcile_category_totals(snapshot, &preferred);
    }
    PruneResult {
        removed_files: #[verifier::truncate] (removed_file_count as usize),
        removed_folders,
    }
}

/// The cache without an entry.
pub open spec fn pruned(cache: Cache, target: NavigationTarget, entry: SizedEntry) -> Cache {
    match target {
        NavigationTarget::File => without_cached_file(cache, entry),
        NavigationTarget::Folder => without_cached_folder(cache, entry),
    }
}

/// How much leaves the cache with an entry.
pub open spec fn prune_result(
    cache: Cache,
    target: NavigationTarget,
    entry: SizedEntry,
) -> PruneResult {
    match target {
        NavigationTarget::File => PruneResult {
            removed_files: (cache.files.len() - elsewhere(cache.files, entry.path@).len()) as usize,
            removed_folders: 0,
        },
        NavigationTarget::Folder => PruneResult {
            removed_files: files_gone(cache, entry) as usize,
            removed_folders: (cache.folders.len() - outside(
                cache.folders,
                entry.path@,
            ).len()) as usize,
        },
    }
}

/// Takes an entry out of the cache.
pub fn prune_cached_entry(
    snapshot: &mut Snapshot,
    target: NavigationTarget,
    entry: &SizedEntry,
) -> (r: PruneResult)
    requires
        old(snapshot).wf(),
    ensures
        final(snapshot).same_scan(old(snapshot)),
        final(snapshot).cache() == pruned(old(snapshot).cache(), target, *entry),
        final(snapshot).wf(),
        r == prune_result(old(snapshot).cache(), target, *entry),
{
    proof {
        lemma_pruned_fits(snapshot.cache(), target, *entry);
    }
    match target {
        NavigationTarget::File => prune_cached_file(snapshot, entry),
        NavigationTarget::Folder => prune_cached_folder(snapshot, entry),
    }
}

// ---------------------------------------------------------------------------
// Laws
// ---------------------------------------------------------------------------

proof fn lemma_without_files_fits(cats: Seq<CategoryTotal>, files: Seq<SizedEntry>)
    requires
        sums_fit(cats),
    ensures
        sums_fit(without_files(cats, files)),
    decreases files.len(),
{
    if files.len() > 0 {
        lemma_without_files_fits(cats, files.drop_last());
        lemma_without_file_fits(without_files(cats, files.drop_last()), files.last());
    }
}

/// What the named categories gave is what was taken of the amounts.
proof fn lemma_taken_by_name(cats: Seq<CategoryTotal>, x: Amounts, named: Seq<Seq<char>>)
    ensures
        ({
            let (d, y) = taken_by_name(cats, x, named);
            &&& sum_of(d, bytes_in()) - y.bytes == sum_of(cats, bytes_in()) - x.bytes
            &&& sum_of(d, allocated_in()) - y.allocated_bytes == sum_of(cats, allocated_in())
                - x.allocated_bytes
            &&& sum_of(d, files_in()) - y.files == sum_of(cats, files_in()) - x.files
        }),
    decreases named.len(),
{
    if named.len() > 0 {
        lemma_taken_by_name(cats, x, named.drop_last());
        let (d, y) = taken_by_name(cats, x, named.drop_last());
        let i = named_at(d, named.last());
        lemma_named_at(d, named.last());
        if i < d.len() {
            lemma_sums_update(d, i, lessened(d[i], y));
        }
    }
}

/// All categories in turn give the whole of the amounts, or all they have.
proof fn lemma_taken_in_turn(cats: Seq<CategoryTotal>, x: Amounts)
    ensures
        ({
            let (d, y) = taken_in_turn(cats, x);
            &&& sum_of(d, bytes_in()) - y.bytes == sum_of(cats, bytes_in()) - x.bytes
            &&& sum_of(d, allocated_in()) - y.allocated_bytes == sum_of(cats, allocated_in())
                - x.allocated_bytes
            &&& sum_of(d, files_in()) - y.files == sum_of(cats, files_in()) - x.files
            &&& y.bytes == 0 || sum_of(d, bytes_in()) == 0
            &&& y.allocated_bytes == 0 || sum_of(d, allocated_in()) == 0
            &&& y.files == 0 || sum_of(d, files_in()) == 0
        }),
    decreases cats.len(),
{
    if cats.len() > 0 {
        lemma_taken_in_turn(cats.drop_last(), x);
        let (d, y) = taken_in_turn(cats.drop_last(), x);
        let c = lessened(cats.last(), y);
        assert(d.push(c).drop_last() == d);
    }
}

/// Reconciled categories hold exactly the totals where they held more, and
/// what they held where they held no more.
pub proof fn law_reconciled_sums(
    cats: Seq<CategoryTotal>,
    bytes: u64,
    allocated: u64,
    files: u64,
    named: Seq<Seq<char>>,
)
    requires
        sums_fit(cats),
    ensures
        ({
            let r = reconciled(cats, bytes, allocated, files, named);
            &&& sum_of(r, bytes_in()) == vstd::math::min(sum_of(cats, bytes_in()) as int, bytes as int)
            &&& sum_of(r, allocated_in()) == vstd::math::min(
                sum_of(cats, allocated_in()) as int,
                allocated as int,
            )
            &&& sum_of(r, files_in()) == vstd::math::min(sum_of(cats, files_in()) as int, files as int)
        }),
{
    let x = excess(cats, bytes, allocated, files);
    let (d, y) = taken_by_name(cats, x, named);
    let (e, z) = taken_in_turn(d, y);
    lemma_taken_by_name(cats, x, named);
    lemma_taken_in_turn(d, y);
    lemma_sums_filter(e);
    let t = counting(e);
    lemma_sum_sorted::<CategoryTotal, CategoryRank>(t, bytes_in());
    lemma_sum_sorted::<CategoryTotal, CategoryRank>(t, allocated_in());
    lemma_sum_sorted::<CategoryTotal, CategoryRank>(t, files_in());
}

/// Pruning keeps the category sums within machine range.
pub proof fn lemma_pruned_fits(cache: Cache, target: NavigationTarget, entry: SizedEntry)
    requires
        sums_fit(cache.categories),
    ensures
        sums_fit(pruned(cache, target, entry).categories),
{
    let after = pruned(cache, target, entry);
    match target {
        NavigationTarget::File => {
            let cats = without_file(cache.categories, entry);
            lemma_without_file_fits(cache.categories, entry);
            law_reconciled_sums(
                cats,
                after.bytes,
                after.allocated_bytes,
                after.file_count,
                named_by(seq![entry]),
            );
        },
        NavigationTarget::Folder => {
            let gone = inside(cache.files, entry.path@);
            let cats = without_files(cache.categories, gone);
            lemma_without_files_fits(cache.categories, gone);
            law_reconciled_sums(
                cats,
                after.bytes,
                after.allocated_bytes,
                after.file_count,
                named_by(gone),
            );
        },
    }
}

/// Something that matches the entry is cached.
pub open spec fn cached(cache: Cache, target: NavigationTarget, entry: SizedEntry) -> bool {
    match target {
        NavigationTarget::File => elsewhere(cache.files, entry.path@).len() != cache.files.len(),
        NavigationTarget::Folder => outside(cache.folders, entry.path@).len()
            != cache.folders.len(),
    }
}

/// After a removal no category total exceeds the snapshot's: together they hold
/// at most the bytes, bytes on disk and files that the snapshot counts.
pub proof fn law_categories_within_totals(
    cache: Cache,
    target: NavigationTarget,
    entry: SizedEntry,
)
    requires
        sums_fit(cache.categories),
        cached(cache, target, entry),
    ensures
        ({
            let after = pruned(cache, target, entry);
            &&& sum_of(after.categories, bytes_in()) <= after.bytes
            &&& sum_of(after.categories, allocated_in()) <= after.allocated_bytes
            &&& sum_of(after.categories, files_in()) <= after.file_count
        }),
{
    let after = pruned(cache, target, entry);
    match target {
        NavigationTarget::File => {
            lemma_without_file_fits(cache.categories, entry);
            law_reconciled_sums(
                without_file(cache.categories, entry),
                after.bytes,
                after.allocated_bytes,
                after.file_count,
                named_by(seq![entry]),
            );
        },
        NavigationTarget::Folder => {
            let gone = inside(cache.files, entry.path@);
            lemma_without_files_fits(cache.categories, gone);
            law_reconciled_sums(
                without_files(cache.categories, gone),
                after.bytes,
                after.allocated_bytes,
                after.file_count,
                named_by(gone),
            );
        },
    }
}

/// Pruning never makes a total larger.
pub proof fn law_totals_never_grow(cache: Cache, target: NavigationTarget, entry: SizedEntry)
    ensures
        ({
            let after = pruned(cache, target, entry);
            &&& after.bytes <= cache.bytes
            &&& after.allocated_bytes <= cache.allocated_bytes
            &&& after.file_count <= cache.file_count
            &&& after.folder_count <= cache.folder_count
            &&& after.files.len() <= cache.files.len()
            &&& after.folders.len() <= cache.folders.len()
        }),
{
    lemma_filter(cache.files, |e: SizedEntry| !one_path(e.path@, entry.path@));
    lemma_filter(cache.files, |e: SizedEntry| !at_or_under(e.path@, entry.path@));
    lemma_filter(cache.folders, |e: SizedEntry| !at_or_under(e.path@, entry.path@));
    let kept = outside(cache.folders, entry.path@);
    lemma_sorted::<SizedEntry, FolderRank>(shrunk_all(kept, entry));
}

/// How many entries pruning leaves.
pub proof fn lemma_pruned_lengths(cache: Cache, target: NavigationTarget, entry: SizedEntry)
    ensures
        ({
            let after = pruned(cache, target, entry);
            match target {
                NavigationTarget::File => after.files.len() == elsewhere(
                    cache.files,
                    entry.path@,
                ).len(),
                NavigationTarget::Folder => after.folders.len() == outside(
                    cache.folders,
                    entry.path@,
                ).len(),
            }
        }),
{
    lemma_sorted::<SizedEntry, FolderRank>(
        shrunk_all(outside(cache.folders, entry.path@), entry),
    );
}

proof fn lemma_sorted_members<T, O: crate::order::Order<T>>(s: Seq<T>, x: T)
    ensures
        sorted::<T, O>(s).contains(x) <==> s.contains(x),
{
    broadcast use vstd::seq_lib::group_to_multiset_ensures;

    lemma_sorted::<T, O>(s);
    assert(sorted::<T, O>(s).to_multiset().contains(x) <==> s.to_multiset().contains(x));
}

/// After a file has been pruned no cached file has its path. After a folder has
/// been pruned nothing cached lies at or under its path.
pub proof fn law_pruned_is_gone(cache: Cache, target: NavigationTarget, entry: SizedEntry)
    ensures
        ({
            let after = pruned(cache, target, entry);
            match target {
                NavigationTarget::File => forall|i: int|
                    0 <= i < after.files.len() ==> !one_path(
                        (#[trigger] after.files[i]).path@,
                        entry.path@,
                    ),
                NavigationTarget::Folder => {
                    &&& forall|i: int|
                        0 <= i < after.files.len() ==> !at_or_under(
                            (#[trigger] after.files[i]).path@,
                            entry.path@,
                        )
                    &&& forall|i: int|
                        0 <= i < after.folders.len() ==> !at_or_under(
                            (#[trigger] after.folders[i]).path@,
                            entry.path@,
                        )
                },
            }
        }),
{
    let after = pruned(cache, target, entry);
    let elsewhere_keep = |e: SizedEntry| !one_path(e.path@, entry.path@);
    let outside_keep = |e: SizedEntry| !at_or_under(e.path@, entry.path@);
    match target {
        NavigationTarget::File => {
            lemma_filter(cache.files, elsewhere_keep);
            assert forall|i: int| 0 <= i < after.files.len() implies !one_path(
                (#[trigger] after.files[i]).path@,
                entry.path@,
            ) by {
                assert(elsewhere_keep(cache.files.filter(elsewhere_keep)[i]));
            }
        },
        NavigationTarget::Folder => {
            lemma_filter(cache.files, outside_keep);
            lemma_filter(cache.folders, outside_keep);
            assert forall|i: int| 0 <= i < after.files.len() implies !at_or_under(
                (#[trigger] after.files[i]).path@,
                entry.path@,
            ) by {
                assert(outside_keep(cache.files.filter(outside_keep)[i]));
            }
            let kept = outside(cache.folders, entry.path@);
            assert forall|i: int| 0 <= i < kept.len() implies !at_or_under(
                (#[trigger] kept[i]).path@,
                entry.path@,
            ) by {
                assert(outside_keep(cache.folders.filter(outside_keep)[i]));
            }
            let less_folders = shrunk_all(kept, entry);
            assert forall|i: int| 0 <= i < after.folders.len() implies !at_or_under(
                (#[trigger] after.folders[i]).path@,
                entry.path@,
            ) by {
                if after.folders != kept {
                    let f = after.folders[i];
                    lemma_sorted_members::<SizedEntry, FolderRank>(less_folders, f);
                    assert(less_folders.contains(f));
                    let k = choose|k: int| 0 <= k < less_folders.len() && less_folders[k] == f;
                    assert(f == shrunk_around(kept[k], entry));
                }
            }
        },
    }
}

/// What lies outside stays: a cached file elsewhere is cached as before, and so
/// is a folder that neither lies inside what was pruned nor holds it.
pub proof fn law_the_rest_is_kept(
    cache: Cache,
    target: NavigationTarget,
    entry: SizedEntry,
    other: SizedEntry,
)
    ensures
        ({
            let after = pruned(cache, target, entry);
            match target {
                NavigationTarget::File => {
                    &&& cache.files.contains(other) && !one_path(other.path@, entry.path@)
                        ==> after.files.contains(other)
                    &&& after.folders == cache.folders
                },
                NavigationTarget::Folder => {
                    &&& cache.files.contains(other) && !at_or_under(other.path@, entry.path@)
                        ==> after.files.contains(other)
                    &&& cache.folders.contains(other) && !at_or_under(other.path@, entry.path@)
                        && !at_or_under(entry.path@, other.path@) ==> after.folders.contains(other)
                },
            }
        }),
{
    let elsewhere_keep = |e: SizedEntry| !one_path(e.path@, entry.path@);
    let outside_keep = |e: SizedEntry| !at_or_under(e.path@, entry.path@);
    lemma_filter_members(cache.files, elsewhere_keep, other);
    lemma_filter_members(cache.files, outside_keep, other);
    lemma_filter_members(cache.folders, outside_keep, other);
    if let NavigationTarget::Folder = target {
        let kept = outside(cache.folders, entry.path@);
        let smaller = shrunk_all(kept, entry);
        lemma_sorted_members::<SizedEntry, FolderRank>(smaller, other);
        if kept.contains(other) && !at_or_under(entry.path@, other.path@) {
            let i = choose|i: int| 0 <= i < kept.len() && kept[i] == other;
            assert(smaller[i] == other);
        }
    }
}

/// What lies inside a folder lies inside every folder that holds it.
pub proof fn law_inside_is_transitive(path: Seq<char>, folder: Seq<char>, base: Seq<char>)
    requires
        at_or_under(path, folder),
        at_or_under(folder, base),
    ensures
        at_or_under(path, base),
{
    let p = path_key(path);
    let f = path_key(folder);
    let b = path_key(base);
    if !one_path(path, folder) && !one_path(folder, base) {
        let head = f.push('\\');
        let top = b.push('\\');
        assert(p.subrange(0, head.len() as int) == head);
        assert(f.subrange(0, top.len() as int) == top);
        assert forall|i: int| 0 <= i < top.len() implies p[i] == top[i] by {
            assert(p.subrange(0, head.len() as int)[i] == head[i]);
            assert(f.subrange(0, top.len() as int)[i] == top[i]);
        }
        assert(p.subrange(0, top.len() as int) =~= top);
    }
}

/// Pruning an entry twice is pruning it once.
pub proof fn law_prune_twice(cache: Cache, target: NavigationTarget, entry: SizedEntry)
    ensures
        pruned(pruned(cache, target, entry), target, entry) == pruned(cache, target, entry),
        !cached(pruned(cache, target, entry), target, entry),
{
    let after = pruned(cache, target, entry);
    law_pruned_is_gone(cache, target, entry);
    lemma_filter(after.files, |e: SizedEntry| !one_path(e.path@, entry.path@));
    lemma_filter(after.files, |e: SizedEntry| !at_or_under(e.path@, entry.path@));
    lemma_filter(after.folders, |e: SizedEntry| !at_or_under(e.path@, entry.path@));
}

pub proof fn lemma_filter_in_order<T, O: crate::order::Order<T>>(s: Seq<T>, keep: spec_fn(T) -> bool)
    requires
        in_order::<T, O>(s),
    ensures
        in_order::<T, O>(s.filter(keep)),
    decreases s.len(),
{
    reveal(Seq::filter);
    if s.len() > 0 {
        let t = s.drop_last();
        assert forall|i: int, j: int| 0 <= i <= j < t.len() implies O::le(
            #[trigger] t[i],
            #[trigger] t[j],
        ) by {
            assert(O::le(s[i], s[j]));
        }
        lemma_filter_in_order::<T, O>(t, keep);
        let f = t.filter(keep);
        let g = s.filter(keep);
        if keep(s.last()) {
            assert forall|i: int, j: int| 0 <= i <= j < g.len() implies O::le(
                #[trigger] g[i],
                #[trigger] g[j],
            ) by {
                if j < f.len() {
                    assert(O::le(f[i], f[j]));
                } else if i < f.len() {
                    assert(f.contains(f[i]));
                    lemma_filter_members(t, keep, f[i]);
                    let k = choose|k: int| 0 <= k < t.len() && t[k] == f[i];
                    assert(O::le(s[k], s[s.len() - 1]));
                } else {
                    O::total(s.last(), s.last());
                }
            }
        }
    }
}

/// Folders that stand in order still do after a removal, though some of them
/// have shrunk.
pub proof fn law_folders_stay_in_order(cache: Cache, target: NavigationTarget, entry: SizedEntry)
    requires
        in_order::<SizedEntry, FolderRank>(cache.folders),
    ensures
        in_order::<SizedEntry, FolderRank>(pruned(cache, target, entry).folders),
{
    lemma_filter_in_order::<SizedEntry, FolderRank>(
        cache.folders,
        |e: SizedEntry| !at_or_under(e.path@, entry.path@),
    );
    lemma_sorted::<SizedEntry, FolderRank>(
        shrunk_all(outside(cache.folders, entry.path@), entry),
    );
}

/// The categories stand in order after a removal.
pub proof fn law_categories_in_order(cache: Cache, target: NavigationTarget, entry: SizedEntry)
    requires
        cached(cache, target, entry),
    ensures
        in_order::<CategoryTotal, CategoryRank>(pruned(cache, target, entry).categories),
{
    let after = pruned(cache, target, entry);
    let (cats, named) = match target {
        NavigationTarget::File => (without_file(cache.categories, entry), named_by(seq![entry])),
        NavigationTarget::Folder => {
            let gone = inside(cache.files, entry.path@);
            (without_files(cache.categories, gone), named_by(gone))
        },
    };
    lemma_sorted::<CategoryTotal, CategoryRank>(
        taken(
            cats,
            excess(cats, after.bytes, after.allocated_bytes, after.file_count),
            named,
        ),
    );
}

// ---------------------------------------------------------------------------
// What a removal takes away
// ---------------------------------------------------------------------------

/// What is left of one number after another is taken off it, zero at least.
pub open spec fn rest_of(a: u64, b: int) -> int {
    vstd::math::max(a - b, 0)
}

/// A file of that path is cached.
pub open spec fn file_is_cached(cache: Cache, path: Seq<char>) -> bool {
    exists|i: int| 0 <= i < cache.files.len() && one_path((#[trigger] cache.files[i]).path@, path)
}

/// A folder at or under that path is cached.
pub open spec fn folder_is_cached(cache: Cache, path: Seq<char>) -> bool {
    exists|i: int|
        0 <= i < cache.folders.len() && at_or_under((#[trigger] cache.folders[i]).path@, path)
}

proof fn lemma_file_is_cached(cache: Cache, entry: SizedEntry)
    ensures
        file_is_cached(cache, entry.path@) <==> cached(cache, NavigationTarget::File, entry),
{
    let keep = |e: SizedEntry| !one_path(e.path@, entry.path@);
    lemma_filter(cache.files, keep);
    if file_is_cached(cache, entry.path@) && elsewhere(cache.files, entry.path@)
        == cache.files {
        let i = choose|i: int|
            0 <= i < cache.files.len() && one_path(
                (#[trigger] cache.files[i]).path@,
                entry.path@,
            );
        assert(keep(cache.files.filter(keep)[i]));
    }
    if !file_is_cached(cache, entry.path@) {
        assert forall|i: int| 0 <= i < cache.files.len() implies keep(
            #[trigger] cache.files[i],
        ) by {}
    }
}

proof fn lemma_folder_is_cached(cache: Cache, entry: SizedEntry)
    ensures
        folder_is_cached(cache, entry.path@) <==> cached(cache, NavigationTarget::Folder, entry),
{
    let keep = |e: SizedEntry| !at_or_under(e.path@, entry.path@);
    lemma_filter(cache.folders, keep);
    if folder_is_cached(cache, entry.path@) && outside(cache.folders, entry.path@)
        == cache.folders {
        let i = choose|i: int|
            0 <= i < cache.folders.len() && at_or_under(
                (#[trigger] cache.folders[i]).path@,
                entry.path@,
            );
        assert(keep(cache.folders.filter(keep)[i]));
    }
    if !folder_is_cached(cache, entry.path@) {
        assert forall|i: int| 0 <= i < cache.folders.len() implies keep(
            #[trigger] cache.folders[i],
        ) by {}
    }
}

/// A cached file that is removed takes its bytes, its bytes on disk and one file
/// off the totals. What is not cached takes nothing off.
pub proof fn law_removed_file_leaves_the_totals(cache: Cache, file: SizedEntry)
    ensures
        ({
            let after = pruned(cache, NavigationTarget::File, file);
            let result = prune_result(cache, NavigationTarget::File, file);
            if file_is_cached(cache, file.path@) {
                &&& after.bytes == rest_of(cache.bytes, file.bytes as int)
                &&& after.allocated_bytes == rest_of(
                    cache.allocated_bytes,
                    file.allocated_bytes as int,
                )
                &&& after.file_count == rest_of(cache.file_count, 1)
                &&& after.folder_count == cache.folder_count
                &&& after.folders == cache.folders
                &&& cache.files.len() <= usize::MAX ==> result.removed_files == cache.files.len()
                    - after.files.len() && result.removed_files > 0 && result.removed_folders == 0
            } else {
                after == cache && result.removed_files == 0 && result.removed_folders == 0
            }
        }),
{
    lemma_file_is_cached(cache, file);
    let keep = |e: SizedEntry| !one_path(e.path@, file.path@);
    lemma_filter(cache.files, keep);
    if !file_is_cached(cache, file.path@) {
        assert(elsewhere(cache.files, file.path@) == cache.files);
    }
}

/// A cached folder that is removed takes its bytes and bytes on disk off the
/// totals, as many files as it says it holds, or else those that leave with it,
/// and as many folders as leave with it.
pub proof fn law_removed_folder_leaves_the_totals(cache: Cache, folder: SizedEntry)
    requires
        folder_is_cached(cache, folder.path@),
        cache.files.len() <= usize::MAX,
        cache.folders.len() <= usize::MAX,
    ensures
        ({
            let after = pruned(cache, NavigationTarget::Folder, folder);
            let result = prune_result(cache, NavigationTarget::Folder, folder);
            let files_left = cache.files.len() - after.files.len();
            let folders_left = cache.folders.len() - after.folders.len();
            let files = match folder.files {
                Some(n) => n as int,
                None => files_left,
            };
            &&& after.bytes == rest_of(cache.bytes, folder.bytes as int)
            &&& after.allocated_bytes == rest_of(
                cache.allocated_bytes,
                folder.allocated_bytes as int,
            )
            &&& after.file_count == rest_of(cache.file_count, files)
            &&& after.folder_count == rest_of(cache.folder_count, folders_left)
            &&& folders_left > 0
            &&& result.removed_folders == folders_left
            &&& files <= usize::MAX ==> result.removed_files == files
        }),
{
    lemma_folder_is_cached(cache, folder);
    lemma_filter(cache.files, |e: SizedEntry| !at_or_under(e.path@, folder.path@));
    lemma_filter(cache.folders, |e: SizedEntry| !at_or_under(e.path@, folder.path@));
    lemma_split_lengths(cache.files, folder.path@);
    let kept = outside(cache.folders, folder.path@);
    lemma_sorted::<SizedEntry, FolderRank>(shrunk_all(kept, folder));
}

proof fn lemma_split_lengths(list: Seq<SizedEntry>, folder: Seq<char>)
    ensures
        inside(list, folder).len() + outside(list, folder).len() == list.len(),
    decreases list.len(),
{
    reveal(Seq::filter);
    if list.len() > 0 {
        lemma_split_lengths(list.drop_last(), folder);
    }
}

/// Each cached folder that holds a removed one is less by exactly what it held;
/// every other folder that stays is as it was; and nothing else is cached.
pub proof fn law_folders_above_shrink(cache: Cache, gone: SizedEntry, x: SizedEntry)
    requires
        folder_is_cached(cache, gone.path@),
    ensures
        pruned(cache, NavigationTarget::Folder, gone).folders.contains(x) <==> exists|i: int|
            {
                let f = #[trigger] cache.folders[i];
                &&& 0 <= i < cache.folders.len()
                &&& !at_or_under(f.path@, gone.path@)
                &&& if at_or_under(gone.path@, f.path@) {
                    &&& x.path == f.path
                    &&& x.bytes == rest_of(f.bytes, gone.bytes as int)
                    &&& x.allocated_bytes == rest_of(
                        f.allocated_bytes,
                        gone.allocated_bytes as int,
                    )
                    &&& x.files == match (f.files, gone.files) {
                        (Some(have), Some(n)) => Some(rest_of(have, n as int) as u64),
                        _ => f.files,
                    }
                    &&& x.category == f.category
                } else {
                    x == f
                }
            },
{
    lemma_folder_is_cached(cache, gone);
    let keep = |e: SizedEntry| !at_or_under(e.path@, gone.path@);
    let kept = outside(cache.folders, gone.path@);
    let small = shrunk_all(kept, gone);
    let after = pruned(cache, NavigationTarget::Folder, gone).folders;
    lemma_sorted_members::<SizedEntry, FolderRank>(small, x);
    if !some_hold(kept, gone) {
        assert(small =~= kept);
    }
    assert(after.contains(x) <==> small.contains(x));
    if small.contains(x) {
        let k = choose|k: int| 0 <= k < small.len() && small[k] == x;
        lemma_filter_members(cache.folders, keep, kept[k]);
        assert(kept.contains(kept[k]));
        let i = choose|i: int| 0 <= i < cache.folders.len() && cache.folders[i] == kept[k];
        assert(x == shrunk_around(cache.folders[i], gone));
    }
    assert forall|i: int| 0 <= i < cache.folders.len() && keep(#[trigger] cache.folders[i]) implies small.contains(
        shrunk_around(cache.folders[i], gone),
    ) by {
        lemma_filter_members(cache.folders, keep, cache.folders[i]);
        let k = choose|k: int| 0 <= k < kept.len() && kept[k] == cache.folders[i];
        assert(small[k] == shrunk_around(cache.folders[i], gone));
    }
}

/// The files that stay are exactly those elsewhere, in the order they had.
pub proof fn law_files_elsewhere_stay(
    cache: Cache,
    target: NavigationTarget,
    gone: SizedEntry,
    x: SizedEntry,
)
    ensures
        pruned(cache, target, gone).files.contains(x) <==> cache.files.contains(x) && match target {
            NavigationTarget::File => !one_path(x.path@, gone.path@),
            NavigationTarget::Folder => !at_or_under(x.path@, gone.path@),
        },
        in_order::<SizedEntry, FileRank>(cache.files) ==> in_order::<SizedEntry, FileRank>(
            pruned(cache, target, gone).files,
        ),
{
    let here = |e: SizedEntry| !one_path(e.path@, gone.path@);
    let below = |e: SizedEntry| !at_or_under(e.path@, gone.path@);
    lemma_filter_members(cache.files, here, x);
    lemma_filter_members(cache.files, below, x);
    if in_order::<SizedEntry, FileRank>(cache.files) {
        lemma_filter_in_order::<SizedEntry, FileRank>(cache.files, here);
        lemma_filter_in_order::<SizedEntry, FileRank>(cache.files, below);
    }
}

/// Nothing to take leaves the categories as they are.
proof fn lemma_nothing_taken(cats: Seq<CategoryTotal>, x: Amounts, named: Seq<Seq<char>>)
    requires
        x.bytes == 0,
        x.allocated_bytes == 0,
        x.files == 0,
    ensures
        taken_by_name(cats, x, named) == (cats, x),
        taken_in_turn(cats, x) == (cats, x),
        taken(cats, x, named) == counting(cats),
    decreases named.len(), cats.len(),
{
    if named.len() > 0 {
        lemma_nothing_taken(cats, x, named.drop_last());
        let i = named_at(cats, named.last());
        lemma_named_at(cats, named.last());
        if i < cats.len() {
            assert(lessened(cats[i], x) == cats[i]);
            assert(cats.update(i, cats[i]) =~= cats);
            assert(left_over(cats[i], x) == x);
        }
    }
    lemma_nothing_in_turn(cats, x);
}

proof fn lemma_nothing_in_turn(cats: Seq<CategoryTotal>, x: Amounts)
    requires
        x.bytes == 0,
        x.allocated_bytes == 0,
        x.files == 0,
    ensures
        taken_in_turn(cats, x) == (cats, x),
    decreases cats.len(),
{
    if cats.len() > 0 {
        lemma_nothing_in_turn(cats.drop_last(), x);
        assert(lessened(cats.last(), x) == cats.last());
        assert(left_over(cats.last(), x) == x);
        assert(cats.drop_last().push(cats.last()) =~= cats);
    }
}

/// Where the categories added up to the totals and the category of a removed
/// file held at least the file, they add up to the new totals; that category is
/// less by exactly the file, or gone where nothing is left in it, and every other
/// one is as it was.
pub proof fn law_removed_file_leaves_its_category(
    cache: Cache,
    file: SizedEntry,
    i: int,
    x: CategoryTotal,
)
    requires
        file_is_cached(cache, file.path@),
        sums_fit(cache.categories),
        sum_of(cache.categories, bytes_in()) == cache.bytes,
        sum_of(cache.categories, allocated_in()) == cache.allocated_bytes,
        sum_of(cache.categories, files_in()) == cache.file_count,
        0 <= i < cache.categories.len(),
        file.category is Some,
        cache.categories[i].name@ == file.category->0@,
        forall|k: int|
            0 <= k < cache.categories.len() && k != i ==> (#[trigger] cache.categories[k]).name@
                != file.category->0@,
        cache.categories[i].bytes >= file.bytes,
        cache.categories[i].allocated_bytes >= file.allocated_bytes,
        cache.categories[i].files >= 1,
    ensures
        ({
            let after = pruned(cache, NavigationTarget::File, file);
            let had = cache.categories[i];
            &&& sum_of(after.categories, bytes_in()) == after.bytes
            &&& sum_of(after.categories, allocated_in()) == after.allocated_bytes
            &&& sum_of(after.categories, files_in()) == after.file_count
            &&& after.categories.contains(x) <==> (x.bytes > 0 || x.allocated_bytes > 0 || x.files
                > 0) && {
                ||| x.name == had.name && x.bytes == had.bytes - file.bytes && x.allocated_bytes
                    == had.allocated_bytes - file.allocated_bytes && x.files == had.files - 1
                ||| exists|k: int|
                    0 <= k < cache.categories.len() && k != i && #[trigger] cache.categories[k] == x
            }
        }),
{
    let cats = cache.categories;
    let name = file.category->0@;
    let after = pruned(cache, NavigationTarget::File, file);
    lemma_file_is_cached(cache, file);
    lemma_named_at(cats, name);
    assert(named_at(cats, name) == i);
    let left = CategoryTotal {
        name: cats[i].name,
        bytes: (cats[i].bytes - file.bytes) as u64,
        allocated_bytes: (cats[i].allocated_bytes - file.allocated_bytes) as u64,
        files: (cats[i].files - 1) as u64,
    };
    let d = cats.update(i, left);
    lemma_sum_part(cats, i, bytes_in());
    lemma_sum_part(cats, i, allocated_in());
    lemma_sum_part(cats, i, files_in());
    lemma_sums_update(cats, i, left);
    lemma_sums_filter(d);
    let c = counting(d);
    assert(without_file(cats, file) == c);
    let zero = excess(c, after.bytes, after.allocated_bytes, after.file_count);
    lemma_nothing_taken(c, zero, named_by(seq![file]));
    lemma_sums_filter(c);
    let t = counting(c);
    lemma_sum_sorted::<CategoryTotal, CategoryRank>(t, bytes_in());
    lemma_sum_sorted::<CategoryTotal, CategoryRank>(t, allocated_in());
    lemma_sum_sorted::<CategoryTotal, CategoryRank>(t, files_in());
    lemma_sorted_members::<CategoryTotal, CategoryRank>(t, x);
    let keep = |c: CategoryTotal| counts(c);
    lemma_filter_members(c, keep, x);
    lemma_filter_members(d, keep, x);
    if d.contains(x) {
        let k = choose|k: int| 0 <= k < d.len() && d[k] == x;
        if k != i {
            assert(cats[k] == x);
        }
    }
    if x == left {
        assert(d[i] == x);
    }
    if exists|k: int| 0 <= k < cats.len() && k != i && #[trigger] cats[k] == x {
        let k = choose|k: int| 0 <= k < cats.len() && k != i && #[trigger] cats[k] == x;
        assert(d[k] == x);
    }
}

// ---------------------------------------------------------------------------
// Which texts are one path
// ---------------------------------------------------------------------------

/// Characters that paths do not tell apart: slashes, and the case of letters.
pub open spec fn alike(a: char, b: char) -> bool {
    a == b || (is_sep(a) && is_sep(b)) || letter_pair(a, b)
}

proof fn lemma_alike(a: char, b: char)
    ensures
        alike(a, b) <==> lower_char(
            if a == '/' {
                '\\'
            } else {
                a
            },
        ) == lower_char(
            if b == '/' {
                '\\'
            } else {
                b
            },
        ),
{
    law_case_is_of_letters(a, b);
}

proof fn lemma_key(path: Seq<char>)
    requires
        path.len() == 0 || !is_sep(path.last()),
    ensures
        path_key(path) == lower(backslashed(path)),
        path_key(path).len() == path.len(),
{
}

/// Texts that do not end with a slash are one path exactly where they are as long
/// and alike character by character; a slash at the end makes no other path.
pub proof fn law_one_path(a: Seq<char>, b: Seq<char>, c: char)
    ensures
        (a.len() == 0 || !is_sep(a.last())) && (b.len() == 0 || !is_sep(b.last())) ==> (one_path(
            a,
            b,
        ) <==> a.len() == b.len() && forall|i: int|
            0 <= i < a.len() ==> alike(#[trigger] a[i], b[i])),
        is_sep(c) ==> one_path(a.push(c), a) && (one_path(a.push(c), b) <==> one_path(a, b)),
{
    assert(a.push(c).drop_last() == a);
    if (a.len() == 0 || !is_sep(a.last())) && (b.len() == 0 || !is_sep(b.last())) {
        lemma_key(a);
        lemma_key(b);
        if one_path(a, b) {
            assert forall|i: int| 0 <= i < a.len() implies alike(#[trigger] a[i], b[i]) by {
                lemma_alike(a[i], b[i]);
                assert(path_key(a)[i] == path_key(b)[i]);
            }
        }
        if a.len() == b.len() && forall|i: int| 0 <= i < a.len() ==> alike(#[trigger] a[i], b[i]) {
            assert forall|i: int| 0 <= i < a.len() implies path_key(a)[i] == path_key(b)[i] by {
                lemma_alike(a[i], b[i]);
            }
            assert(path_key(a) =~= path_key(b));
        }
    }
}

/// A path lies at or under a folder exactly where it is the folder, or goes on
/// behind it with a slash: a longer name is another folder.
pub proof fn law_under_a_folder(path: Seq<char>, folder: Seq<char>)
    requires
        path.len() > 0 && !is_sep(path.last()),
        folder.len() > 0 && !is_sep(folder.last()),
    ensures
        at_or_under(path, folder) <==> path.len() >= folder.len() && (forall|i: int|
            0 <= i < folder.len() ==> alike(#[trigger] path[i], folder[i])) && (path.len()
            == folder.len() || is_sep(path[folder.len() as int])),
{
    lemma_key(path);
    lemma_key(folder);
    law_one_path(path, folder, '/');
    let p = path_key(path);
    let f = path_key(folder).push('\\');
    let n = folder.len() as int;
    if begins(p, f) {
        assert forall|i: int| 0 <= i < n implies alike(#[trigger] path[i], folder[i]) by {
            lemma_alike(path[i], folder[i]);
            assert(p.subrange(0, f.len() as int)[i] == f[i]);
        }
        assert(p.subrange(0, f.len() as int)[n] == f[n]);
        lemma_alike(path[n], '\\');
    }
    if path.len() > n && is_sep(path[n]) && forall|i: int|
        0 <= i < n ==> alike(#[trigger] path[i], folder[i]) {
        assert forall|i: int| 0 <= i < f.len() implies p[i] == f[i] by {
            if i < n {
                lemma_alike(path[i], folder[i]);
            } else {
                lemma_alike(path[n], '\\');
            }
        }
        assert(p.subrange(0, f.len() as int) =~= f);
    }
}

proof fn lemma_files_taken(cats: Seq<CategoryTotal>, files: Seq<SizedEntry>)
    ensures
        sum_of(without_files(cats, files), bytes_in()) + sum_of(files, |e: SizedEntry| e.bytes as nat)
            >= sum_of(cats, bytes_in()),
        sum_of(without_files(cats, files), allocated_in()) + sum_of(
            files,
            |e: SizedEntry| e.allocated_bytes as nat,
        ) >= sum_of(cats, allocated_in()),
        sum_of(without_files(cats, files), files_in()) + files.len() >= sum_of(cats, files_in()),
    decreases files.len(),
{
    if files.len() > 0 {
        let init = files.drop_last();
        let file = files.last();
        lemma_files_taken(cats, init);
        let before = without_files(cats, init);
        if let Some(name) = opt_text(file.category) {
            let i = named_at(before, name);
            lemma_named_at(before, name);
            let x = Amounts {
                bytes: file.bytes,
                allocated_bytes: file.allocated_bytes,
                files: 1,
            };
            if i < before.len() {
                let d = before.update(i, lessened(before[i], x));
                lemma_sums_update(before, i, lessened(before[i], x));
                lemma_sums_filter(d);
            } else {
                lemma_sums_filter(before);
            }
        }
    }
}

/// Where the categories added up to the totals and a removed folder holds at
/// least what is cached of it, they add up to the new totals.
pub proof fn law_removed_folder_leaves_the_categories(cache: Cache, folder: SizedEntry)
    requires
        folder_is_cached(cache, folder.path@),
        sums_fit(cache.categories),
        cache.files.len() <= u64::MAX,
        sum_of(cache.categories, bytes_in()) == cache.bytes,
        sum_of(cache.categories, allocated_in()) == cache.allocated_bytes,
        sum_of(cache.categories, files_in()) == cache.file_count,
        folder.bytes <= cache.bytes,
        folder.allocated_bytes <= cache.allocated_bytes,
        sum_of(inside(cache.files, folder.path@), |e: SizedEntry| e.bytes as nat) <= folder.bytes,
        sum_of(inside(cache.files, folder.path@), |e: SizedEntry| e.allocated_bytes as nat)
            <= folder.allocated_bytes,
        folder.files matches Some(n) ==> inside(cache.files, folder.path@).len() <= n
            <= cache.file_count,
        folder.files is None ==> inside(cache.files, folder.path@).len() <= cache.file_count,
    ensures
        ({
            let after = pruned(cache, NavigationTarget::Folder, folder);
            &&& sum_of(after.categories, bytes_in()) == after.bytes
            &&& sum_of(after.categories, allocated_in()) == after.allocated_bytes
            &&& sum_of(after.categories, files_in()) == after.file_count
        }),
{
    lemma_folder_is_cached(cache, folder);
    let gone = inside(cache.files, folder.path@);
    lemma_filter(cache.files, |e: SizedEntry| at_or_under(e.path@, folder.path@));
    lemma_files_taken(cache.categories, gone);
    lemma_without_files_fits(cache.categories, gone);
    let after = pruned(cache, NavigationTarget::Folder, folder);
    law_reconciled_sums(
        without_files(cache.categories, gone),
        after.bytes,
        after.allocated_bytes,
        after.file_count,
        named_by(gone),
    );
}

} // verus!
