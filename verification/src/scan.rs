//! Adding up a scan: totals, categories, largest files, folder sizes.
use crate::categories::{classified, CategoryRules};
use crate::clock::{clock_failed, current_unix, read_from_clock};
use crate::error::{refuse, CliError};
use crate::journal::capped;
use crate::names::{increasing, NameMap};
use crate::order::{lemma_sorted, sort, sorted};
use crate::prune::{allocated_in, bytes_in, files_in};
use crate::snapshot::{
    skipped_views, CategoryRank, CategoryTotal, CategoryView, EntryView, FileRank, FolderRank,
    ScanStats, SizedEntry, SkippedPath, Snapshot, SNAPSHOT_VERSION,
};
use crate::sums::{
    lemma_sum_insert, lemma_sum_part, lemma_sum_sorted, lemma_sum_take, lemma_sum_update, sum_of,
};
use crate::text::{
    join_texts, joined, law_same_up_to_case, lemma_text_lt_irreflexive, push_text, reads_as,
    same_fold, same_ignoring_case, text_lt, texts, to_chars,
};
use crate::toplist::{
    largest, lemma_offered_largest, lemma_offered_streams, lemma_ranks_sorted, offered, offered_all,
    ranks, TopList,
};
use crate::paths::{
    components, components_of, file_name, file_name_of, is_under, lemma_parent_shorter, parent,
    parent_of, same_components, under, PathStyle,
};
use vstd::prelude::*;

verus! {

// ---------------------------------------------------------------------------
// The model
// ---------------------------------------------------------------------------

/// What a scan has found so far.
pub struct ScanView {
    pub bytes: u64,
    pub allocated_bytes: u64,
    pub files: u64,
    pub folders: u64,
    pub categories: Map<Seq<char>, CategoryView>,
    pub limit: nat,
    pub largest: Seq<SizedEntry>,
    pub sizes: Map<Seq<char>, EntryView>,
    pub skipped: Seq<(Seq<char>, Seq<char>)>,
    pub denied: u64,
}

/// A character with the slash, and the mark that stands for it, escaped.
pub open spec fn escaped_char(c: char) -> Seq<char> {
    if c == '/' {
        seq!['|', 's']
    } else if c == '|' {
        seq!['|', 'p']
    } else {
        seq![c]
    }
}

/// A text without slashes.
pub open spec fn escaped(s: Seq<char>) -> Seq<char>
    decreases s.len(),
{
    if s.len() == 0 {
        s
    } else {
        escaped(s.drop_last()) + escaped_char(s.last())
    }
}

/// The texts, each escaped.
pub open spec fn escaped_texts(list: Seq<Seq<char>>) -> Seq<Seq<char>> {
    list.map_values(|s: Seq<char>| escaped(s))
}

/// The identity of a folder: its components, with a slash between each two.
pub open spec fn folder_id(style: PathStyle, path: Seq<char>) -> Seq<char> {
    joined(escaped_texts(components(style, path)), "/"@)
}

/// A sum that stops at the largest machine number.
pub open spec fn plus(a: u64, b: u64) -> u64 {
    capped(a as nat + b as nat)
}

/// A category with amounts added; a new one starts at zero.
pub open spec fn category_plus(
    known: Map<Seq<char>, CategoryView>,
    name: Seq<char>,
    bytes: u64,
    allocated: u64,
    files: u64,
) -> CategoryView {
    if known.contains_key(name) {
        CategoryView {
            name: known[name].name,
            bytes: plus(known[name].bytes, bytes),
            allocated_bytes: plus(known[name].allocated_bytes, allocated),
            files: plus(known[name].files, files),
        }
    } else {
        CategoryView { name, bytes, allocated_bytes: allocated, files }
    }
}

/// A folder with amounts added; a new one starts at zero under its path.
pub open spec fn folder_plus(
    known: Map<Seq<char>, EntryView>,
    id: Seq<char>,
    path: Seq<char>,
    bytes: u64,
    allocated: u64,
    files: u64,
) -> EntryView {
    if known.contains_key(id) {
        EntryView {
            path: known[id].path,
            bytes: plus(known[id].bytes, bytes),
            allocated_bytes: plus(known[id].allocated_bytes, allocated),
            files: match known[id].files {
                Some(n) => Some(plus(n, files)),
                None => Some(files),
            },
            category: None,
        }
    } else {
        EntryView { path, bytes, allocated_bytes: allocated, files: Some(files), category: None }
    }
}

/// The folder sizes once a file of a folder has been added to it and to each
/// folder above it, up to the root.
pub open spec fn rolled_up(
    style: PathStyle,
    known: Map<Seq<char>, EntryView>,
    root: Seq<char>,
    dir: Seq<char>,
    bytes: u64,
    allocated: u64,
) -> Map<Seq<char>, EntryView>
    decreases dir.len(),
{
    if !under(style, dir, root) {
        known
    } else {
        let id = folder_id(style, dir);
        let next = known.insert(id, folder_plus(known, id, dir, bytes, allocated, 1));
        match parent(style, dir) {
            Some(above) => if components(style, dir) != components(style, root) && above.len() < dir.len() {
                rolled_up(style, next, root, above, bytes, allocated)
            } else {
                next
            },
            None => next,
        }
    }
}

/// The folder sizes once a file has been added to the folders that hold it.
pub open spec fn rolled_up_file(
    style: PathStyle,
    known: Map<Seq<char>, EntryView>,
    root: Seq<char>,
    file: Seq<char>,
    bytes: u64,
    allocated: u64,
) -> Map<Seq<char>, EntryView> {
    match parent(style, file) {
        Some(dir) => rolled_up(style, known, root, dir, bytes, allocated),
        None => known,
    }
}

/// The scan with a file added.
pub open spec fn with_file(
    style: PathStyle,
    scan: ScanView,
    root: Seq<char>,
    file: SizedEntry,
    category: Seq<char>,
) -> ScanView {
    ScanView {
        bytes: plus(scan.bytes, file.bytes),
        allocated_bytes: plus(scan.allocated_bytes, file.allocated_bytes),
        files: plus(scan.files, 1),
        categories: scan.categories.insert(
            category,
            category_plus(scan.categories, category, file.bytes, file.allocated_bytes, 1),
        ),
        largest: offered(scan.limit, scan.largest, file),
        sizes: rolled_up_file(
            style,
            scan.sizes,
            root,
            file.path@,
            file.bytes,
            file.allocated_bytes,
        ),
        ..scan
    }
}

/// The scan with a path left out.
pub open spec fn with_skipped(scan: ScanView, path: Seq<char>, reason: Seq<char>) -> ScanView {
    ScanView { skipped: scan.skipped.push((path, reason)), ..scan }
}

/// An empty scan.
pub open spec fn empty_scan(limit: nat) -> ScanView {
    ScanView {
        bytes: 0,
        allocated_bytes: 0,
        files: 0,
        folders: 0,
        categories: Map::empty(),
        limit,
        largest: Seq::empty(),
        sizes: Map::empty(),
        skipped: Seq::empty(),
        denied: 0,
    }
}

// ---------------------------------------------------------------------------
// A partial scan
// ---------------------------------------------------------------------------

/// What the scan of one root, or of several, has found.
#[derive(Debug, PartialEq, Eq)]
pub struct PartialScan {
    pub total_bytes: u64,
    pub total_allocated_bytes: u64,
    pub file_count: u64,
    pub folder_count: u64,
    pub categories: NameMap<CategoryTotal>,
    pub largest_files: TopList,
    pub folder_sizes: NameMap<SizedEntry>,
    pub skipped: Vec<SkippedPath>,
    pub access_denied_count: u64,
}

/// The category totals of a map.
pub open spec fn category_map(map: Map<Seq<char>, CategoryTotal>) -> Map<Seq<char>, CategoryView> {
    map.map_values(|c: CategoryTotal| c@)
}

/// The folder sizes of a map.
pub open spec fn folder_map(map: Map<Seq<char>, SizedEntry>) -> Map<Seq<char>, EntryView> {
    map.map_values(|e: SizedEntry| e@)
}

/// Each category total has the name it is kept under.
pub open spec fn named(map: Map<Seq<char>, CategoryView>) -> bool {
    forall|k: Seq<char>| #[trigger] map.contains_key(k) ==> map[k].name == k
}

/// Each category counts a file.
pub open spec fn counting(map: Map<Seq<char>, CategoryView>) -> bool {
    forall|k: Seq<char>| #[trigger] map.contains_key(k) ==> map[k].files >= 1
}

/// Adds two numbers, stopping at the largest.
fn plus_of(a: u64, b: u64) -> (r: u64)
    ensures
        r == plus(a, b),
{
    a.saturating_add(b)
}

fn add_to_category(
    map: &mut NameMap<CategoryTotal>,
    name: &String,
    bytes: u64,
    allocated: u64,
    files: u64,
)
    requires
        old(map).wf(),
    ensures
        final(map).wf(),
        category_map(final(map).map()) == category_map(old(map).map()).insert(
            name@,
            category_plus(category_map(old(map).map()), name@, bytes, allocated, files),
        ),
        sum_of(old(map).vals(), bytes_in()) + bytes <= u64::MAX ==> sum_of(
            final(map).vals(),
            bytes_in(),
        ) == sum_of(old(map).vals(), bytes_in()) + bytes,
        sum_of(old(map).vals(), allocated_in()) + allocated <= u64::MAX ==> sum_of(
            final(map).vals(),
            allocated_in(),
        ) == sum_of(old(map).vals(), allocated_in()) + allocated,
        sum_of(old(map).vals(), files_in()) + files <= u64::MAX ==> sum_of(
            final(map).vals(),
            files_in(),
        ) == sum_of(old(map).vals(), files_in()) + files,
{
    let ghost before = map.map();
    let ghost old_map = *map;
    let total = match map.get(name.as_str()) {
        Some(known) => CategoryTotal {
            name: known.name.clone(),
            bytes: plus_of(known.bytes, bytes),
            allocated_bytes: plus_of(known.allocated_bytes, allocated),
            files: plus_of(known.files, files),
        },
        None => CategoryTotal { name: name.clone(), bytes, allocated_bytes: allocated, files },
    };
    let ghost value = total@;
    let ghost added = total;
    assert(value == category_plus(category_map(before), name@, bytes, allocated, files));
    map.insert(name.clone(), total);
    proof {
        let keys = old_map.keys();
        let vals = old_map.vals();
        if keys.contains(name@) {
            let i = keys.index_of(name@);
            old_map.lemma_at(i);
            lemma_sum_part(vals, i, bytes_in());
            lemma_sum_part(vals, i, allocated_in());
            lemma_sum_part(vals, i, files_in());
            lemma_sum_update(vals, i, added, bytes_in());
            lemma_sum_update(vals, i, added, allocated_in());
            lemma_sum_update(vals, i, added, files_in());
        } else {
            let i = choose|i: int|
                0 <= i <= keys.len() && map.keys() == #[trigger] keys.insert(i, name@)
                    && map.vals() == vals.insert(i, added);
            lemma_sum_insert(vals, i, added, bytes_in());
            lemma_sum_insert(vals, i, added, allocated_in());
            lemma_sum_insert(vals, i, added, files_in());
        }
    }
    assert(category_map(map.map()) =~= category_map(before).insert(name@, value));
}

fn add_to_folder(
    map: &mut NameMap<SizedEntry>,
    id: String,
    path: &String,
    bytes: u64,
    allocated: u64,
    files: u64,
)
    requires
        old(map).wf(),
    ensures
        final(map).wf(),
        folder_map(final(map).map()) == folder_map(old(map).map()).insert(
            id@,
            folder_plus(folder_map(old(map).map()), id@, path@, bytes, allocated, files),
        ),
{
    let ghost before = map.map();
    let size = match map.get(id.as_str()) {
        Some(known) => SizedEntry {
            path: known.path.clone(),
            bytes: plus_of(known.bytes, bytes),
            allocated_bytes: plus_of(known.allocated_bytes, allocated),
            files: match known.files {
                Some(n) => Some(plus_of(n, files)),
                None => Some(files),
            },
            category: None,
        },
        None => SizedEntry {
            path: path.clone(),
            bytes,
            allocated_bytes: allocated,
            files: Some(files),
            category: None,
        },
    };
    let ghost value = size@;
    let ghost key = id@;
    assert(value == folder_plus(folder_map(before), key, path@, bytes, allocated, files));
    map.insert(id, size);
    assert(folder_map(map.map()) =~= folder_map(before).insert(key, value));
}

impl PartialScan {
    /// The maps and the list are in order, each category has its name and counts
    /// a file, and the categories add up.
    pub open spec fn wf(&self) -> bool {
        &&& self.categories.wf()
        &&& self.folder_sizes.wf()
        &&& self.largest_files.wf()
        &&& named(self@.categories)
        &&& counting(self@.categories)
        &&& self.adds_up()
    }

    /// The categories add up to the totals, unless a total has reached the
    /// largest machine number.
    pub open spec fn adds_up(&self) -> bool {
        let totals = self.categories.vals();
        &&& self.total_bytes < u64::MAX ==> sum_of(totals, bytes_in()) == self.total_bytes
        &&& self.total_allocated_bytes < u64::MAX ==> sum_of(totals, allocated_in())
            == self.total_allocated_bytes
        &&& self.file_count < u64::MAX ==> sum_of(totals, files_in()) == self.file_count
    }

    /// An empty scan that keeps at most `limit` files.
    pub fn with_limit(limit: usize) -> (r: Self)
        ensures
            r.wf(),
            r@ == empty_scan(limit as nat),
    {
        let r = PartialScan {
            total_bytes: 0,
            total_allocated_bytes: 0,
            file_count: 0,
            folder_count: 0,
            categories: NameMap::new(),
            largest_files: TopList::new(limit),
            folder_sizes: NameMap::new(),
            skipped: Vec::new(),
            access_denied_count: 0,
        };
        assert(r@.categories =~= Map::<Seq<char>, CategoryView>::empty());
        assert(r@.sizes =~= Map::<Seq<char>, EntryView>::empty());
        assert(r@.skipped =~= Seq::<(Seq<char>, Seq<char>)>::empty());
        r
    }

    /// Records a path that is left out.
    pub fn skip(&mut self, path: String, reason: String)
        requires
            old(self).wf(),
        ensures
            final(self).wf(),
            final(self)@ == with_skipped(old(self)@, path@, reason@),
    {
        let ghost before = self@;
        let ghost item = (path@, reason@);
        self.skipped.push(SkippedPath { path, reason });
        assert(self@.skipped =~= before.skipped.push(item));
    }

    /// Adds a file of a category.
    pub fn add_file(
        &mut self,
        style: PathStyle,
        root: &str,
        path: String,
        bytes: u64,
        allocated_bytes: u64,
        category: String,
    )
        requires
            old(self).wf(),
        ensures
            final(self).wf(),
            final(self)@ == with_file(
                style,
                old(self)@,
                root@,
                SizedEntry { path, bytes, allocated_bytes, files: None, category: Some(category) },
                category@,
            ),
    {
        self.total_bytes = plus_of(self.total_bytes, bytes);
        self.total_allocated_bytes = plus_of(self.total_allocated_bytes, allocated_bytes);
        self.file_count = plus_of(self.file_count, 1);
        add_to_category(&mut self.categories, &category, bytes, allocated_bytes, 1);
        add_to_folder_rollups(style, &mut self.folder_sizes, root, path.as_str(), bytes, allocated_bytes);
        self.largest_files.push(
            SizedEntry { path, bytes, allocated_bytes, files: None, category: Some(category) },
        );
    }
}

impl View for PartialScan {
    type V = ScanView;

    open spec fn view(&self) -> ScanView {
        ScanView {
            bytes: self.total_bytes,
            allocated_bytes: self.total_allocated_bytes,
            files: self.file_count,
            folders: self.folder_count,
            categories: category_map(self.categories.map()),
            limit: self.largest_files.limit(),
            largest: self.largest_files.entries(),
            sizes: folder_map(self.folder_sizes.map()),
            skipped: skipped_views(self.skipped@),
            denied: self.access_denied_count,
        }
    }
}

fn escape(text: &str) -> (r: String)
    ensures
        r@ == escaped(text@),
{
    let s = to_chars(text);
    let mut r = String::new();
    assert(s@.take(0) =~= Seq::<char>::empty());
    for i in 0..s.len()
        invariant
            r@ == escaped(s@.take(i as int)),
    {
        let c = s[i];
        let ghost before = r@;
        assert(s@.take(i + 1).drop_last() == s@.take(i as int));
        assert(s@.take(i + 1).last() == c);
        if c == '/' {
            r.push('|');
            r.push('s');
        } else if c == '|' {
            r.push('|');
            r.push('p');
        } else {
            r.push(c);
        }
        assert(r@ =~= before + escaped_char(c));
    }
    assert(s@.take(s@.len() as int) == s@);
    r
}

fn folder_key(style: PathStyle, path: &str) -> (r: String)
    ensures
        r@ == folder_id(style, path@),
{
    let list = components_of(style, path);
    let ghost all = escaped_texts(components(style, path@));
    let mut keys: Vec<String> = Vec::new();
    assert(texts(keys@) =~= all.take(0));
    for i in 0..list.len()
        invariant
            texts(list@) == components(style, path@),
            all == escaped_texts(components(style, path@)),
            texts(keys@) == all.take(i as int),
    {
        assert(components(style, path@)[i as int] == list@[i as int]@);
        push_text(&mut keys, escape(list[i].as_str()));
        assert(texts(keys@) =~= all.take(i + 1));
    }
    assert(all.take(all.len() as int) == all);
    join_texts(keys.as_slice(), "/")
}

/// Adds a file to the folders that hold it, up to the root.
pub fn add_to_folder_rollups(
    style: PathStyle,
    sizes: &mut NameMap<SizedEntry>,
    root: &str,
    file_path: &str,
    bytes: u64,
    allocated_bytes: u64,
)
    requires
        old(sizes).wf(),
    ensures
        final(sizes).wf(),
        folder_map(final(sizes).map()) == rolled_up_file(
            style,
            folder_map(old(sizes).map()),
            root@,
            file_path@,
            bytes,
            allocated_bytes,
        ),
{
    let ghost goal = rolled_up_file(
        style,
        folder_map(sizes.map()),
        root@,
        file_path@,
        bytes,
        allocated_bytes,
    );
    let mut dir = match parent_of(style, file_path) {
        Some(dir) => dir,
        None => return ,
    };
    let mut done = false;
    while !done
        invariant
            sizes.wf(),
            !done ==> goal == rolled_up(
                style,
                folder_map(sizes.map()),
                root@,
                dir@,
                bytes,
                allocated_bytes,
            ),
            done ==> goal == folder_map(sizes.map()),
        decreases
                dir@.len() + if done {
                    0int
                } else {
                    1int
                },
    {
        if !is_under(style, dir.as_str(), root) {
            done = true;
        } else {
            let id = folder_key(style, dir.as_str());
            add_to_folder(sizes, id, &dir, bytes, allocated_bytes, 1);
            if same_components(style, dir.as_str(), root) {
                done = true;
            } else {
                match parent_of(style, dir.as_str()) {
                    Some(above) => {
                        proof {
                            lemma_parent_shorter(style, dir@);
                        }
                        dir = above;
                    },
                    None => {
                        done = true;
                    },
                }
            }
        }
    }
}

// ---------------------------------------------------------------------------
// Merging
// ---------------------------------------------------------------------------

/// The categories of `a` with those of `b` in `part` added.
pub open spec fn mixed_categories(
    a: Map<Seq<char>, CategoryView>,
    b: Map<Seq<char>, CategoryView>,
    part: Set<Seq<char>>,
) -> Map<Seq<char>, CategoryView> {
    Map::new(
        |k: Seq<char>| a.contains_key(k) || part.contains(k),
        |k: Seq<char>|
            if part.contains(k) {
                category_plus(a, k, b[k].bytes, b[k].allocated_bytes, b[k].files)
            } else {
                a[k]
            },
    )
}

/// How many files a folder size counts.
pub open spec fn counted(e: EntryView) -> u64 {
    match e.files {
        Some(n) => n,
        None => 0,
    }
}

/// The folder sizes of `a` with those of `b` in `part` added.
pub open spec fn mixed_folders(
    a: Map<Seq<char>, EntryView>,
    b: Map<Seq<char>, EntryView>,
    part: Set<Seq<char>>,
) -> Map<Seq<char>, EntryView> {
    Map::new(
        |k: Seq<char>| a.contains_key(k) || part.contains(k),
        |k: Seq<char>|
            if part.contains(k) {
                folder_plus(a, k, b[k].path, b[k].bytes, b[k].allocated_bytes, counted(b[k]))
            } else {
                a[k]
            },
    )
}

/// Two scans added up.
pub open spec fn merged(a: ScanView, b: ScanView) -> ScanView {
    ScanView {
        bytes: plus(a.bytes, b.bytes),
        allocated_bytes: plus(a.allocated_bytes, b.allocated_bytes),
        files: plus(a.files, b.files),
        folders: plus(a.folders, b.folders),
        categories: mixed_categories(a.categories, b.categories, b.categories.dom()),
        limit: a.limit,
        largest: offered_all(a.limit, a.largest, sorted::<SizedEntry, FileRank>(b.largest)),
        sizes: mixed_folders(a.sizes, b.sizes, b.sizes.dom()),
        skipped: a.skipped + b.skipped,
        denied: plus(a.denied, b.denied),
    }
}

/// A set of names with the next one.
proof fn lemma_take_set(names: Seq<Seq<char>>, i: int)
    requires
        0 <= i < names.len(),
        increasing(names),
    ensures
        names.take(i + 1).to_set() == names.take(i).to_set().insert(names[i]),
        !names.take(i).to_set().contains(names[i]),
{
    let now = names.take(i);
    let next = names.take(i + 1);
    assert(next == now.push(names[i]));
    assert forall|k: Seq<char>| next.to_set().contains(k) <==> now.to_set().insert(
        names[i],
    ).contains(k) by {
        if now.contains(k) {
            let p = choose|p: int| 0 <= p < now.len() && now[p] == k;
            assert(next[p] == k);
        }
        assert(next[i] == names[i]);
        if next.contains(k) && k != names[i] {
            let p = choose|p: int| 0 <= p < next.len() && next[p] == k;
            assert(now[p] == k);
        }
    }
    assert(next.to_set() =~= now.to_set().insert(names[i]));
    if now.contains(names[i]) {
        let p = choose|p: int| 0 <= p < now.len() && now[p] == names[i];
        assert(text_lt(names[p], names[i]));
        lemma_text_lt_irreflexive(names[i]);
    }
}

fn merge_categories(map: &mut NameMap<CategoryTotal>, other: &NameMap<CategoryTotal>)
    requires
        old(map).wf(),
        other.wf(),
        named(category_map(other.map())),
    ensures
        final(map).wf(),
        category_map(final(map).map()) == mixed_categories(
            category_map(old(map).map()),
            category_map(other.map()),
            category_map(other.map()).dom(),
        ),
        sum_of(old(map).vals(), bytes_in()) + sum_of(other.vals(), bytes_in()) <= u64::MAX
            ==> sum_of(final(map).vals(), bytes_in()) == sum_of(old(map).vals(), bytes_in())
            + sum_of(other.vals(), bytes_in()),
        sum_of(old(map).vals(), allocated_in()) + sum_of(other.vals(), allocated_in()) <= u64::MAX
            ==> sum_of(final(map).vals(), allocated_in()) == sum_of(
            old(map).vals(),
            allocated_in(),
        ) + sum_of(other.vals(), allocated_in()),
        sum_of(old(map).vals(), files_in()) + sum_of(other.vals(), files_in()) <= u64::MAX
            ==> sum_of(final(map).vals(), files_in()) == sum_of(old(map).vals(), files_in())
            + sum_of(other.vals(), files_in()),
{
    let ghost start = map.vals();
    let ghost more = other.vals();
    let ghost a = category_map(map.map());
    let ghost b = category_map(other.map());
    let ghost names = other.keys();
    let count: usize = other.len();
    assert(category_map(map.map()) =~= mixed_categories(a, b, names.take(0).to_set()));
    for i in 0..count
        invariant
            map.wf(),
            other.wf(),
            count == names.len(),
            names == other.keys(),
            b == category_map(other.map()),
            category_map(map.map()) == mixed_categories(a, b, names.take(i as int).to_set()),
            more == other.vals(),
            sum_of(start, bytes_in()) + sum_of(more, bytes_in()) <= u64::MAX ==> sum_of(
                map.vals(),
                bytes_in(),
            ) == sum_of(start, bytes_in()) + sum_of(more.take(i as int), bytes_in()),
            sum_of(start, allocated_in()) + sum_of(more, allocated_in()) <= u64::MAX ==> sum_of(
                map.vals(),
                allocated_in(),
            ) == sum_of(start, allocated_in()) + sum_of(more.take(i as int), allocated_in()),
            sum_of(start, files_in()) + sum_of(more, files_in()) <= u64::MAX ==> sum_of(
                map.vals(),
                files_in(),
            ) == sum_of(start, files_in()) + sum_of(more.take(i as int), files_in()),
    {
        let ghost now = category_map(map.map());
        proof {
            other.lemma_at(i as int);
            lemma_take_set(names, i as int);
        }
        let total = other.value_at(i);
        proof {
            lemma_sum_take(more, i as int, bytes_in());
            lemma_sum_take(more, i as int, allocated_in());
            lemma_sum_take(more, i as int, files_in());
        }
        assert(b[names[i as int]] == total@);
        add_to_category(map, other.name_at(i), total.bytes, total.allocated_bytes, total.files);
        assert(category_map(map.map()) =~= mixed_categories(a, b, names.take(i + 1).to_set()));
    }
    assert(names.take(names.len() as int) == names);
    assert(names.to_set() =~= b.dom());
    assert(more.take(more.len() as int) == more);
}

fn merge_folders(map: &mut NameMap<SizedEntry>, other: &NameMap<SizedEntry>)
    requires
        old(map).wf(),
        other.wf(),
    ensures
        final(map).wf(),
        folder_map(final(map).map()) == mixed_folders(
            folder_map(old(map).map()),
            folder_map(other.map()),
            folder_map(other.map()).dom(),
        ),
{
    let ghost a = folder_map(map.map());
    let ghost b = folder_map(other.map());
    let ghost names = other.keys();
    let count: usize = other.len();
    assert(folder_map(map.map()) =~= mixed_folders(a, b, names.take(0).to_set()));
    for i in 0..count
        invariant
            map.wf(),
            other.wf(),
            count == names.len(),
            names == other.keys(),
            b == folder_map(other.map()),
            folder_map(map.map()) == mixed_folders(a, b, names.take(i as int).to_set()),
    {
        let ghost now = folder_map(map.map());
        proof {
            other.lemma_at(i as int);
            lemma_take_set(names, i as int);
        }
        let size = other.value_at(i);
        let files: u64 = match size.files {
            Some(n) => n,
            None => 0,
        };
        assert(b[names[i as int]] == size@);
        add_to_folder(
            map,
            other.name_at(i).clone(),
            &size.path,
            size.bytes,
            size.allocated_bytes,
            files,
        );
        assert(folder_map(map.map()) =~= mixed_folders(a, b, names.take(i + 1).to_set()));
    }
    assert(names.take(names.len() as int) == names);
    assert(names.to_set() =~= b.dom());
}

impl PartialScan {
    /// Adds another scan to this one.
    pub fn merge(&mut self, other: PartialScan)
        requires
            old(self).wf(),
            other.wf(),
        ensures
            final(self).wf(),
            final(self)@ == merged(old(self)@, other@),
    {
        let ghost a = self@;
        let ghost b = other@;
        self.total_bytes = plus_of(self.total_bytes, other.total_bytes);
        self.total_allocated_bytes = plus_of(
            self.total_allocated_bytes,
            other.total_allocated_bytes,
        );
        self.file_count = plus_of(self.file_count, other.file_count);
        self.folder_count = plus_of(self.folder_count, other.folder_count);
        self.access_denied_count = plus_of(self.access_denied_count, other.access_denied_count);
        let mut more = other.skipped;
        let ghost more_views = skipped_views(more@);
        self.skipped.append(&mut more);
        self.largest_files.extend(other.largest_files.into_sorted_vec());
        merge_categories(&mut self.categories, &other.categories);
        merge_folders(&mut self.folder_sizes, &other.folder_sizes);
        assert(self@.skipped =~= a.skipped + b.skipped);
    }
}

/// Totals and categories of two scans do not depend on which is added to which.
pub proof fn law_merging_either_way(a: ScanView, b: ScanView)
    requires
        named(a.categories),
        named(b.categories),
    ensures
        ({
            let ab = merged(a, b);
            let ba = merged(b, a);
            &&& ab.bytes == ba.bytes
            &&& ab.allocated_bytes == ba.allocated_bytes
            &&& ab.files == ba.files
            &&& ab.folders == ba.folders
            &&& ab.denied == ba.denied
            &&& ab.categories == ba.categories
            &&& ab.sizes.dom() == ba.sizes.dom()
        }),
{
    let x = merged(a, b).categories;
    let y = merged(b, a).categories;
    assert(x.dom() =~= y.dom());
    assert forall|k: Seq<char>| #[trigger] x.contains_key(k) implies x[k] == y[k] by {
        if a.categories.contains_key(k) && b.categories.contains_key(k) {
            assert(a.categories[k].name == k);
            assert(b.categories[k].name == k);
        } else if a.categories.contains_key(k) {
            assert(a.categories[k].name == k);
        } else {
            assert(b.categories[k].name == k);
        }
    }
    assert(x =~= y);
    assert(merged(a, b).sizes.dom() =~= merged(b, a).sizes.dom());
}

/// Several scans added up, one after the other.
pub open spec fn merged_all(limit: nat, list: Seq<ScanView>) -> ScanView
    decreases list.len(),
{
    if list.len() == 0 {
        empty_scan(limit)
    } else {
        merged(merged_all(limit, list.drop_last()), list.last())
    }
}

/// What a list of scans has found.
pub open spec fn scan_views(list: Seq<PartialScan>) -> Seq<ScanView> {
    list.map_values(|p: PartialScan| p@)
}

/// Adds up the scans of all roots.
pub fn merge_all(top_limit: usize, partials: Vec<PartialScan>) -> (r: PartialScan)
    requires
        forall|i: int| 0 <= i < partials@.len() ==> (#[trigger] partials@[i]).wf(),
    ensures
        r.wf(),
        r@ == merged_all(top_limit as nat, scan_views(partials@)),
{
    let ghost list = scan_views(partials@);
    let ghost given = partials@;
    let mut all = PartialScan::with_limit(top_limit);
    let mut rest = partials;
    let ghost mut done: int = 0;
    assert(list.take(0) == Seq::<ScanView>::empty());
    assert(given.skip(0) == given);
    while rest.len() > 0
        invariant
            list == scan_views(given),
            0 <= done <= given.len(),
            rest@ == given.skip(done),
            all.wf(),
            all@ == merged_all(top_limit as nat, list.take(done)),
            forall|i: int| 0 <= i < given.len() ==> (#[trigger] given[i]).wf(),
        decreases rest@.len(),
    {
        let p = rest.remove(0);
        assert(p == given[done]);
        assert(list.take(done + 1).drop_last() == list.take(done));
        assert(list.take(done + 1).last() == p@);
        assert(rest@ == given.skip(done + 1));
        all.merge(p);
        proof {
            done = done + 1;
        }
    }
    assert(list.take(done) == list);
    all
}

/// A scan that keeps the largest of some files keeps, once a file is added, the
/// largest of these files and that one.
pub proof fn law_a_file_more_keeps_the_largest(
    style: PathStyle,
    scan: ScanView,
    root: Seq<char>,
    files: Seq<SizedEntry>,
    file: SizedEntry,
    category: Seq<char>,
)
    requires
        scan.largest == largest(scan.limit, files),
    ensures
        with_file(style, scan, root, file, category).largest == largest(scan.limit, files.push(file)),
{
    lemma_offered_largest(scan.limit, files, file);
}

/// Two scans that keep the largest of their files keep, added up, the largest
/// of the files of both, up to entries that are equal in bytes, bytes on disk
/// and path.
pub proof fn law_merging_keeps_the_largest(
    a: ScanView,
    b: ScanView,
    files_a: Seq<SizedEntry>,
    files_b: Seq<SizedEntry>,
)
    requires
        ranks(a.largest) == ranks(largest(a.limit, files_a)),
        ranks(b.largest) == ranks(largest(a.limit, files_b)),
    ensures
        ranks(merged(a, b).largest) == ranks(largest(a.limit, files_a + files_b)),
{
    lemma_ranks_sorted::<FileRank>(b.largest);
    lemma_offered_streams(
        a.limit,
        a.largest,
        sorted::<SizedEntry, FileRank>(b.largest),
        files_a,
        files_b,
    );
}

/// The scans of all roots, added up, keep the largest of the files of all roots,
/// up to entries that are equal in bytes, bytes on disk and path.
pub proof fn law_all_roots_keep_the_largest(
    limit: nat,
    list: Seq<ScanView>,
    files: Seq<Seq<SizedEntry>>,
)
    requires
        list.len() == files.len(),
        forall|i: int|
            0 <= i < list.len() ==> ranks((#[trigger] list[i]).largest) == ranks(
                largest(limit, files[i]),
            ),
    ensures
        ranks(merged_all(limit, list).largest) == ranks(largest(limit, files.flatten())),
        merged_all(limit, list).limit == limit,
    decreases list.len(),
{
    files.lemma_flatten_and_flatten_alt_are_equivalent();
    if list.len() > 0 {
        let (init, before) = (list.drop_last(), files.drop_last());
        assert forall|i: int| 0 <= i < init.len() implies ranks((#[trigger] init[i]).largest)
            == ranks(largest(limit, before[i])) by {
            assert(init[i] == list[i]);
        }
        law_all_roots_keep_the_largest(limit, init, before);
        before.lemma_flatten_and_flatten_alt_are_equivalent();
        assert(list[list.len() - 1] == list.last());
        law_merging_keeps_the_largest(
            merged_all(limit, init),
            list.last(),
            before.flatten(),
            files.last(),
        );
    } else {
        assert(files.flatten() =~= Seq::<SizedEntry>::empty());
        assert(largest(limit, files.flatten()) =~= Seq::<SizedEntry>::empty());
    }
}

// ---------------------------------------------------------------------------
// Walking a root
// ---------------------------------------------------------------------------

/// A folder still to be read; `handle` is the walker's own name for it.
#[derive(Debug, PartialEq, Eq)]
pub struct PendingDir {
    pub handle: usize,
    pub path: String,
}

/// The walk through one root: what is still to be read and what was found.
#[derive(Debug, PartialEq, Eq)]
pub struct RootScan {
    pub style: PathStyle,
    pub root: String,
    pub skip_names: Vec<String>,
    pub stack: Vec<PendingDir>,
    pub scan: PartialScan,
}

/// What the walker met.
#[derive(Debug, PartialEq, Eq)]
pub enum ScanEvent {
    /// The folder could not be read.
    DirFailed { path: String, reason: String, denied: bool },
    /// The folder is being read.
    DirOpened,
    /// An entry could not be looked at.
    EntryFailed { path: String, reason: String },
    /// A symbolic link.
    Symlink { path: String },
    /// A folder inside the folder.
    Folder { handle: usize, path: String },
    /// A file; `allocated` is what it takes on disk, where that is known.
    File { path: String, bytes: u64, allocated: Option<u64> },
    /// Anything else.
    Other,
}

/// The folder is one of those that are left out; the root never is.
pub open spec fn protected(
    style: PathStyle,
    path: Seq<char>,
    root: Seq<char>,
    names: Seq<Seq<char>>,
) -> bool {
    components(style, path) != components(style, root) && match file_name(style, path) {
        Some(name) => exists|i: int| 0 <= i < names.len() && same_fold(#[trigger] names[i], name),
        None => false,
    }
}

/// Whether the folder is one of those that are left out.
pub fn should_skip_dir(
    style: PathStyle,
    path: &str,
    root: &str,
    skip_names: &Vec<String>,
) -> (r: bool)
    ensures
        r == protected(style, path@, root@, texts(skip_names@)),
{
    if same_components(style, path, root) {
        return false;
    }
    let ghost names = texts(skip_names@);
    match file_name_of(style, path) {
        Some(name) => {
            for i in 0..skip_names.len()
                invariant
                    names == texts(skip_names@),
                    components(style, path@) != components(style, root@),
                    file_name(style, path@) == Some(name@),
                    forall|k: int| 0 <= k < i ==> !same_fold(#[trigger] names[k], name@),
            {
                assert(names[i as int] == skip_names@[i as int]@);
                if same_ignoring_case(skip_names[i].as_str(), name.as_str()) {
                    return true;
                }
            }
            false
        },
        None => false,
    }
}

/// The reason why a protected folder is left out.
pub open spec fn protected_reason() -> Seq<char> {
    "configured protected directory"@
}

/// What the next folder to read is: protected ones are left out on the way.
pub open spec fn next_dir(
    style: PathStyle,
    stack: Seq<PendingDir>,
    root: Seq<char>,
    names: Seq<Seq<char>>,
    scan: ScanView,
) -> (Seq<PendingDir>, ScanView, Option<PendingDir>)
    decreases stack.len(),
{
    if stack.len() == 0 {
        (stack, scan, None)
    } else if protected(style, stack.last().path@, root, names) {
        next_dir(
            style,
            stack.drop_last(),
            root,
            names,
            with_skipped(scan, stack.last().path@, protected_reason()),
        )
    } else {
        (stack.drop_last(), scan, Some(stack.last()))
    }
}

/// How much a file takes on disk: what is known, else its size.
pub open spec fn on_disk(bytes: u64, allocated: Option<u64>) -> u64 {
    match allocated {
        Some(n) => n,
        None => bytes,
    }
}

/// What a walk makes of an event, given the category of a file.
pub open spec fn after_event(
    style: PathStyle,
    scan: ScanView,
    root: Seq<char>,
    event: ScanEvent,
    category: String,
) -> ScanView {
    match event {
        ScanEvent::DirFailed { path, reason, denied } => {
            let next = with_skipped(scan, path@, reason@);
            if denied {
                ScanView { denied: plus(scan.denied, 1), ..next }
            } else {
                next
            }
        },
        ScanEvent::DirOpened => ScanView { folders: plus(scan.folders, 1), ..scan },
        ScanEvent::EntryFailed { path, reason } => with_skipped(scan, path@, reason@),
        ScanEvent::Symlink { path } => with_skipped(scan, path@, "symbolic link"@),
        ScanEvent::Folder { .. } => scan,
        ScanEvent::File { path, bytes, allocated } => with_file(
            style,
            scan,
            root,
            SizedEntry {
                path,
                bytes,
                allocated_bytes: on_disk(bytes, allocated),
                files: None,
                category: Some(category),
            },
            category@,
        ),
        ScanEvent::Other => scan,
    }
}

/// The folders still to be read after an event.
pub open spec fn stack_after(stack: Seq<PendingDir>, event: ScanEvent) -> Seq<PendingDir> {
    match event {
        ScanEvent::Folder { handle, path } => stack.push(PendingDir { handle, path }),
        _ => stack,
    }
}

impl RootScan {
    /// What was found is well formed.
    pub open spec fn wf(&self) -> bool {
        self.scan.wf()
    }

    /// The rules of paths, the root and the names to leave out are the same.
    pub open spec fn same_walk(&self, other: &RootScan) -> bool {
        self.style == other.style && self.root == other.root && self.skip_names
            == other.skip_names
    }

    /// The walk before its first step: only the root is to be read.
    pub fn new(
        style: PathStyle,
        root: String,
        handle: usize,
        skip_names: Vec<String>,
        top_limit: usize,
    ) -> (r: Self)
        ensures
            r.wf(),
            r.style == style,
            r.root == root,
            r.skip_names == skip_names,
            r.stack@ == seq![PendingDir { handle, path: root }],
            r.scan@ == empty_scan(top_limit as nat),
    {
        let mut stack: Vec<PendingDir> = Vec::new();
        stack.push(PendingDir { handle, path: root.clone() });
        assert(stack@ =~= seq![PendingDir { handle, path: root }]);
        RootScan { style, root, skip_names, stack, scan: PartialScan::with_limit(top_limit) }
    }

    /// Takes the next folder to read.
    pub fn next(&mut self) -> (r: Option<PendingDir>)
        requires
            old(self).wf(),
        ensures
            final(self).wf(),
            final(self).same_walk(old(self)),
            (final(self).stack@, final(self).scan@, r) == next_dir(
                old(self).style,
                old(self).stack@,
                old(self).root@,
                texts(old(self).skip_names@),
                old(self).scan@,
            ),
    {
        let ghost goal = next_dir(
            self.style,
            self.stack@,
            self.root@,
            texts(self.skip_names@),
            self.scan@,
        );
        loop
            invariant
                self.wf(),
                self.same_walk(old(self)),
                goal == next_dir(
                    old(self).style,
                    old(self).stack@,
                    old(self).root@,
                    texts(old(self).skip_names@),
                    old(self).scan@,
                ),
                goal == next_dir(
                    self.style,
                    self.stack@,
                    self.root@,
                    texts(self.skip_names@),
                    self.scan@,
                ),
            decreases self.stack@.len(),
        {
            match self.stack.pop() {
                None => {
                    return None;
                },
                Some(dir) => {
                    if should_skip_dir(self.style, dir.path.as_str(), self.root.as_str(), &self.skip_names) {
                        self.scan.skip(dir.path, "configured protected directory".to_owned());
                    } else {
                        return Some(dir);
                    }
                },
            }
        }
    }

    /// Takes in what the walker met.
    pub fn take(&mut self, event: ScanEvent, rules: &CategoryRules)
        requires
            old(self).wf(),
            rules.wf(),
        ensures
            final(self).wf(),
            final(self).same_walk(old(self)),
            final(self).stack@ == stack_after(old(self).stack@, event),
            match event {
                ScanEvent::File { path, .. } => exists|category: String| #[trigger]
                    category@ == classified(old(self).style, rules.paths(), rules.extensions(), path@)
                        && final(self).scan@ == after_event(
                        old(self).style,
                        old(self).scan@,
                        old(self).root@,
                        event,
                        category,
                    ),
                _ => forall|category: String|
                    final(self).scan@ == #[trigger] after_event(
                        old(self).style,
                        old(self).scan@,
                        old(self).root@,
                        event,
                        category,
                    ),
            },
    {
        match event {
            ScanEvent::DirFailed { path, reason, denied } => {
                self.scan.skip(path, reason);
                if denied {
                    self.scan.access_denied_count = plus_of(self.scan.access_denied_count, 1);
                }
            },
            ScanEvent::DirOpened => {
                self.scan.folder_count = plus_of(self.scan.folder_count, 1);
            },
            ScanEvent::EntryFailed { path, reason } => {
                self.scan.skip(path, reason);
            },
            ScanEvent::Symlink { path } => {
                self.scan.skip(path, "symbolic link".to_owned());
            },
            ScanEvent::Folder { handle, path } => {
                self.stack.push(PendingDir { handle, path });
            },
            ScanEvent::File { path, bytes, allocated } => {
                let allocated_bytes: u64 = match allocated {
                    Some(n) => n,
                    None => bytes,
                };
                let category = rules.classify_in(self.style, path.as_str());
                let ghost kind = category;
                self.scan.add_file(self.style, self.root.as_str(), path, bytes, allocated_bytes, category);
                assert(kind@ == classified(old(self).style, rules.paths(), rules.extensions(), path@));
            },
            ScanEvent::Other => {},
        }
    }
}

/// A protected folder is never read, and the root always is.
pub proof fn law_protected_folders_are_left_out(
    style: PathStyle,
    stack: Seq<PendingDir>,
    root: Seq<char>,
    names: Seq<Seq<char>>,
    scan: ScanView,
)
    ensures
        next_dir(style, stack, root, names, scan).2 matches Some(dir) ==> !protected(
            style,
            dir.path@,
            root,
            names,
        ),
        !protected(style, root, root, names),
    decreases stack.len(),
{
    if stack.len() > 0 && protected(style, stack.last().path@, root, names) {
        law_protected_folders_are_left_out(
            style,
            stack.drop_last(),
            root,
            names,
            with_skipped(scan, stack.last().path@, protected_reason()),
        );
    }
}

/// A folder is left out only where it is not the root and its last name is one of
/// the configured names, up to case; then that is recorded, with the reason. Every
/// other folder is handed out to be read.
pub proof fn law_only_configured_names_are_left_out(
    style: PathStyle,
    stack: Seq<PendingDir>,
    root: Seq<char>,
    names: Seq<Seq<char>>,
    scan: ScanView,
)
    requires
        stack.len() > 0,
    ensures
        ({
            let dir = stack.last();
            let (left, found, next) = next_dir(style, stack, root, names, scan);
            let configured = file_name(style, dir.path@) matches Some(name) && exists|i: int|
                0 <= i < names.len() && reads_as(#[trigger] names[i], name);
            if configured && components(style, dir.path@) != components(style, root) {
                &&& found.skipped.len() > scan.skipped.len()
                &&& scan.skipped.is_prefix_of(found.skipped)
                &&& found.skipped[scan.skipped.len() as int] == (
                    dir.path@,
                    "configured protected directory"@,
                )
            } else {
                left == stack.drop_last() && found == scan && next == Some(dir)
            }
        }),
{
    let dir = stack.last();
    if let Some(name) = file_name(style, dir.path@) {
        assert forall|i: int| 0 <= i < names.len() implies (same_fold(#[trigger] names[i], name)
            <==> reads_as(names[i], name)) by {
            law_same_up_to_case(names[i], name);
        }
    }
    if protected(style, dir.path@, root, names) {
        let next = with_skipped(scan, dir.path@, protected_reason());
        lemma_skipped_grows(style, stack.drop_last(), root, names, next);
        let found = next_dir(style, stack, root, names, scan).1;
        assert(found.skipped.subrange(0, next.skipped.len() as int) == next.skipped);
        assert(scan.skipped =~= found.skipped.subrange(0, scan.skipped.len() as int)) by {
            assert forall|i: int| 0 <= i < scan.skipped.len() implies scan.skipped[i]
                == found.skipped[i] by {
                assert(found.skipped.subrange(0, next.skipped.len() as int)[i] == next.skipped[i]);
            }
        }
        let n = scan.skipped.len() as int;
        assert(found.skipped.subrange(0, next.skipped.len() as int)[n] == next.skipped[n]);
    }
}

proof fn lemma_skipped_grows(
    style: PathStyle,
    stack: Seq<PendingDir>,
    root: Seq<char>,
    names: Seq<Seq<char>>,
    scan: ScanView,
)
    ensures
        scan.skipped.is_prefix_of(next_dir(style, stack, root, names, scan).1.skipped),
    decreases stack.len(),
{
    let found = next_dir(style, stack, root, names, scan).1;
    if stack.len() > 0 && protected(style, stack.last().path@, root, names) {
        let next = with_skipped(scan, stack.last().path@, protected_reason());
        lemma_skipped_grows(style, stack.drop_last(), root, names, next);
        assert forall|i: int| 0 <= i < scan.skipped.len() implies scan.skipped[i]
            == found.skipped[i] by {
            assert(found.skipped.subrange(0, next.skipped.len() as int)[i] == next.skipped[i]);
        }
        assert(scan.skipped =~= found.skipped.subrange(0, scan.skipped.len() as int));
    } else {
        assert(scan.skipped =~= found.skipped.subrange(0, scan.skipped.len() as int));
    }
}

/// Looking for the next folder changes nothing but the list of what is left out,
/// and takes folders only from the end of those still to be read.
pub proof fn law_next_folder_counts_nothing(
    style: PathStyle,
    stack: Seq<PendingDir>,
    root: Seq<char>,
    names: Seq<Seq<char>>,
    scan: ScanView,
)
    ensures
        ({
            let (left, found, next) = next_dir(style, stack, root, names, scan);
            &&& found == (ScanView { skipped: found.skipped, ..scan })
            &&& left.len() <= stack.len()
            &&& left == stack.take(left.len() as int)
            &&& next matches Some(dir) ==> left.len() < stack.len() && dir == stack[left.len() as int]
            &&& next is None ==> left.len() == 0
            &&& found.skipped.len() == scan.skipped.len() + stack.len() - left.len() - (if next
                is Some {
                1int
            } else {
                0int
            })
        }),
    decreases stack.len(),
{
    if stack.len() > 0 {
        let init = stack.drop_last();
        if protected(style, stack.last().path@, root, names) {
            let now = with_skipped(scan, stack.last().path@, protected_reason());
            law_next_folder_counts_nothing(style, init, root, names, now);
            let left = next_dir(style, stack, root, names, scan).0;
            assert(init.take(left.len() as int) =~= stack.take(left.len() as int));
        } else {
            assert(init =~= stack.take(stack.len() - 1));
        }
    } else {
        assert(stack.take(0) =~= stack);
    }
}

/// A sum of machine numbers that stops at the largest.
pub open spec fn capped_sum(a: u64, b: u64) -> int {
    vstd::math::min(a + b, u64::MAX as int)
}

/// A file that is met counts once: in the totals, in its category and nowhere
/// else; what it takes on disk is its size where nothing else is known.
pub proof fn law_a_file_counts_once(
    style: PathStyle,
    scan: ScanView,
    root: Seq<char>,
    path: String,
    bytes: u64,
    allocated: Option<u64>,
    category: String,
)
    ensures
        ({
            let after = after_event(
                style,
                scan,
                root,
                ScanEvent::File { path, bytes, allocated },
                category,
            );
            let disk = match allocated {
                Some(n) => n,
                None => bytes,
            };
            let had = if scan.categories.contains_key(category@) {
                let c = scan.categories[category@];
                (c.bytes, c.allocated_bytes, c.files)
            } else {
                (0u64, 0u64, 0u64)
            };
            let has = after.categories[category@];
            &&& after.bytes == capped_sum(scan.bytes, bytes)
            &&& after.allocated_bytes == capped_sum(scan.allocated_bytes, disk)
            &&& after.files == capped_sum(scan.files, 1)
            &&& after.folders == scan.folders
            &&& after.denied == scan.denied
            &&& after.skipped == scan.skipped
            &&& after.limit == scan.limit
            &&& after.categories.dom() == scan.categories.dom().insert(category@)
            &&& has.bytes == capped_sum(had.0, bytes)
            &&& has.allocated_bytes == capped_sum(had.1, disk)
            &&& has.files == capped_sum(had.2, 1)
            &&& forall|k: Seq<char>|
                k != category@ && #[trigger] scan.categories.contains_key(k)
                    ==> after.categories[k] == scan.categories[k]
        }),
{
    let after = after_event(
        style,
        scan,
        root,
        ScanEvent::File { path, bytes, allocated },
        category,
    );
    assert(after.categories.dom() =~= scan.categories.dom().insert(category@));
}

/// Everything else that is met counts as what it is: a folder that is read is
/// counted, one that cannot be read is recorded and, where access was denied,
/// counted as such; a link or an entry that cannot be looked at is recorded; the
/// files, their categories and sizes stay.
pub proof fn law_what_is_no_file_counts_no_bytes(
    style: PathStyle,
    scan: ScanView,
    root: Seq<char>,
    event: ScanEvent,
    category: String,
)
    requires
        !(event is File),
    ensures
        ({
            let after = after_event(style, scan, root, event, category);
            &&& after.bytes == scan.bytes
            &&& after.allocated_bytes == scan.allocated_bytes
            &&& after.files == scan.files
            &&& after.categories == scan.categories
            &&& after.largest == scan.largest
            &&& after.sizes == scan.sizes
            &&& after.limit == scan.limit
            &&& after.folders == capped_sum(
                scan.folders,
                if event is DirOpened {
                    1
                } else {
                    0
                },
            )
            &&& after.denied == capped_sum(
                scan.denied,
                if event matches ScanEvent::DirFailed { denied, .. } && denied {
                    1
                } else {
                    0
                },
            )
            &&& after.skipped == match event {
                ScanEvent::DirFailed { path, reason, .. } => scan.skipped.push((path@, reason@)),
                ScanEvent::EntryFailed { path, reason } => scan.skipped.push((path@, reason@)),
                ScanEvent::Symlink { path } => scan.skipped.push((path@, "symbolic link"@)),
                _ => scan.skipped,
            }
        }),
{
}

/// Two scans add up: their totals, the amounts of each category and the sizes of
/// each folder that either knows; what was left out is listed one behind the
/// other.
pub proof fn law_scans_add_up(a: ScanView, b: ScanView, k: Seq<char>)
    ensures
        ({
            let sum = merged(a, b);
            &&& sum.bytes == capped_sum(a.bytes, b.bytes)
            &&& sum.allocated_bytes == capped_sum(a.allocated_bytes, b.allocated_bytes)
            &&& sum.files == capped_sum(a.files, b.files)
            &&& sum.folders == capped_sum(a.folders, b.folders)
            &&& sum.denied == capped_sum(a.denied, b.denied)
            &&& sum.skipped == a.skipped + b.skipped
            &&& sum.categories.contains_key(k) <==> a.categories.contains_key(k)
                || b.categories.contains_key(k)
            &&& a.categories.contains_key(k) && !b.categories.contains_key(k)
                ==> sum.categories[k] == a.categories[k]
            &&& !a.categories.contains_key(k) && b.categories.contains_key(k) ==> {
                &&& sum.categories[k].bytes == b.categories[k].bytes
                &&& sum.categories[k].allocated_bytes == b.categories[k].allocated_bytes
                &&& sum.categories[k].files == b.categories[k].files
            }
            &&& a.categories.contains_key(k) && b.categories.contains_key(k) ==> {
                let (x, y, z) = (a.categories[k], b.categories[k], sum.categories[k]);
                &&& z.bytes == capped_sum(x.bytes, y.bytes)
                &&& z.allocated_bytes == capped_sum(x.allocated_bytes, y.allocated_bytes)
                &&& z.files == capped_sum(x.files, y.files)
            }
            &&& sum.sizes.contains_key(k) <==> a.sizes.contains_key(k) || b.sizes.contains_key(k)
            &&& a.sizes.contains_key(k) && !b.sizes.contains_key(k) ==> sum.sizes[k] == a.sizes[k]
            &&& !a.sizes.contains_key(k) && b.sizes.contains_key(k) ==> {
                &&& sum.sizes[k].path == b.sizes[k].path
                &&& sum.sizes[k].bytes == b.sizes[k].bytes
                &&& sum.sizes[k].allocated_bytes == b.sizes[k].allocated_bytes
                &&& sum.sizes[k].files == Some(counted(b.sizes[k]))
            }
            &&& a.sizes.contains_key(k) && b.sizes.contains_key(k) ==> {
                let (x, y, z) = (a.sizes[k], b.sizes[k], sum.sizes[k]);
                &&& z.path == x.path
                &&& z.bytes == capped_sum(x.bytes, y.bytes)
                &&& z.allocated_bytes == capped_sum(x.allocated_bytes, y.allocated_bytes)
                &&& z.files is Some && z.files->0 == capped_sum(counted(x), counted(y))
            }
        }),
{
}

// ---------------------------------------------------------------------------
// The snapshot of a scan
// ---------------------------------------------------------------------------

/// Why roots cannot be scanned, if they cannot: there are none, or one is no
/// folder.
pub open spec fn roots_refused(roots: Seq<Seq<char>>, are_dirs: Seq<bool>) -> Option<Seq<char>> {
    let i = first_false(are_dirs, 0);
    if roots.len() == 0 {
        Some("no scan roots were found"@)
    } else if i < roots.len() {
        Some("scan root does not exist or is not a directory: "@ + roots[i])
    } else {
        None
    }
}

/// The place of the first `false` from `from` on.
pub open spec fn first_false(flags: Seq<bool>, from: int) -> int
    decreases flags.len() - from,
{
    if from >= flags.len() || !flags[from] {
        from
    } else {
        first_false(flags, from + 1)
    }
}

/// Checks the roots of a scan; `are_dirs` says of each whether it is a folder.
pub fn check_scan_roots(roots: &Vec<String>, are_dirs: &Vec<bool>) -> (r: Result<(), CliError>)
    requires
        roots@.len() == are_dirs@.len(),
    ensures
        match roots_refused(texts(roots@), are_dirs@) {
            Some(message) => r matches Err(e) && e.says(message),
            None => r is Ok,
        },
{
    if roots.len() == 0 {
        return Err(refuse("no scan roots were found"));
    }
    for i in 0..roots.len()
        invariant
            roots@.len() == are_dirs@.len(),
            roots@.len() > 0,
            first_false(are_dirs@, 0) == first_false(are_dirs@, i as int),
    {
        if !are_dirs[i] {
            assert(texts(roots@)[i as int] == roots@[i as int]@);
            return Err(
                CliError::Message(
                    "scan root does not exist or is not a directory: ".to_owned().concat(
                        roots[i].as_str(),
                    ),
                ),
            );
        }
    }
    Ok(())
}

/// Milliseconds as they are recorded.
pub fn elapsed_ms(millis: u128) -> (r: u64)
    ensures
        r == if millis <= u64::MAX {
            millis as u64
        } else {
            u64::MAX
        },
{
    if millis <= u64::MAX as u128 {
        millis as u64
    } else {
        u64::MAX
    }
}

/// The first entries of a list, at most `limit`.
pub open spec fn first_entries(list: Seq<SizedEntry>, limit: nat) -> Seq<SizedEntry> {
    if list.len() > limit {
        list.take(limit as int)
    } else {
        list
    }
}

/// This is the snapshot of what a scan has found.
pub open spec fn snapshot_of(
    r: Snapshot,
    roots: Vec<String>,
    scan: PartialScan,
    rules: CategoryRules,
    top_limit: nat,
    capacity: Option<u64>,
    stats: ScanStats,
    now: u64,
) -> bool {
    &&& r.version == SNAPSHOT_VERSION
    &&& r.scanned_at_unix == now
    &&& r.roots == roots
    &&& r.total_bytes == scan.total_bytes
    &&& r.total_allocated_bytes == scan.total_allocated_bytes
    &&& r.total_capacity_bytes == capacity
    &&& r.file_count == scan.file_count
    &&& r.folder_count == scan.folder_count
    &&& r.categories@ == sorted::<CategoryTotal, CategoryRank>(scan.categories.vals())
    &&& r.largest_files@ == sorted::<SizedEntry, FileRank>(scan.largest_files.entries())
    &&& r.largest_folders@ == first_entries(
        sorted::<SizedEntry, FolderRank>(scan.folder_sizes.vals()),
        top_limit,
    )
    &&& r.skipped@ == scan.skipped@
    &&& r.access_denied_count == scan.access_denied_count
    &&& r.category_rules_fingerprint matches Some(print) && print@ == rules.print()
    &&& r.category_rules_source matches Some(source) && source@ == rules.origin()
    &&& r.scan_stats == stats
}

/// The entries listed are no more than asked for, each category counts a file,
/// and where no total has reached its largest value, the categories add up to the
/// totals.
pub open spec fn snapshot_adds_up(r: Snapshot, file_limit: nat, folder_limit: nat) -> bool {
    &&& r.largest_files@.len() <= file_limit
    &&& r.largest_folders@.len() <= folder_limit
    &&& forall|i: int| 0 <= i < r.categories@.len() ==> (#[trigger] r.categories@[i]).files >= 1
    &&& r.total_bytes < u64::MAX && r.total_allocated_bytes < u64::MAX && r.file_count < u64::MAX
        ==> {
        &&& r.wf()
        &&& sum_of(r.categories@, bytes_in()) == r.total_bytes
        &&& sum_of(r.categories@, allocated_in()) == r.total_allocated_bytes
        &&& sum_of(r.categories@, files_in()) == r.file_count
    }
}

proof fn lemma_counting_sorted(categories: NameMap<CategoryTotal>)
    requires
        categories.wf(),
        counting(category_map(categories.map())),
    ensures
        ({
            let all = sorted::<CategoryTotal, CategoryRank>(categories.vals());
            forall|i: int| 0 <= i < all.len() ==> (#[trigger] all[i]).files >= 1
        }),
{
    broadcast use vstd::seq_lib::group_to_multiset_ensures;

    let vals = categories.vals();
    let all = sorted::<CategoryTotal, CategoryRank>(vals);
    lemma_sorted::<CategoryTotal, CategoryRank>(vals);
    assert forall|i: int| 0 <= i < vals.len() implies (#[trigger] all[i]).files >= 1 by {
        assert(all.to_multiset().contains(all[i]));
        let k = choose|k: int| 0 <= k < vals.len() && vals[k] == all[i];
        categories.lemma_at(k);
        assert(category_map(categories.map()).contains_key(categories.keys()[k]));
    }
}

/// The snapshot of what a scan has found, at the time `now`.
pub fn scan_paths_at(
    roots: Vec<String>,
    scan: PartialScan,
    category_rules: &CategoryRules,
    top_limit: usize,
    capacity: Option<u64>,
    scan_stats: ScanStats,
    now: u64,
) -> (r: Snapshot)
    requires
        scan.wf(),
    ensures
        snapshot_of(
            r,
            roots,
            scan,
            *category_rules,
            top_limit as nat,
            capacity,
            scan_stats,
            now,
        ),
        snapshot_adds_up(r, scan.largest_files.limit(), top_limit as nat),
{
    proof {
        lemma_sum_sorted::<CategoryTotal, CategoryRank>(scan.categories.vals(), bytes_in());
        lemma_sum_sorted::<CategoryTotal, CategoryRank>(scan.categories.vals(), allocated_in());
        lemma_sum_sorted::<CategoryTotal, CategoryRank>(scan.categories.vals(), files_in());
        lemma_sorted::<SizedEntry, FileRank>(scan.largest_files.entries());
        lemma_counting_sorted(scan.categories);
    }
    let categories = sort::<CategoryTotal, CategoryRank>(scan.categories.into_values());
    let mut largest_folders = sort::<SizedEntry, FolderRank>(scan.folder_sizes.into_values());
    if largest_folders.len() > top_limit {
        largest_folders.truncate(top_limit);
    }
    Snapshot {
        version: SNAPSHOT_VERSION,
        scanned_at_unix: now,
        roots,
        total_bytes: scan.total_bytes,
        total_allocated_bytes: scan.total_allocated_bytes,
        total_capacity_bytes: capacity,
        file_count: scan.file_count,
        folder_count: scan.folder_count,
        categories,
        largest_files: scan.largest_files.into_sorted_vec(),
        largest_folders,
        skipped: scan.skipped,
        access_denied_count: scan.access_denied_count,
        category_rules_fingerprint: Some(category_rules.fingerprint().to_owned()),
        category_rules_source: Some(category_rules.source().to_owned()),
        scan_stats,
    }
}

/// The snapshot of what a scan has found, as of now.
pub fn scan_paths(
    roots: Vec<String>,
    scan: PartialScan,
    category_rules: &CategoryRules,
    top_limit: usize,
    capacity: Option<u64>,
    scan_stats: ScanStats,
) -> (r: Result<Snapshot, CliError>)
    requires
        scan.wf(),
    ensures
        match r {
            Ok(snapshot) => {
                &&& read_from_clock(Ok(snapshot.scanned_at_unix))
                &&& snapshot_of(
                    snapshot,
                    roots,
                    scan,
                    *category_rules,
                    top_limit as nat,
                    capacity,
                    scan_stats,
                    snapshot.scanned_at_unix,
                )
                &&& snapshot_adds_up(snapshot, scan.largest_files.limit(), top_limit as nat)
            },
            Err(e) => read_from_clock(Err(e)) && clock_failed(e),
        },
{
    match current_unix() {
        Ok(now) => Ok(
            scan_paths_at(roots, scan, category_rules, top_limit, capacity, scan_stats, now),
        ),
        Err(e) => Err(e),
    }
}

} // verus!
