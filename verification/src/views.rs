//! The cached views as text.
use crate::audit::copy_first;
use crate::error::{refuse, CliError};
use crate::journal::{navigation_target_label, target_label};
use crate::numbers::{decimal, decimal_text};
use crate::order::{in_order, Order};
use crate::prune::NavigationTarget;
use crate::ratio::{format_percent, format_scope_percent, percent_text, scope_text};
use crate::scan::first_entries;
use crate::sizes::{human_size, size_text};
use crate::snapshot::{opt_text, CategoryTotal, FileRank, FolderRank, SizedEntry, Snapshot};
use crate::table::{
    bar_text, end_cut, label_width, middle_cut, opt_str, pad_left, pad_right, print_entries, row_line, row_views,
    table_lines, table_width, Row, RowView,
};
use crate::text::{begins, push_text, texts};
use vstd::prelude::*;

verus! {

// ---------------------------------------------------------------------------
// Rows
// ---------------------------------------------------------------------------

/// What the bar of an entry stands for: files by size, folders by what they
/// take on disk.
pub open spec fn usage_of(entry: SizedEntry, kind: NavigationTarget) -> u64 {
    match kind {
        NavigationTarget::File => entry.bytes,
        NavigationTarget::Folder => entry.allocated_bytes,
    }
}

/// What the last column of an entry says.
pub open spec fn detail_of(entry: SizedEntry, kind: NavigationTarget) -> Seq<char> {
    match kind {
        NavigationTarget::File => match opt_text(entry.category) {
            Some(name) => name,
            None => ""@,
        },
        NavigationTarget::Folder => match entry.files {
            Some(n) => decimal(n as nat) + " files"@,
            None => ""@,
        },
    }
}

/// The row of an entry.
pub open spec fn entry_row(entry: SizedEntry, kind: NavigationTarget) -> RowView {
    RowView {
        label: entry.path@,
        size_bytes: entry.bytes,
        allocated_bytes: entry.allocated_bytes,
        usage_bytes: usage_of(entry, kind),
        percent: None,
        detail: detail_of(entry, kind),
    }
}

/// The row of an entry with its rank; `at` counts from zero.
pub open spec fn numbered_row(at: nat, entry: SizedEntry, kind: NavigationTarget) -> RowView {
    let row = entry_row(entry, kind);
    RowView { label: decimal(at + 1) + ". "@ + row.label, ..row }
}

/// The rows of a list of entries.
pub open spec fn entry_rows(list: Seq<SizedEntry>, kind: NavigationTarget) -> Seq<RowView> {
    Seq::new(list.len(), |i: int| numbered_row(i as nat, list[i], kind))
}

/// What the longest bar of a list stands for.
pub open spec fn top_usage(list: Seq<SizedEntry>, kind: NavigationTarget) -> u64 {
    if list.len() == 0 {
        0
    } else {
        usage_of(list[0], kind)
    }
}

/// The table of a list of entries, at most `limit` of them.
pub open spec fn entries_table(
    list: Seq<SizedEntry>,
    kind: NavigationTarget,
    limit: nat,
    columns: Option<Seq<char>>,
) -> Seq<Seq<char>> {
    table_lines(
        entry_rows(first_entries(list, limit), kind),
        top_usage(list, kind),
        false,
        columns,
    )
}

/// What the bar of an entry stands for.
pub fn usage_bytes(entry: &SizedEntry, kind: NavigationTarget) -> (r: u64)
    ensures
        r == usage_of(*entry, kind),
{
    match kind {
        NavigationTarget::File => entry.bytes,
        NavigationTarget::Folder => entry.allocated_bytes,
    }
}

/// The row of an entry.
pub fn row_for_entry(entry: &SizedEntry, kind: NavigationTarget) -> (r: Row)
    ensures
        r@ == entry_row(*entry, kind),
{
    Row {
        label: entry.path.clone(),
        size_bytes: entry.bytes,
        allocated_bytes: entry.allocated_bytes,
        usage_bytes: usage_bytes(entry, kind),
        percent: None,
        detail: match kind {
            NavigationTarget::File => match &entry.category {
                Some(name) => name.clone(),
                None => "".to_owned(),
            },
            NavigationTarget::Folder => match entry.files {
                Some(n) => decimal_text(n).concat(" files"),
                None => "".to_owned(),
            },
        },
    }
}

/// Appends the table of a list of entries, at most `limit` of them.
pub fn print_entry_refs(
    out: &mut Vec<String>,
    entries: &Vec<SizedEntry>,
    kind: NavigationTarget,
    limit: usize,
    columns: Option<&str>,
)
    ensures
        texts(final(out)@) == texts(old(out)@) + entries_table(
            entries@,
            kind,
            limit as nat,
            opt_str(columns),
        ),
{
    let count: usize = if entries.len() < limit {
        entries.len()
    } else {
        limit
    };
    let ghost shown = first_entries(entries@, limit as nat);
    let mut rows: Vec<Row> = Vec::new();
    assert(row_views(rows@) =~= entry_rows(shown, kind).take(0));
    for i in 0..count
        invariant
            count == shown.len(),
            count <= entries@.len(),
            shown == first_entries(entries@, limit as nat),
            row_views(rows@) == entry_rows(shown, kind).take(i as int),
    {
        let entry = &entries[i];
        assert(shown[i as int] == *entry);
        let mut row = row_for_entry(entry, kind);
        row.label = decimal_text(i as u64 + 1).concat(". ").concat(row.label.as_str());
        assert(row@ == numbered_row(i as nat, *entry, kind));
        let ghost before = row_views(rows@);
        rows.push(row);
        assert(row_views(rows@) =~= before.push(row@));
        assert(entry_rows(shown, kind).take(i + 1) =~= before.push(entry_rows(shown, kind)[i as int]));
    }
    assert(entry_rows(shown, kind).take(count as int) =~= entry_rows(shown, kind));
    let most: u64 = if entries.len() == 0 {
        0
    } else {
        usage_bytes(&entries[0], kind)
    };
    print_entries(out, &rows, most, false, columns);
}

// ---------------------------------------------------------------------------
// Files and folders
// ---------------------------------------------------------------------------

/// The view of the largest files.
pub open spec fn files_view(snapshot: Snapshot, limit: nat, columns: Option<Seq<char>>) -> Seq<
    Seq<char>,
> {
    seq!["Files from unix "@ + decimal(snapshot.scanned_at_unix as nat)] + entries_table(
        snapshot.largest_files@,
        NavigationTarget::File,
        limit,
        columns,
    )
}

/// The view of the largest folders.
pub open spec fn folders_view(snapshot: Snapshot, limit: nat, columns: Option<Seq<char>>) -> Seq<
    Seq<char>,
> {
    seq!["Folders from unix "@ + decimal(snapshot.scanned_at_unix as nat)] + entries_table(
        snapshot.largest_folders@,
        NavigationTarget::Folder,
        limit,
        columns,
    )
}

/// The lines that show the largest files.
pub fn print_files(snapshot: &Snapshot, limit: usize, columns: Option<&str>) -> (r: Vec<String>)
    ensures
        texts(r@) == files_view(*snapshot, limit as nat, opt_str(columns)),
{
    let mut out: Vec<String> = Vec::new();
    push_text(
        &mut out,
        "Files from unix ".to_owned().concat(decimal_text(snapshot.scanned_at_unix).as_str()),
    );
    assert(texts(out@) =~= seq!["Files from unix "@ + decimal(snapshot.scanned_at_unix as nat)]);
    print_entry_refs(&mut out, &snapshot.largest_files, NavigationTarget::File, limit, columns);
    out
}

/// The lines that show the largest folders.
pub fn print_folders(snapshot: &Snapshot, limit: usize, columns: Option<&str>) -> (r: Vec<String>)
    ensures
        texts(r@) == folders_view(*snapshot, limit as nat, opt_str(columns)),
{
    let mut out: Vec<String> = Vec::new();
    push_text(
        &mut out,
        "Folders from unix ".to_owned().concat(decimal_text(snapshot.scanned_at_unix).as_str()),
    );
    assert(texts(out@) =~= seq!["Folders from unix "@ + decimal(snapshot.scanned_at_unix as nat)]);
    print_entry_refs(
        &mut out,
        &snapshot.largest_folders,
        NavigationTarget::Folder,
        limit,
        columns,
    );
    out
}

/// No view shows more rows than the limit, with a head and a title.
pub proof fn law_views_respect_the_limit(
    snapshot: Snapshot,
    limit: nat,
    columns: Option<Seq<char>>,
)
    requires
        limit >= 1,
    ensures
        files_view(snapshot, limit, columns).len() <= limit + 2,
        folders_view(snapshot, limit, columns).len() <= limit + 2,
        summary_table(snapshot, limit, columns).len() <= limit + 1,
        first_entries(snapshot.largest_files@, limit).len() <= limit,
        first_entries(snapshot.largest_folders@, limit).len() <= limit,
        first_categories(snapshot.categories@, limit).len() <= limit,
{
}

/// A line begins with a label, cut where it is too long, and the two sizes.
pub open spec fn shows(
    line: Seq<char>,
    label: Seq<char>,
    bytes: u64,
    allocated: u64,
    width: int,
) -> bool {
    begins(
        line,
        pad_right(middle_cut(label, width), width) + " "@ + pad_left(size_text(bytes as nat), 10)
            + "  "@ + pad_left(size_text(allocated as nat), 10),
    )
}

proof fn lemma_row_shows(row: RowView, most: u64, show_percent: bool, width: int)
    ensures
        shows(
            row_line(row, most, show_percent, width),
            row.label,
            row.size_bytes,
            row.allocated_bytes,
            width,
        ),
{
    let line = row_line(row, most, show_percent, width);
    let head = pad_right(middle_cut(row.label, width), width) + " "@ + pad_left(
        size_text(row.size_bytes as nat),
        10,
    ) + "  "@ + pad_left(size_text(row.allocated_bytes as nat), 10);
    assert(line.subrange(0, head.len() as int) =~= head);
}

/// What the lines of a table of entries show.
pub proof fn lemma_entry_lines(
    list: Seq<SizedEntry>,
    kind: NavigationTarget,
    limit: nat,
    columns: Option<Seq<char>>,
    n: int,
)
    requires
        1 <= n <= list.len(),
        n <= limit,
    ensures
        ({
            let lines = entries_table(list, kind, limit, columns);
            let entry = list[n - 1];
            &&& lines.len() == 1 + vstd::math::min(list.len() as int, limit as int)
            &&& shows(
                lines[n],
                decimal(n as nat) + ". "@ + entry.path@,
                entry.bytes,
                entry.allocated_bytes,
                label_width(table_width(columns), false),
            )
        }),
{
    let width = label_width(table_width(columns), false);
    let shown = first_entries(list, limit);
    let rows = entry_rows(shown, kind);
    let most = top_usage(list, kind);
    lemma_row_shows(rows[n - 1], most, false, width);
    assert(shown[n - 1] == list[n - 1]);
    assert(entries_table(list, kind, limit, columns)[n] == row_line(rows[n - 1], most, false, width));
}

/// Row `n` of the views of files and folders shows the entry of rank `n` in the
/// cached list, the one that is opened by that number: its label is the rank, a
/// dot and the path, behind it stand its size and its size on disk. There is a
/// row for each entry up to the limit. The lists being in order, files never get
/// larger from row to row, nor do folders by what they take on disk.
pub proof fn law_rows_are_the_ranks(
    snapshot: Snapshot,
    limit: nat,
    columns: Option<Seq<char>>,
    n: int,
    m: int,
)
    requires
        1 <= n <= m <= limit,
    ensures
        ({
            let list = snapshot.largest_files@;
            let lines = files_view(snapshot, limit, columns);
            let width = label_width(table_width(columns), false);
            m <= list.len() ==> {
                &&& lines.len() == 2 + vstd::math::min(list.len() as int, limit as int)
                &&& shows(
                    lines[n + 1],
                    decimal(n as nat) + ". "@ + list[n - 1].path@,
                    list[n - 1].bytes,
                    list[n - 1].allocated_bytes,
                    width,
                )
                &&& in_order::<SizedEntry, FileRank>(list) ==> list[n - 1].bytes >= list[m
                    - 1].bytes
            }
        }),
        ({
            let list = snapshot.largest_folders@;
            let lines = folders_view(snapshot, limit, columns);
            let width = label_width(table_width(columns), false);
            m <= list.len() ==> {
                &&& lines.len() == 2 + vstd::math::min(list.len() as int, limit as int)
                &&& shows(
                    lines[n + 1],
                    decimal(n as nat) + ". "@ + list[n - 1].path@,
                    list[n - 1].bytes,
                    list[n - 1].allocated_bytes,
                    width,
                )
                &&& in_order::<SizedEntry, FolderRank>(list) ==> list[n - 1].allocated_bytes
                    >= list[m - 1].allocated_bytes
            }
        }),
{
    let files = snapshot.largest_files@;
    let folders = snapshot.largest_folders@;
    if m <= files.len() {
        lemma_entry_lines(files, NavigationTarget::File, limit, columns, n);
        if in_order::<SizedEntry, FileRank>(files) {
            assert(FileRank::le(files[n - 1], files[m - 1]));
        }
    }
    if m <= folders.len() {
        lemma_entry_lines(folders, NavigationTarget::Folder, limit, columns, n);
        if in_order::<SizedEntry, FolderRank>(folders) {
            assert(FolderRank::le(folders[n - 1], folders[m - 1]));
        }
    }
}

/// Behind the sizes a row shows a bar, as long as the share that the entry takes of
/// the first one, files by size and folders by what they take on disk, and behind
/// it the category of a file or the number of files in a folder.
pub proof fn law_rows_show_their_share(
    snapshot: Snapshot,
    limit: nat,
    columns: Option<Seq<char>>,
    n: int,
)
    requires
        1 <= n <= limit,
    ensures
        n <= snapshot.largest_files@.len() ==> {
            let list = snapshot.largest_files@;
            let line = files_view(snapshot, limit, columns)[n + 1];
            let tail = "  "@ + pad_right(bar_text(list[n - 1].bytes, list[0].bytes), 24) + "  "@
                + pad_right(
                end_cut(
                    match list[n - 1].category {
                        Some(name) => name@,
                        None => ""@,
                    },
                    18,
                ),
                18,
            );
            line.len() >= tail.len() && line.skip(line.len() - tail.len()) == tail
        },
        n <= snapshot.largest_folders@.len() ==> {
            let list = snapshot.largest_folders@;
            let line = folders_view(snapshot, limit, columns)[n + 1];
            let tail = "  "@ + pad_right(
                bar_text(list[n - 1].allocated_bytes, list[0].allocated_bytes),
                24,
            ) + "  "@ + pad_right(
                end_cut(
                    match list[n - 1].files {
                        Some(count) => decimal(count as nat) + " files"@,
                        None => ""@,
                    },
                    18,
                ),
                18,
            );
            line.len() >= tail.len() && line.skip(line.len() - tail.len()) == tail
        },
{
    let width = label_width(table_width(columns), false);
    if n <= snapshot.largest_files@.len() {
        let list = snapshot.largest_files@;
        let rows = entry_rows(first_entries(list, limit), NavigationTarget::File);
        let most = top_usage(list, NavigationTarget::File);
        assert(first_entries(list, limit)[n - 1] == list[n - 1]);
        let line = files_view(snapshot, limit, columns)[n + 1];
        assert(line == row_line(rows[n - 1], most, false, width));
        lemma_row_tail(rows[n - 1], most, width);
    }
    if n <= snapshot.largest_folders@.len() {
        let list = snapshot.largest_folders@;
        let rows = entry_rows(first_entries(list, limit), NavigationTarget::Folder);
        let most = top_usage(list, NavigationTarget::Folder);
        assert(first_entries(list, limit)[n - 1] == list[n - 1]);
        let line = folders_view(snapshot, limit, columns)[n + 1];
        assert(line == row_line(rows[n - 1], most, false, width));
        lemma_row_tail(rows[n - 1], most, width);
    }
}

proof fn lemma_row_tail(row: RowView, most: u64, width: int)
    ensures
        ({
            let line = row_line(row, most, false, width);
            let tail = "  "@ + pad_right(bar_text(row.usage_bytes, most), 24) + "  "@ + pad_right(
                end_cut(row.detail, 18),
                18,
            );
            line.len() >= tail.len() && line.skip(line.len() - tail.len()) == tail
        }),
{
    let line = row_line(row, most, false, width);
    let bar = pad_right(bar_text(row.usage_bytes, most), 24);
    let detail = pad_right(end_cut(row.detail, 18), 18);
    let head = pad_right(middle_cut(row.label, width), width) + " "@ + pad_left(
        size_text(row.size_bytes as nat),
        10,
    ) + "  "@ + pad_left(size_text(row.allocated_bytes as nat), 10);
    let tail = "  "@ + bar + "  "@ + detail;
    assert(line =~= head + tail);
    assert((head + tail).skip(head.len() as int) =~= tail);
}

/// Row `n` of the summary shows the category of rank `n`: its name, its size and
/// its size on disk. The choices of the browser are numbered in the same way.
pub proof fn law_summary_rows_are_the_categories(
    snapshot: Snapshot,
    limit: nat,
    columns: Option<Seq<char>>,
    n: int,
)
    requires
        1 <= n <= limit,
    ensures
        ({
            let list = snapshot.categories@;
            let lines = summary_table(snapshot, limit, columns);
            let choices = category_choices(snapshot, limit);
            n <= list.len() ==> {
                &&& lines.len() == 1 + vstd::math::min(list.len() as int, limit as int)
                &&& shows(
                    lines[n],
                    list[n - 1].name@,
                    list[n - 1].bytes,
                    list[n - 1].allocated_bytes,
                    label_width(table_width(columns), true),
                )
                &&& choices.len() == lines.len()
                &&& choices[n] == "  "@ + decimal(n as nat) + ". "@ + list[n - 1].name@ + " ("@
                    + size_text(list[n - 1].allocated_bytes as nat) + ")"@
            }
        }),
        ({
            let list = snapshot.largest_folders@;
            let choices = folder_choices(snapshot, limit);
            n <= list.len() ==> {
                &&& choices.len() == 1 + vstd::math::min(list.len() as int, limit as int)
                &&& choices[n] == "  "@ + decimal(n as nat) + ". "@ + list[n - 1].path@ + " ("@
                    + size_text(list[n - 1].allocated_bytes as nat) + ")"@
            }
        }),
{
    let list = snapshot.categories@;
    let width = label_width(table_width(columns), true);
    if n <= list.len() {
        let shown = first_categories(list, limit);
        let rows = category_rows(shown, snapshot.total_capacity_bytes);
        lemma_row_shows(rows[n - 1], snapshot.total_allocated_bytes, true, width);
        assert(shown[n - 1] == list[n - 1]);
        assert(summary_table(snapshot, limit, columns)[n] == row_line(
            rows[n - 1],
            snapshot.total_allocated_bytes,
            true,
            width,
        ));
    }
}

// ---------------------------------------------------------------------------
// Summary
// ---------------------------------------------------------------------------

/// The first categories, at most `limit`.
pub open spec fn first_categories(list: Seq<CategoryTotal>, limit: nat) -> Seq<CategoryTotal> {
    if list.len() > limit {
        list.take(limit as int)
    } else {
        list
    }
}

/// Copies the first categories, at most `limit`.
pub fn copy_categories(list: &Vec<CategoryTotal>, limit: usize) -> (r: Vec<CategoryTotal>)
    ensures
        r@ == first_categories(list@, limit as nat),
{
    let count: usize = if list.len() < limit {
        list.len()
    } else {
        limit
    };
    let mut out: Vec<CategoryTotal> = Vec::new();
    for i in 0..count
        invariant
            count <= list@.len(),
            out@ == list@.take(i as int),
    {
        out.push(list[i].clone());
    }
    assert(list@.take(list@.len() as int) == list@);
    out
}

/// The row of a category.
pub open spec fn category_row(category: CategoryTotal, capacity: Option<u64>) -> RowView {
    RowView {
        label: category.name@,
        size_bytes: category.bytes,
        allocated_bytes: category.allocated_bytes,
        usage_bytes: category.allocated_bytes,
        percent: percent_text(category.allocated_bytes, capacity),
        detail: decimal(category.files as nat) + " files"@,
    }
}

/// The rows of categories.
pub open spec fn category_rows(list: Seq<CategoryTotal>, capacity: Option<u64>) -> Seq<RowView> {
    list.map_values(|c: CategoryTotal| category_row(c, capacity))
}

/// The table of the summary.
pub open spec fn summary_table(snapshot: Snapshot, limit: nat, columns: Option<Seq<char>>) -> Seq<
    Seq<char>,
> {
    table_lines(
        category_rows(
            first_categories(snapshot.categories@, limit),
            snapshot.total_capacity_bytes,
        ),
        snapshot.total_allocated_bytes,
        true,
        columns,
    )
}

/// The head of the summary.
pub open spec fn summary_head(snapshot: Snapshot) -> Seq<Seq<char>> {
    let totals = seq![
        "Storage summary from unix "@ + decimal(snapshot.scanned_at_unix as nat),
        "Total on disk: "@ + size_text(snapshot.total_allocated_bytes as nat) + " across "@
            + decimal(snapshot.file_count as nat) + " files"@,
    ];
    let logical = if snapshot.total_allocated_bytes != snapshot.total_bytes {
        totals.push("Logical size: "@ + size_text(snapshot.total_bytes as nat))
    } else {
        totals
    };
    logical.push(
        "Scanned scope: "@ + scope_text(
            snapshot.total_allocated_bytes,
            snapshot.total_capacity_bytes,
        ),
    )
}

/// The lines that show the summary.
pub fn print_summary(snapshot: &Snapshot, limit: usize, columns: Option<&str>) -> (r: Vec<String>)
    ensures
        texts(r@) == summary_head(*snapshot) + summary_table(
            *snapshot,
            limit as nat,
            opt_str(columns),
        ),
{
    let mut out: Vec<String> = Vec::new();
    push_text(
        &mut out,
        "Storage summary from unix ".to_owned().concat(
            decimal_text(snapshot.scanned_at_unix).as_str(),
        ),
    );
    push_text(
        &mut out,
        "Total on disk: ".to_owned().concat(
            human_size(snapshot.total_allocated_bytes).as_str(),
        ).concat(" across ").concat(decimal_text(snapshot.file_count).as_str()).concat(" files"),
    );
    if snapshot.total_allocated_bytes != snapshot.total_bytes {
        push_text(
            &mut out,
            "Logical size: ".to_owned().concat(human_size(snapshot.total_bytes).as_str()),
        );
    }
    push_text(
        &mut out,
        "Scanned scope: ".to_owned().concat(
            format_scope_percent(
                snapshot.total_allocated_bytes,
                snapshot.total_capacity_bytes,
            ).as_str(),
        ),
    );
    assert(texts(out@) =~= summary_head(*snapshot));
    let shown = copy_categories(&snapshot.categories, limit);
    let ghost goal = category_rows(shown@, snapshot.total_capacity_bytes);
    let mut rows: Vec<Row> = Vec::new();
    assert(row_views(rows@) =~= goal.take(0));
    for i in 0..shown.len()
        invariant
            goal == category_rows(shown@, snapshot.total_capacity_bytes),
            row_views(rows@) == goal.take(i as int),
    {
        let category = &shown[i];
        let row = Row {
            label: category.name.clone(),
            size_bytes: category.bytes,
            allocated_bytes: category.allocated_bytes,
            usage_bytes: category.allocated_bytes,
            percent: format_percent(category.allocated_bytes, snapshot.total_capacity_bytes),
            detail: decimal_text(category.files).concat(" files"),
        };
        assert(row@ == goal[i as int]);
        let ghost before = row_views(rows@);
        rows.push(row);
        assert(row_views(rows@) =~= before.push(row@));
        assert(goal.take(i + 1) =~= before.push(goal[i as int]));
    }
    assert(goal.take(goal.len() as int) =~= goal);
    print_entries(&mut out, &rows, snapshot.total_allocated_bytes, true, columns);
    out
}

// ---------------------------------------------------------------------------
// Browsing
// ---------------------------------------------------------------------------

/// The main menu of the browser.
pub open spec fn main_menu(snapshot: Snapshot) -> Seq<Seq<char>> {
    seq![
        "Cached browse from unix "@ + decimal(snapshot.scanned_at_unix as nat),
        "This view uses cached top-N files and folders only, not a full file inventory."@,
        "1. Files"@,
        "2. Folders"@,
        "3. Summary categories"@,
    ]
}

/// The lines of the main menu.
pub fn main_menu_lines(snapshot: &Snapshot) -> (r: Vec<String>)
    ensures
        texts(r@) == main_menu(*snapshot),
{
    let mut out: Vec<String> = Vec::new();
    push_text(
        &mut out,
        "Cached browse from unix ".to_owned().concat(
            decimal_text(snapshot.scanned_at_unix).as_str(),
        ),
    );
    push_text(
        &mut out,
        "This view uses cached top-N files and folders only, not a full file inventory.".to_owned(),
    );
    push_text(&mut out, "1. Files".to_owned());
    push_text(&mut out, "2. Folders".to_owned());
    push_text(&mut out, "3. Summary categories".to_owned());
    assert(texts(out@) =~= main_menu(*snapshot));
    out
}

/// The lines that open the browser, which is not for machines.
pub fn print_browse(snapshot: &Snapshot, json: bool) -> (r: Result<Vec<String>, CliError>)
    ensures
        if json {
            r matches Err(e) && e.says(
                "browse is interactive and does not support --json; use summary, files, or folders"@,
            )
        } else {
            r matches Ok(lines) && texts(lines@) == main_menu(*snapshot)
        },
{
    if json {
        return Err(
            refuse(
                "browse is interactive and does not support --json; use summary, files, or folders",
            ),
        );
    }
    Ok(main_menu_lines(snapshot))
}

/// A numbered choice; `at` counts from zero.
pub open spec fn choice_line(at: nat, name: Seq<char>, bytes: u64) -> Seq<char> {
    "  "@ + decimal(at + 1) + ". "@ + name + " ("@ + size_text(bytes as nat) + ")"@
}

/// The folders to choose from.
pub open spec fn folder_choices(snapshot: Snapshot, limit: nat) -> Seq<Seq<char>> {
    let shown = first_entries(snapshot.largest_folders@, limit);
    seq!["Folder choices:"@] + Seq::new(
        shown.len(),
        |i: int| choice_line(i as nat, shown[i].path@, shown[i].allocated_bytes),
    )
}

/// The categories to choose from.
pub open spec fn category_choices(snapshot: Snapshot, limit: nat) -> Seq<Seq<char>> {
    let shown = first_categories(snapshot.categories@, limit);
    seq!["Category choices:"@] + Seq::new(
        shown.len(),
        |i: int| choice_line(i as nat, shown[i].name@, shown[i].allocated_bytes),
    )
}

fn choice_of_line(at: usize, name: &str, bytes: u64) -> (r: String)
    requires
        at < u64::MAX,
    ensures
        r@ == choice_line(at as nat, name@, bytes),
{
    "  ".to_owned().concat(decimal_text(at as u64 + 1).as_str()).concat(". ").concat(name).concat(
        " (",
    ).concat(human_size(bytes).as_str()).concat(")")
}

/// The lines that list the folders to choose from.
pub fn folder_choice_lines(snapshot: &Snapshot, limit: usize) -> (r: Vec<String>)
    ensures
        texts(r@) == folder_choices(*snapshot, limit as nat),
{
    let shown = copy_first(&snapshot.largest_folders, limit);
    let ghost goal = folder_choices(*snapshot, limit as nat);
    let mut out: Vec<String> = Vec::new();
    push_text(&mut out, "Folder choices:".to_owned());
    assert(texts(out@) =~= goal.take(1));
    for i in 0..shown.len()
        invariant
            shown@ == first_entries(snapshot.largest_folders@, limit as nat),
            goal == folder_choices(*snapshot, limit as nat),
            texts(out@) == goal.take(i + 1),
    {
        let line = choice_of_line(i, shown[i].path.as_str(), shown[i].allocated_bytes);
        assert(line@ == goal[i + 1]);
        push_text(&mut out, line);
        assert(texts(out@) =~= goal.take(i + 2));
    }
    assert(goal.take(goal.len() as int) =~= goal);
    out
}

/// The lines that list the categories to choose from.
pub fn category_choice_lines(snapshot: &Snapshot, limit: usize) -> (r: Vec<String>)
    ensures
        texts(r@) == category_choices(*snapshot, limit as nat),
{
    let shown = copy_categories(&snapshot.categories, limit);
    let ghost goal = category_choices(*snapshot, limit as nat);
    let mut out: Vec<String> = Vec::new();
    push_text(&mut out, "Category choices:".to_owned());
    assert(texts(out@) =~= goal.take(1));
    for i in 0..shown.len()
        invariant
            shown@ == first_categories(snapshot.categories@, limit as nat),
            goal == category_choices(*snapshot, limit as nat),
            texts(out@) == goal.take(i + 1),
    {
        let line = choice_of_line(i, shown[i].name.as_str(), shown[i].allocated_bytes);
        assert(line@ == goal[i + 1]);
        push_text(&mut out, line);
        assert(texts(out@) =~= goal.take(i + 2));
    }
    assert(goal.take(goal.len() as int) =~= goal);
    out
}

/// The word for a truth value.
pub open spec fn truth(b: bool) -> Seq<char> {
    if b {
        "true"@
    } else {
        "false"@
    }
}

/// The details of an entry; `found` says whether it is there as what it was.
pub open spec fn entry_details(entry: SizedEntry, kind: NavigationTarget, found: bool) -> Seq<
    Seq<char>,
> {
    seq![
        "Entry details"@,
        "  type: "@ + target_label(kind),
        "  path: "@ + entry.path@,
        "  size: "@ + size_text(entry.bytes as nat),
        "  on disk: "@ + size_text(entry.allocated_bytes as nat),
        match kind {
            NavigationTarget::File => "  category: "@ + match opt_text(entry.category) {
                Some(name) => name,
                None => "unknown"@,
            },
            NavigationTarget::Folder => "  files: "@ + match entry.files {
                Some(n) => decimal(n as nat),
                None => "unknown"@,
            },
        },
        "  exists: "@ + truth(found),
    ]
}

/// The lines that show the details of an entry.
pub fn print_entry_details(entry: &SizedEntry, kind: NavigationTarget, found: bool) -> (r: Vec<
    String,
>)
    ensures
        texts(r@) == entry_details(*entry, kind, found),
{
    let mut out: Vec<String> = Vec::new();
    push_text(&mut out, "Entry details".to_owned());
    push_text(&mut out, "  type: ".to_owned().concat(navigation_target_label(kind)));
    push_text(&mut out, "  path: ".to_owned().concat(entry.path.as_str()));
    push_text(&mut out, "  size: ".to_owned().concat(human_size(entry.bytes).as_str()));
    push_text(&mut out, "  on disk: ".to_owned().concat(human_size(entry.allocated_bytes).as_str()));
    match kind {
        NavigationTarget::File => {
            let name = match &entry.category {
                Some(name) => name.clone(),
                None => "unknown".to_owned(),
            };
            push_text(&mut out, "  category: ".to_owned().concat(name.as_str()));
        },
        NavigationTarget::Folder => {
            let count = match entry.files {
                Some(n) => decimal_text(n),
                None => "unknown".to_owned(),
            };
            push_text(&mut out, "  files: ".to_owned().concat(count.as_str()));
        },
    }
    let word = if found {
        "true"
    } else {
        "false"
    };
    push_text(&mut out, "  exists: ".to_owned().concat(word));
    assert(texts(out@) =~= entry_details(*entry, kind, found));
    out
}

} // verus!
