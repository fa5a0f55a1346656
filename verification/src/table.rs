//! Tables with bars, as wide as the terminal.
use crate::numbers::parse_usize;
use crate::cli::word_number;
use crate::ratio::{filled, filled_cells};
use crate::sizes::{human_size, size_text};
use crate::snapshot::opt_text;
use crate::text::{from_chars, push_text, texts, to_chars};
use crate::paths::slice_of;
use vstd::prelude::*;

verus! {

// ---------------------------------------------------------------------------
// Cells
// ---------------------------------------------------------------------------

/// A character so many times.
pub open spec fn repeated_char(c: char, n: int) -> Seq<char> {
    Seq::new(
        if n > 0 {
            n as nat
        } else {
            0
        },
        |i: int| c,
    )
}

/// The text with spaces behind it, at least `width` long.
pub open spec fn pad_right(s: Seq<char>, width: int) -> Seq<char> {
    s + repeated_char(' ', width - s.len())
}

/// The text with spaces before it, at least `width` long.
pub open spec fn pad_left(s: Seq<char>, width: int) -> Seq<char> {
    repeated_char(' ', width - s.len()) + s
}

/// The text, dots in its middle where it is longer than `most`.
pub open spec fn middle_cut(s: Seq<char>, most: int) -> Seq<char> {
    if s.len() <= most {
        s
    } else if most <= 3 {
        repeated_char('.', most)
    } else {
        let left = (most - 3) / 2;
        let right = most - 3 - left;
        s.take(left) + "..."@ + s.skip(s.len() - right)
    }
}

/// The text, dots at its end where it is longer than `most`.
pub open spec fn end_cut(s: Seq<char>, most: int) -> Seq<char> {
    if s.len() <= most {
        s
    } else if most <= 3 {
        repeated_char('.', most)
    } else {
        s.take(most - 3) + "..."@
    }
}

/// Appends a character so many times.
fn push_char(s: &mut String, c: char, n: usize)
    ensures
        final(s)@ == old(s)@ + repeated_char(c, n as int),
{
    let ghost start = s@;
    assert(s@ =~= start + repeated_char(c, 0));
    for i in 0..n
        invariant
            s@ == start + repeated_char(c, i as int),
    {
        s.push(c);
        assert(s@ =~= start + repeated_char(c, i + 1));
    }
}

fn push_padded(s: &mut String, cell: &str, width: usize)
    ensures
        final(s)@ == old(s)@ + pad_right(cell@, width as int),
{
    let ghost start = s@;
    let size: usize = to_chars(cell).len();
    s.append(cell);
    if size < width {
        push_char(s, ' ', width - size);
    }
    assert(s@ =~= start + pad_right(cell@, width as int));
}

fn push_aligned(s: &mut String, cell: &str, width: usize)
    ensures
        final(s)@ == old(s)@ + pad_left(cell@, width as int),
{
    let ghost start = s@;
    let size: usize = to_chars(cell).len();
    if size < width {
        push_char(s, ' ', width - size);
    }
    s.append(cell);
    assert(s@ =~= start + pad_left(cell@, width as int));
}

/// The text, dots in its middle where it is longer than `max_chars`.
pub fn truncate_middle(value: &str, max_chars: usize) -> (r: String)
    ensures
        r@ == middle_cut(value@, max_chars as int),
{
    let chars = to_chars(value);
    let size: usize = chars.len();
    if size <= max_chars {
        return value.to_owned();
    }
    let mut out = String::new();
    if max_chars <= 3 {
        push_char(&mut out, '.', max_chars);
        assert(out@ =~= repeated_char('.', max_chars as int));
        return out;
    }
    let keep: usize = max_chars - 3;
    let left: usize = keep / 2;
    let right: usize = keep - left;
    let head = slice_of(chars.as_slice(), 0, left);
    let tail = slice_of(chars.as_slice(), size - right, size);
    assert(head@ =~= value@.take(left as int));
    assert(tail@ =~= value@.skip(size - right));
    out = from_chars(head.as_slice());
    out.append("...");
    out.append(from_chars(tail.as_slice()).as_str());
    out
}

/// The text, dots at its end where it is longer than `max_chars`.
pub fn truncate_end(value: &str, max_chars: usize) -> (r: String)
    ensures
        r@ == end_cut(value@, max_chars as int),
{
    let chars = to_chars(value);
    if chars.len() <= max_chars {
        return value.to_owned();
    }
    let mut out = String::new();
    if max_chars <= 3 {
        push_char(&mut out, '.', max_chars);
        assert(out@ =~= repeated_char('.', max_chars as int));
        return out;
    }
    let head = slice_of(chars.as_slice(), 0, max_chars - 3);
    assert(head@ =~= value@.take(max_chars - 3));
    out = from_chars(head.as_slice());
    out.append("...");
    out
}

/// A text that was cut is as long as it may be.
pub proof fn law_cut_fits(s: Seq<char>, most: int)
    requires
        0 <= most,
    ensures
        middle_cut(s, most).len() <= most,
        end_cut(s, most).len() <= most,
        s.len() >= most ==> middle_cut(s, most).len() == most && end_cut(s, most).len() == most,
{
    reveal_strlit("...");
}

// ---------------------------------------------------------------------------
// Tables
// ---------------------------------------------------------------------------

/// A row of a table.
#[derive(Debug, PartialEq, Eq)]
pub struct Row {
    pub label: String,
    pub size_bytes: u64,
    pub allocated_bytes: u64,
    pub usage_bytes: u64,
    pub percent: Option<String>,
    pub detail: String,
}

/// What a row says.
pub struct RowView {
    pub label: Seq<char>,
    pub size_bytes: u64,
    pub allocated_bytes: u64,
    pub usage_bytes: u64,
    pub percent: Option<Seq<char>>,
    pub detail: Seq<char>,
}

impl View for Row {
    type V = RowView;

    open spec fn view(&self) -> RowView {
        RowView {
            label: self.label@,
            size_bytes: self.size_bytes,
            allocated_bytes: self.allocated_bytes,
            usage_bytes: self.usage_bytes,
            percent: opt_text(self.percent),
            detail: self.detail@,
        }
    }
}

/// What rows say.
pub open spec fn row_views(rows: Seq<Row>) -> Seq<RowView> {
    rows.map_values(|r: Row| r@)
}

/// The width of a table: as many columns as there are, at least eighty, a
/// hundred where their number is unknown.
pub open spec fn table_width(columns: Option<Seq<char>>) -> int {
    let known = match columns {
        Some(text) => match word_number(text) {
            Some(n) => n as int,
            None => 100,
        },
        None => 100,
    };
    if known < 80 {
        80
    } else {
        known
    }
}

/// The width of the first column.
pub open spec fn label_width(width: int, show_percent: bool) -> int {
    let fixed: int = if show_percent {
        82
    } else {
        72
    };
    if width - fixed < 24 {
        24
    } else {
        width - fixed
    }
}

/// A line of a table.
pub open spec fn table_line(
    label: Seq<char>,
    size: Seq<char>,
    allocated: Seq<char>,
    percent: Option<Seq<char>>,
    bar: Seq<char>,
    detail: Seq<char>,
    label_width: int,
) -> Seq<char> {
    pad_right(label, label_width) + " "@ + pad_left(size, 10) + "  "@ + pad_left(allocated, 10)
        + "  "@ + match percent {
        Some(p) => pad_left(p, 8) + "  "@,
        None => Seq::empty(),
    } + pad_right(bar, 24) + "  "@ + pad_right(detail, 18)
}

/// The bar of a share.
pub open spec fn bar_text(part: u64, whole: u64) -> Seq<char> {
    let n = filled(part, whole, 24);
    repeated_char('#', n as int) + repeated_char('-', 24 - n)
}

/// The line of a row.
pub open spec fn row_line(
    row: RowView,
    most: u64,
    show_percent: bool,
    label_width: int,
) -> Seq<char> {
    table_line(
        middle_cut(row.label, label_width),
        size_text(row.size_bytes as nat),
        size_text(row.allocated_bytes as nat),
        if show_percent {
            Some(
                match row.percent {
                    Some(p) => p,
                    None => "n/a"@,
                },
            )
        } else {
            None
        },
        bar_text(row.usage_bytes, most),
        end_cut(row.detail, 18),
        label_width,
    )
}

/// The head of a table.
pub open spec fn table_head(show_percent: bool, label_width: int) -> Seq<char> {
    table_line(
        "Name"@,
        "Size"@,
        "On Disk"@,
        if show_percent {
            Some("% Drive"@)
        } else {
            None
        },
        "Usage"@,
        "Details"@,
        label_width,
    )
}

/// A table.
pub open spec fn table_lines(
    rows: Seq<RowView>,
    most: u64,
    show_percent: bool,
    columns: Option<Seq<char>>,
) -> Seq<Seq<char>> {
    let width = label_width(table_width(columns), show_percent);
    if rows.len() == 0 {
        seq!["No cached entries."@]
    } else {
        seq![table_head(show_percent, width)] + rows.map_values(
            |r: RowView| row_line(r, most, show_percent, width),
        )
    }
}

/// The characters of an optional text.
pub open spec fn opt_str(text: Option<&str>) -> Option<Seq<char>> {
    match text {
        Some(t) => Some(t@),
        None => None,
    }
}

fn line_of(
    label: &str,
    size: &str,
    allocated: &str,
    percent: Option<&str>,
    bar: &str,
    detail: &str,
    label_width: usize,
) -> (r: String)
    ensures
        r@ == table_line(
            label@,
            size@,
            allocated@,
            opt_str(percent),
            bar@,
            detail@,
            label_width as int,
        ),
{
    let mut line = String::new();
    push_padded(&mut line, label, label_width);
    line.append(" ");
    push_aligned(&mut line, size, 10);
    line.append("  ");
    push_aligned(&mut line, allocated, 10);
    line.append("  ");
    if let Some(p) = percent {
        push_aligned(&mut line, p, 8);
        line.append("  ");
    }
    push_padded(&mut line, bar, 24);
    line.append("  ");
    push_padded(&mut line, detail, 18);
    assert(line@ =~= table_line(
        label@,
        size@,
        allocated@,
        opt_str(percent),
        bar@,
        detail@,
        label_width as int,
    ));
    line
}

fn width_of(columns: Option<&str>, show_percent: bool) -> (r: usize)
    ensures
        r == label_width(table_width(opt_str(columns)), show_percent),
{
    let known: usize = match columns {
        Some(text) => match parse_usize(text) {
            Some(n) => n,
            None => 100,
        },
        None => 100,
    };
    let width: usize = if known < 80 {
        80
    } else {
        known
    };
    let fixed: usize = if show_percent {
        82
    } else {
        72
    };
    if width < fixed || width - fixed < 24 {
        24
    } else {
        width - fixed
    }
}

fn bar_of(part: u64, whole: u64) -> (r: String)
    ensures
        r@ == bar_text(part, whole),
{
    let n: usize = filled_cells(part, whole, 24);
    let mut bar = String::new();
    push_char(&mut bar, '#', n);
    push_char(&mut bar, '-', 24 - n);
    assert(bar@ =~= bar_text(part, whole));
    bar
}

fn row_of(row: &Row, most: u64, show_percent: bool, label_width: usize) -> (r: String)
    ensures
        r@ == row_line(row@, most, show_percent, label_width as int),
{
    let percent: Option<&str> = if show_percent {
        match &row.percent {
            Some(p) => Some(p.as_str()),
            None => Some("n/a"),
        }
    } else {
        None
    };
    line_of(
        truncate_middle(row.label.as_str(), label_width).as_str(),
        human_size(row.size_bytes).as_str(),
        human_size(row.allocated_bytes).as_str(),
        percent,
        bar_of(row.usage_bytes, most).as_str(),
        truncate_end(row.detail.as_str(), 18).as_str(),
        label_width,
    )
}

/// Appends the lines of a table.
pub fn print_entries(
    out: &mut Vec<String>,
    rows: &Vec<Row>,
    max_bytes: u64,
    show_percent: bool,
    columns: Option<&str>,
)
    ensures
        texts(final(out)@) == texts(old(out)@) + table_lines(
            row_views(rows@),
            max_bytes,
            show_percent,
            opt_str(columns),
        ),
{
    let ghost start = texts(out@);
    let ghost goal = table_lines(row_views(rows@), max_bytes, show_percent, opt_str(columns));
    if rows.len() == 0 {
        push_text(out, "No cached entries.".to_owned());
        assert(texts(out@) =~= start + goal);
        return ;
    }
    let width = width_of(columns, show_percent);
    let heading: Option<&str> = if show_percent {
        Some("% Drive")
    } else {
        None
    };
    push_text(out, line_of("Name", "Size", "On Disk", heading, "Usage", "Details", width));
    assert(texts(out@) =~= start + goal.take(1));
    for i in 0..rows.len()
        invariant
            rows@.len() > 0,
            width == label_width(table_width(opt_str(columns)), show_percent),
            goal == table_lines(row_views(rows@), max_bytes, show_percent, opt_str(columns)),
            texts(out@) == start + goal.take(i + 1),
    {
        let line = row_of(&rows[i], max_bytes, show_percent, width);
        assert(row_views(rows@)[i as int] == rows@[i as int]@);
        assert(line@ == goal[i + 1]);
        push_text(out, line);
        assert(texts(out@) =~= start + goal.take(i + 2));
    }
    assert(goal.take(goal.len() as int) =~= goal);
}

} // verus!
