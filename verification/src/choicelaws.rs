//! What is typed and read, and what it chooses, stated of the calls that read it.
use crate::audit::{audit_folder_index, audit_key, folder_index};
use crate::browse::{
    detail_choice, main_choice, parse_detail_menu_choice, DetailChoice, MainChoice,
};
use crate::cli::Commands;
use crate::error::CliError;
use crate::journal::CacheUsageEventKind;
use crate::laws::lemma_decimal;
use crate::names::NameMap;
use crate::navigate::checked_one_based_index;
use crate::numbers::decimal;
use crate::paths::{join, PathStyle};
use crate::plan::{check_output, mismatch_choice, usage_event, MismatchChoice};
use crate::prune::{
    at_or_under, file_is_cached, folder_is_cached, law_pruned_is_gone,
    law_removed_file_leaves_the_totals, law_removed_folder_leaves_the_totals, one_path,
    prune_cached_file, prune_cached_folder, rest_of, NavigationTarget, PruneResult,
};
use crate::roots::compressed_size;
use crate::snapshot::{SizedEntry, Snapshot};
use crate::table::{label_width, opt_str, table_width};
use crate::text::{
    full_pieces, is_white, join_texts, law_same_up_to_case, lemma_pieces_nonempty, lines_of, lower,
    pieces, reads_as, split_words, texts, trim, trim_back, trim_front, trim_text, without_return,
    words, Kind, LineFeed, White,
};
use crate::views::{lemma_entry_lines, print_entry_refs, shows};
use crate::workspace::{cache_paths_for_workspace_at, Chosen, WorkspaceRegistry};
use vstd::prelude::*;

verus! {

// ---------------------------------------------------------------------------
// Lines and words
// ---------------------------------------------------------------------------

proof fn lemma_trimmed_front(s: Seq<char>, kind: spec_fn(char) -> bool) -> (k: int)
    ensures
        0 <= k <= s.len(),
        trim_front(s, kind) == s.skip(k),
        forall|i: int| 0 <= i < k ==> kind(#[trigger] s[i]),
        k < s.len() ==> !kind(s[k]),
    decreases s.len(),
{
    if s.len() > 0 && kind(s[0]) {
        let rest = s.drop_first();
        let k = lemma_trimmed_front(rest, kind);
        assert(rest.skip(k) =~= s.skip(k + 1));
        assert forall|i: int| 0 <= i < k + 1 implies kind(#[trigger] s[i]) by {
            if i > 0 {
                assert(rest[i - 1] == s[i]);
            }
        }
        k + 1
    } else {
        assert(s.skip(0) =~= s);
        0
    }
}

proof fn lemma_trimmed_back(s: Seq<char>, kind: spec_fn(char) -> bool) -> (k: int)
    ensures
        0 <= k <= s.len(),
        trim_back(s, kind) == s.take(k),
        forall|i: int| k <= i < s.len() ==> kind(#[trigger] s[i]),
        k > 0 ==> !kind(s[k - 1]),
    decreases s.len(),
{
    if s.len() > 0 && kind(s.last()) {
        let rest = s.drop_last();
        let k = lemma_trimmed_back(rest, kind);
        assert(rest.take(k) =~= s.take(k));
        assert forall|i: int| k <= i < s.len() implies kind(#[trigger] s[i]) by {
            if i < rest.len() {
                assert(rest[i] == s[i]);
            }
        }
        k
    } else {
        assert(s.take(s.len() as int) =~= s);
        s.len() as int
    }
}

/// The middle of a text between two places, with only white space around it and
/// none at its ends.
pub open spec fn is_core(s: Seq<char>, from: int, to: int) -> bool {
    &&& 0 <= from <= to <= s.len()
    &&& forall|i: int| 0 <= i < from ==> is_white(#[trigger] s[i])
    &&& forall|i: int| to <= i < s.len() ==> is_white(#[trigger] s[i])
    &&& from < to ==> !is_white(s[from]) && !is_white(s[to - 1])
}

/// Trimming takes the white space at both ends and nothing else.
pub proof fn law_trimming_takes_the_white_space(s: &str, r: String)
    requires
        call_ensures(trim_text, (s,), r),
    ensures
        exists|from: int, to: int| #[trigger]
            is_core(s@, from, to) && r@ == s@.subrange(from, to),
{
    let white = |c: char| is_white(c);
    let a = lemma_trimmed_front(s@, white);
    let rest = s@.skip(a);
    let b = lemma_trimmed_back(rest, white);
    assert(rest.take(b) =~= s@.subrange(a, a + b));
    assert forall|i: int| 0 <= i < a implies is_white(#[trigger] s@[i]) by {
        assert(white(s@[i]));
    }
    if b == 0 {
        assert forall|i: int| a <= i < s@.len() implies is_white(#[trigger] s@[i]) by {
            assert(white(rest[i - a]));
        }
        assert(is_core(s@, a, a));
    } else {
        assert forall|i: int| a + b <= i < s@.len() implies is_white(#[trigger] s@[i]) by {
            assert(white(rest[i - a]));
        }
        assert(rest[b - 1] == s@[a + b - 1]);
        assert(!white(s@[a]));
        assert(!white(rest[b - 1]));
        assert(is_core(s@, a, a + b));
    }
}

proof fn lemma_pieces_around(
    a: Seq<char>,
    c: char,
    b: Seq<char>,
    kind: spec_fn(char) -> bool,
)
    requires
        kind(c),
    ensures
        pieces(a.push(c) + b, kind) == pieces(a, kind) + pieces(b, kind),
    decreases b.len(),
{
    let s = a.push(c) + b;
    if b.len() == 0 {
        assert(s =~= a.push(c));
        assert(s.drop_last() =~= a);
        assert(pieces(s, kind) =~= pieces(a, kind) + pieces(b, kind));
    } else {
        let init = b.drop_last();
        lemma_pieces_around(a, c, init, kind);
        lemma_pieces_nonempty(init, kind);
        assert(s.drop_last() =~= a.push(c) + init);
        assert(s.last() == b.last());
        let before = pieces(a, kind) + pieces(init, kind);
        assert(before.last() == pieces(init, kind).last());
        assert(before.drop_last() =~= pieces(a, kind) + pieces(init, kind).drop_last());
        assert(pieces(s, kind) =~= pieces(a, kind) + pieces(b, kind));
    }
}

proof fn lemma_one_piece(a: Seq<char>, kind: spec_fn(char) -> bool)
    requires
        forall|i: int| 0 <= i < a.len() ==> !kind(#[trigger] a[i]),
    ensures
        pieces(a, kind) == seq![a],
    decreases a.len(),
{
    if a.len() > 0 {
        let init = a.drop_last();
        assert forall|i: int| 0 <= i < init.len() implies !kind(#[trigger] init[i]) by {
            assert(init[i] == a[i]);
        }
        lemma_one_piece(init, kind);
        assert(!kind(a[a.len() - 1]));
        assert(init.push(a.last()) =~= a);
        assert(pieces(a, kind) =~= seq![a]);
    } else {
        assert(a =~= Seq::empty());
    }
}

/// A text begins with the line before its first line feed, without a carriage
/// return at its end; the lines behind it are those of the rest.
pub proof fn law_lines_end_with_a_line_feed(
    whole: &str,
    head: Seq<char>,
    rest: &str,
    all: Vec<String>,
    others: Vec<String>,
)
    requires
        whole@ == head.push('\n') + rest@,
        forall|i: int| 0 <= i < head.len() ==> #[trigger] head[i] != '\n',
        call_ensures(lines_of, (whole,), all),
        call_ensures(lines_of, (rest,), others),
    ensures
        all@.len() == others@.len() + 1,
        forall|i: int| 0 <= i < others@.len() ==> (#[trigger] others@[i])@ == all@[i + 1]@,
        head.len() == 0 || head.last() != '\r' ==> all@[0]@ == head,
        head.len() > 0 && head.last() == '\r' ==> all@[0]@ == head.drop_last(),
{
    let feed = |c: char| LineFeed::of(c);
    lemma_pieces_around(head, '\n', rest@, feed);
    lemma_one_piece(head, feed);
    lemma_pieces_nonempty(rest@, feed);
    let tail = pieces(rest@, feed);
    let parts = pieces(whole@, feed);
    assert(parts == seq![head] + tail);
    assert(parts.last() == tail.last());
    let cut = |line: Seq<char>| without_return(line);
    assert(parts.drop_last() =~= seq![head] + tail.drop_last());
    assert(parts.drop_last().map_values(cut) =~= seq![without_return(head)]
        + tail.drop_last().map_values(cut));
    let a = texts(all@);
    let b = texts(others@);
    assert(a =~= seq![without_return(head)] + b);
    assert(a.len() == all@.len() && b.len() == others@.len());
    assert(a[0] == all@[0]@);
    assert forall|i: int| 0 <= i < others@.len() implies (#[trigger] others@[i])@ == all@[i
        + 1]@ by {
        assert(b[i] == others@[i]@);
        assert(a[i + 1] == all@[i + 1]@);
        assert((seq![without_return(head)] + b)[i + 1] == b[i]);
    }
}

proof fn lemma_full_pieces(a: Seq<Seq<char>>, b: Seq<Seq<char>>)
    ensures
        full_pieces(a + b) == full_pieces(a) + full_pieces(b),
    decreases b.len(),
{
    if b.len() == 0 {
        assert(a + b =~= a);
        assert(full_pieces(a) + full_pieces(b) =~= full_pieces(a));
    } else {
        lemma_full_pieces(a, b.drop_last());
        assert((a + b).drop_last() =~= a + b.drop_last());
        assert((a + b).last() == b.last());
        assert(full_pieces(a + b) =~= full_pieces(a) + full_pieces(b));
    }
}

proof fn lemma_words(a: Seq<char>, c: char, b: Seq<char>)
    ensures
        is_white(c) ==> words(a.push(c) + b) == words(a) + words(b),
        a.len() > 0 && (forall|i: int| 0 <= i < a.len() ==> !is_white(#[trigger] a[i])) ==> words(a)
            == seq![a],
{
    let white = |x: char| White::of(x);
    if is_white(c) {
        lemma_pieces_around(a, c, b, white);
        lemma_full_pieces(pieces(a, white), pieces(b, white));
    }
    if a.len() > 0 && (forall|i: int| 0 <= i < a.len() ==> !is_white(#[trigger] a[i])) {
        lemma_one_piece(a, white);
        let none = Seq::<Seq<char>>::empty();
        assert(seq![a].drop_last() =~= none);
        assert(full_pieces(none) =~= none);
        assert(full_pieces(seq![a]) =~= seq![a]);
    }
}

/// The words of a text are those before a white space and those behind it; a text
/// without white space is one word.
pub proof fn law_words_stand_between_white_space(
    whole: &str,
    head: &str,
    c: char,
    rest: &str,
    all: Vec<String>,
    first: Vec<String>,
    others: Vec<String>,
)
    requires
        whole@ == head@.push(c) + rest@,
        is_white(c),
        call_ensures(split_words, (whole,), all),
        call_ensures(split_words, (head,), first),
        call_ensures(split_words, (rest,), others),
    ensures
        texts(all@) == texts(first@) + texts(others@),
        head@.len() > 0 && (forall|i: int| 0 <= i < head@.len() ==> !is_white(#[trigger] head@[i]))
            ==> texts(first@) == seq![head@],
{
    lemma_words(head@, c, rest@);
}

/// Texts that are joined stand one behind the other, with the separator between
/// each two.
pub proof fn law_joined_texts(
    parts: &[String],
    longer: &[String],
    more: String,
    sep: &str,
    before: String,
    after: String,
)
    requires
        longer@ == parts@.push(more),
        call_ensures(join_texts, (parts, sep), before),
        call_ensures(join_texts, (longer, sep), after),
    ensures
        parts@.len() == 0 ==> before@.len() == 0 && after@ == more@,
        parts@.len() > 0 ==> after@ == before@ + sep@ + more@,
{
    let all = texts(longer@);
    assert(all.drop_last() =~= texts(parts@));
    assert(all.last() == more@);
    assert(all.len() == parts@.len() + 1);
}

// ---------------------------------------------------------------------------
// Choices
// ---------------------------------------------------------------------------

proof fn lemma_word(t: Seq<char>, word: Seq<char>)
    requires
        lower(word) == word,
    ensures
        lower(t) == word <==> reads_as(t, word),
{
    law_same_up_to_case(t, word);
}

/// From the main menu lead `1` or `files` to the files, `2` or `folders` to the
/// folders, `3` or `categories` to the categories, in any case and with white
/// space around them.
pub proof fn law_main_menu_words(line: &str, r: Result<MainChoice, CliError>)
    requires
        call_ensures(main_choice, (line,), r),
    ensures
        ({
            let t = trim(line@);
            &&& r == Ok::<MainChoice, CliError>(MainChoice::Files) <==> reads_as(t, "1"@)
                || reads_as(t, "files"@)
            &&& r == Ok::<MainChoice, CliError>(MainChoice::Folders) <==> reads_as(t, "2"@)
                || reads_as(t, "folders"@)
            &&& r == Ok::<MainChoice, CliError>(MainChoice::Categories) <==> reads_as(t, "3"@)
                || reads_as(t, "categories"@)
            &&& r == Ok::<MainChoice, CliError>(MainChoice::Leave) <==> t.len() == 0 || reads_as(
                t,
                "q"@,
            ) || reads_as(t, "quit"@) || reads_as(t, "exit"@)
        }),
{
    let t = trim(line@);
    reveal_strlit("1");
    reveal_strlit("2");
    reveal_strlit("3");
    reveal_strlit("q");
    reveal_strlit("");
    reveal_strlit("exit");
    reveal_strlit("quit");
    reveal_strlit("files");
    reveal_strlit("folders");
    reveal_strlit("categories");
    assert(lower("1"@) =~= "1"@);
    assert(lower("2"@) =~= "2"@);
    assert(lower("3"@) =~= "3"@);
    assert(lower("q"@) =~= "q"@);
    assert(lower("exit"@) =~= "exit"@);
    assert(lower("quit"@) =~= "quit"@);
    assert(lower("files"@) =~= "files"@);
    assert(lower("folders"@) =~= "folders"@);
    assert(lower("categories"@) =~= "categories"@);
    lemma_word(t, "1"@);
    lemma_word(t, "2"@);
    lemma_word(t, "3"@);
    lemma_word(t, "q"@);
    lemma_word(t, "exit"@);
    lemma_word(t, "quit"@);
    lemma_word(t, "files"@);
    lemma_word(t, "folders"@);
    lemma_word(t, "categories"@);
    assert(lower(t).len() == t.len());
    if t.len() == 0 {
        assert(lower(t) =~= ""@);
    }
    assert("1"@[0] == '1' && "2"@[0] == '2' && "3"@[0] == '3' && "q"@[0] == 'q');
    assert("quit"@[0] == 'q' && "exit"@[0] == 'e' && "files"@[0] == 'f');
}

/// Below the details of an entry `1` or `open` opens it.
pub proof fn law_open_opens(line: &str, r: Result<DetailChoice, CliError>)
    requires
        call_ensures(detail_choice, (line,), r),
    ensures
        r == Ok::<DetailChoice, CliError>(DetailChoice::Open) <==> reads_as(trim(line@), "1"@)
            || reads_as(trim(line@), "open"@),
{
    let t = trim(line@);
    reveal_strlit("1");
    reveal_strlit("open");
    assert(lower("1"@) =~= "1"@);
    assert(lower("open"@) =~= "open"@);
    lemma_word(t, "1"@);
    lemma_word(t, "open"@);
}

/// Below a list of entries a one and a number ask for the file of that rank, a
/// two and a number for the folder of that rank; where only one kind is listed,
/// the one asks for it.
pub proof fn law_kind_and_number_ask_for_an_entry(
    value: &str,
    kind: char,
    n: nat,
    files_empty: bool,
    folders_empty: bool,
    r: Result<Option<(NavigationTarget, Option<usize>)>, CliError>,
)
    requires
        call_ensures(parse_detail_menu_choice, (value, files_empty, folders_empty), r),
        value@ == seq![kind, ' '] + decimal(n),
        n <= usize::MAX,
        kind == '1' || kind == '2',
    ensures
        r is Ok,
        kind == '1' && !files_empty ==> r->Ok_0 == Some(
            (NavigationTarget::File, Some(n as usize)),
        ),
        kind == '1' && files_empty ==> r->Ok_0 == Some(
            (NavigationTarget::Folder, Some(n as usize)),
        ),
        kind == '2' && !files_empty && !folders_empty ==> r->Ok_0 == Some(
            (NavigationTarget::Folder, Some(n as usize)),
        ),
        kind == '2' && (files_empty || folders_empty) ==> r->Ok_0 is None,
{
    let number = decimal(n);
    lemma_decimal(n);
    reveal_strlit("1");
    reveal_strlit("2");
    let first = seq![kind];
    assert(value@ =~= first.push(' ') + number);
    lemma_words(first, ' ', number);
    assert forall|i: int| 0 <= i < number.len() implies !is_white(#[trigger] number[i]) by {
        assert(crate::numbers::is_digit(number[i]));
    }
    lemma_words(number, ' ', Seq::empty());
    let parts = words(value@);
    assert(parts =~= seq![first, number]);
    assert(first =~= if kind == '1' {
        "1"@
    } else {
        "2"@
    });
    assert("1"@[0] == '1' && "2"@[0] == '2');
    assert(crate::numbers::is_digit(number[0]));
}

/// A rank chooses the entry that many places down the list, and is refused where
/// there is none.
pub proof fn law_rank_counts_from_one(rank: usize, len: usize, label: &str, r: Result<usize, CliError>)
    requires
        call_ensures(checked_one_based_index, (rank, len, label), r),
    ensures
        r is Ok <==> 1 <= rank <= len,
        r is Ok ==> r->Ok_0 + 1 == rank,
{
}

/// The answer to the suggestion of another workspace: nothing cancels, the name
/// of a workspace that is there switches to it, another valid name makes one.
pub proof fn law_answer_names_a_workspace(
    registry: &WorkspaceRegistry,
    answer: &str,
    r: Result<MismatchChoice, CliError>,
)
    requires
        registry.wf(),
        call_ensures(mismatch_choice, (registry, answer), r),
    ensures
        trim(answer@).len() == 0 <==> r == Ok::<MismatchChoice, CliError>(MismatchChoice::Cancel),
        r matches Ok(MismatchChoice::Switch(n)) ==> n@ == trim(answer@)
            && registry.known().contains_key(n@),
        r matches Ok(MismatchChoice::Create(n)) ==> n@ == trim(answer@)
            && !registry.known().contains_key(n@) && crate::workspace::valid_name(n@),
        r is Err ==> !crate::workspace::valid_name(trim(answer@)),
{
}

/// JSON is refused to a command that opens a window or that changes the cache,
/// and to no other.
pub proof fn law_who_gives_json(command: &Commands, json: bool, r: Result<(), CliError>)
    requires
        call_ensures(check_output, (command, json), r),
    ensures
        r is Err <==> json && (command@ is Open || command@ is RestoreBase
            || command@ is FastForward),
{
}

/// The views are recorded as what they are, an opened entry as navigation, and
/// nothing else is recorded.
pub proof fn law_what_is_recorded(command: &Commands, r: Option<CacheUsageEventKind>)
    requires
        call_ensures(usage_event, (command,), r),
    ensures
        command@ is Summary <==> r == Some(CacheUsageEventKind::Summary),
        command@ is Files <==> r == Some(CacheUsageEventKind::Files),
        command@ is Folders <==> r == Some(CacheUsageEventKind::Folders),
        command@ is Browse <==> r == Some(CacheUsageEventKind::Browse),
        command@ is Open <==> r == Some(CacheUsageEventKind::CacheNavigation),
        r != Some(CacheUsageEventKind::ScanAutoSkip),
{
}

// ---------------------------------------------------------------------------
// What is read of the system and of the cache
// ---------------------------------------------------------------------------

/// A size that the system gives in two halves is put together from them; it is
/// missing only where the system reports an error.
pub proof fn law_size_from_its_halves(low: u32, high: u32, error: u32, r: Option<u64>)
    requires
        call_ensures(compressed_size, (low, high, error), r),
    ensures
        r is None <==> low == 0xffff_ffff && error != 0,
        r matches Some(size) ==> size / 0x1_0000_0000 == high && size % 0x1_0000_0000 == low,
{
    if r is Some {
        let size = high * 0x1_0000_0000 + low;
        assert(0 <= size <= u64::MAX);
        assert(r->0 == size);
    }
}

proof fn lemma_folder_index(folders: Seq<SizedEntry>, i: int)
    requires
        0 <= i < folders.len(),
        forall|k: int|
            i < k < folders.len() ==> audit_key((#[trigger] folders[k]).path@) != audit_key(
                folders[i].path@,
            ),
    ensures
        folder_index(folders).contains_key(audit_key(folders[i].path@)),
        folder_index(folders)[audit_key(folders[i].path@)] == folders[i].bytes,
    decreases folders.len(),
{
    if i < folders.len() - 1 {
        let init = folders.drop_last();
        assert forall|k: int| i < k < init.len() implies audit_key((#[trigger] init[k]).path@)
            != audit_key(init[i].path@) by {
            assert(init[k] == folders[k]);
        }
        lemma_folder_index(init, i);
        assert(audit_key(folders[folders.len() - 1].path@) != audit_key(folders[i].path@));
    }
}

/// An audit finds the bytes of a folder by its path, those of the last entry
/// where several stand for one folder.
pub proof fn law_folders_are_found_by_path(snapshot: &Snapshot, i: int, r: NameMap<u64>)
    requires
        call_ensures(audit_folder_index, (snapshot,), r),
        0 <= i < snapshot.largest_folders@.len(),
        forall|k: int|
            i < k < snapshot.largest_folders@.len() ==> audit_key(
                (#[trigger] snapshot.largest_folders@[k]).path@,
            ) != audit_key(snapshot.largest_folders@[i].path@),
    ensures
        r.map().contains_key(audit_key(snapshot.largest_folders@[i].path@)),
        r.map()[audit_key(snapshot.largest_folders@[i].path@)]
            == snapshot.largest_folders@[i].bytes,
{
    lemma_folder_index(snapshot.largest_folders@, i);
}

/// A workspace that is asked for by a name that is known keeps its files in the
/// folder of that name; the registry stays as it is. A name that is not known
/// is refused.
pub proof fn law_asked_workspace_has_its_files(
    style: PathStyle,
    app_dir: &str,
    registry: &mut WorkspaceRegistry,
    name: &str,
    now: Result<u64, CliError>,
    r: Result<Chosen, CliError>,
)
    requires
        old(registry).wf(),
        call_ensures(
            cache_paths_for_workspace_at,
            (style, app_dir, registry, Some(name), now),
            r,
        ),
    ensures
        *final(registry) == *old(registry),
        r is Ok ==> old(registry).known().contains_key(name@),
        old(registry).known().contains_key(name@) && crate::workspace::valid_name(name@)
            ==> r is Ok,
        r matches Ok(chosen) ==> {
            let base = join(style, join(style, app_dir@, "workspaces"@), name@);
            &&& chosen.paths.base_dir@ == base
            &&& chosen.paths.snapshot_path@ == join(style, base, "snapshot.json"@)
            &&& chosen.paths.base_snapshot_path@ == join(style, base, "base-snapshot.json"@)
            &&& chosen.paths.cleanup_journal_path@ == join(style, base, "cleanup-journal.jsonl"@)
            &&& chosen.paths.cache_usage_journal_path@ == join(
                style,
                base,
                "cache-usage-journal.jsonl"@,
            )
            &&& !chosen.changed
        },
{
}

// ---------------------------------------------------------------------------
// Removing and showing entries
// ---------------------------------------------------------------------------

/// A cached file that is taken out takes its bytes, its bytes on disk and one
/// file off the totals, and leaves no entry of its path; what is not cached
/// takes nothing.
pub proof fn law_file_is_taken_out(
    snapshot: &mut Snapshot,
    file: &SizedEntry,
    r: PruneResult,
)
    requires
        old(snapshot).wf(),
        call_ensures(prune_cached_file, (snapshot, file), r),
    ensures
        file_is_cached(old(snapshot).cache(), file.path@) ==> {
            &&& final(snapshot).total_bytes == rest_of(old(snapshot).total_bytes, file.bytes as int)
            &&& final(snapshot).total_allocated_bytes == rest_of(
                old(snapshot).total_allocated_bytes,
                file.allocated_bytes as int,
            )
            &&& final(snapshot).file_count == rest_of(old(snapshot).file_count, 1)
            &&& final(snapshot).folder_count == old(snapshot).folder_count
            &&& r.removed_files == old(snapshot).largest_files@.len()
                - final(snapshot).largest_files@.len()
            &&& r.removed_files > 0
        },
        !file_is_cached(old(snapshot).cache(), file.path@) ==> final(snapshot).cache()
            == old(snapshot).cache() && r.removed_files == 0,
        r.removed_folders == 0,
        forall|i: int|
            0 <= i < final(snapshot).largest_files@.len() ==> !one_path(
                (#[trigger] final(snapshot).largest_files@[i]).path@,
                file.path@,
            ),
{
    let cache = old(snapshot).cache();
    assert(old(snapshot).largest_files.len() == cache.files.len());
    law_removed_file_leaves_the_totals(cache, *file);
    law_pruned_is_gone(cache, NavigationTarget::File, *file);
}

/// A cached folder that is taken out takes its bytes and bytes on disk off the
/// totals, and leaves no entry at or under its path.
pub proof fn law_folder_is_taken_out(
    snapshot: &mut Snapshot,
    folder: &SizedEntry,
    r: PruneResult,
)
    requires
        old(snapshot).wf(),
        call_ensures(prune_cached_folder, (snapshot, folder), r),
        folder_is_cached(old(snapshot).cache(), folder.path@),
    ensures
        final(snapshot).total_bytes == rest_of(old(snapshot).total_bytes, folder.bytes as int),
        final(snapshot).total_allocated_bytes == rest_of(
            old(snapshot).total_allocated_bytes,
            folder.allocated_bytes as int,
        ),
        r.removed_folders == old(snapshot).largest_folders@.len()
            - final(snapshot).largest_folders@.len(),
        r.removed_folders > 0,
        forall|i: int|
            0 <= i < final(snapshot).largest_folders@.len() ==> !at_or_under(
                (#[trigger] final(snapshot).largest_folders@[i]).path@,
                folder.path@,
            ),
        forall|i: int|
            0 <= i < final(snapshot).largest_files@.len() ==> !at_or_under(
                (#[trigger] final(snapshot).largest_files@[i]).path@,
                folder.path@,
            ),
{
    let cache = old(snapshot).cache();
    assert(old(snapshot).largest_files.len() == cache.files.len());
    assert(old(snapshot).largest_folders.len() == cache.folders.len());
    law_removed_folder_leaves_the_totals(cache, *folder);
    law_pruned_is_gone(cache, NavigationTarget::Folder, *folder);
}

/// Behind the lines that were there stand a head and a row for each entry up to
/// the limit; row `n` shows the `n`th entry, of files and of folders alike.
pub proof fn law_row_shows_its_entry(
    out: &mut Vec<String>,
    entries: &Vec<SizedEntry>,
    kind: NavigationTarget,
    limit: usize,
    columns: Option<&str>,
    n: int,
)
    requires
        call_ensures(print_entry_refs, (out, entries, kind, limit, columns), ()),
        1 <= n <= entries@.len(),
        n <= limit,
    ensures
        final(out)@.len() == old(out)@.len() + 1 + vstd::math::min(
            entries@.len() as int,
            limit as int,
        ),
        shows(
            final(out)@[old(out)@.len() + n]@,
            decimal(n as nat) + ". "@ + entries@[n - 1].path@,
            entries@[n - 1].bytes,
            entries@[n - 1].allocated_bytes,
            label_width(table_width(opt_str(columns)), false),
        ),
        forall|i: int| 0 <= i < old(out)@.len() ==> (#[trigger] old(out)@[i])@ == final(out)@[i]@,
{
    lemma_entry_lines(entries@, kind, limit as nat, opt_str(columns), n);
    let before = texts(old(out)@);
    let after = texts(final(out)@);
    assert(before.len() == old(out)@.len());
    assert(after.len() == final(out)@.len());
    assert(after[before.len() + n] == final(out)@[before.len() + n]@);
    assert forall|i: int| 0 <= i < old(out)@.len() implies (
    #[trigger] old(out)@[i])@ == final(out)@[i]@ by {
        assert(before[i] == old(out)@[i]@);
        assert(after[i] == final(out)@[i]@);
    }
}

} // verus!
