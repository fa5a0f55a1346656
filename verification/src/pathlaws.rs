//! How components, parents and folders of a path fit together.
use crate::scan::{
    counted, empty_scan, escaped, escaped_char, escaped_texts, folder_id, folder_plus, plus,
    rolled_up, with_file, ScanView,
};
use crate::snapshot::{EntryView, SizedEntry};
use crate::text::{joined, lemma_pieces_nonempty, pieces};
use crate::paths::{
    body_start, component_start, components, extension, file_name, is_sep, join, kept_names,
    last_component, last_dot, lemma_component_start, lemma_next_sep, lemma_parent_shorter, lemma_prefix_len, lemma_share_end,
    lemma_trimmed_end, main_slash, names, next_sep, parent, prefix_key, prefix_len, rooted,
    separates, separators, share_end, shows_root, slash, trimmed_end, under, verbatim,
    verbatim_share, written_root, PathStyle,
};
use vstd::prelude::*;

verus! {

/// The names between `lo` and `end`.
spec fn names_upto(
    style: PathStyle,
    s: Seq<char>,
    lo: int,
    end: int,
    from_root: bool,
) -> Seq<Seq<char>> {
    kept_names(pieces(s.subrange(lo, end), separators(style, verbatim(style, s))), from_root, verbatim(style, s))
}

/// A separator at the end adds no name, and outside a verbatim path nor does a
/// `.` behind one.
proof fn lemma_names_step(style: PathStyle, s: Seq<char>, lo: int, end: int, from_root: bool)
    requires
        0 <= lo < end <= s.len(),
        separates(style, verbatim(style, s), s[end - 1]) || (!verbatim(style, s) && s[end - 1] == '.' && ((end - 1 > lo
            && slash(style, s[end - 2])) || (end - 1 == lo && from_root))),
    ensures
        names_upto(style, s, lo, end, from_root) == names_upto(style, s, lo, end - 1, from_root),
{
    let kind = separators(style, verbatim(style, s));
    let now = s.subrange(lo, end);
    let before = s.subrange(lo, end - 1);
    assert(now.drop_last() == before);
    assert(now.last() == s[end - 1]);
    lemma_pieces_nonempty(before, kind);
    let parts = pieces(before, kind);
    if separates(style, verbatim(style, s), s[end - 1]) {
        assert(pieces(now, kind) == parts.push(Seq::empty()));
        assert(parts.push(Seq::<char>::empty()).drop_last() == parts);
    } else {
        if end - 1 > lo {
            assert(before.last() == s[end - 2]);
            assert(parts == pieces(before.drop_last(), kind).push(Seq::empty()));
            lemma_pieces_nonempty(before.drop_last(), kind);
        } else {
            assert(before == Seq::<char>::empty());
        }
        assert(parts.last() == Seq::<char>::empty());
        let next = pieces(now, kind);
        assert(next == parts.drop_last().push(parts.last().push('.')));
        assert(next.last() =~= seq!['.']);
        assert(next.drop_last() =~= parts.drop_last());
    }
}

/// Trimming the end takes no name away.
proof fn lemma_names_trimmed(style: PathStyle, s: Seq<char>, lo: int, end: int)
    requires
        0 <= lo <= end <= s.len(),
        lo == body_start(style, s),
    ensures
        names_upto(style, s, lo, trimmed_end(style, s, lo, end), rooted(style, s)) == names_upto(style, s, lo, end, rooted(style, s)),
    decreases end - lo,
{
    if end > lo {
        if separates(style, verbatim(style, s), s[end - 1]) || (!verbatim(style, s) && s[end - 1] == '.' && end - 1 > lo
            && slash(style, s[end - 2])) {
            lemma_names_step(style, s, lo, end, rooted(style, s));
            lemma_names_trimmed(style, s, lo, end - 1);
        } else if !verbatim(style, s) && s[end - 1] == '.' && end - 1 == lo && rooted(style, s) {
            lemma_names_step(style, s, lo, end, rooted(style, s));
        }
    }
}

/// The last piece up to `end` is the component that ends there.
proof fn lemma_last_piece(style: PathStyle, s: Seq<char>, lo: int, end: int)
    requires
        0 <= lo <= end <= s.len(),
    ensures
        ({
            let kind = separators(style, verbatim(style, s));
            let start = component_start(style, s, lo, end);
            let parts = pieces(s.subrange(lo, end), kind);
            let before = pieces(s.subrange(lo, start), kind);
            &&& parts.len() >= 1
            &&& before.len() == parts.len()
            &&& before.last().len() == 0
            &&& parts.last() == s.subrange(start, end)
            &&& parts.drop_last() == before.drop_last()
            &&& parts.len() > 1 <==> start > lo
        }),
    decreases end - lo,
{
    let kind = separators(style, verbatim(style, s));
    let now = s.subrange(lo, end);
    if end <= lo {
        assert(now == Seq::<char>::empty());
        assert(pieces(now, kind) =~= seq![Seq::<char>::empty()]);
        assert(s.subrange(end, end) =~= Seq::<char>::empty());
    } else {
        assert(now.drop_last() == s.subrange(lo, end - 1));
        assert(now.last() == s[end - 1]);
        lemma_pieces_nonempty(now.drop_last(), kind);
        let parts = pieces(now, kind);
        if separates(style, verbatim(style, s), s[end - 1]) {
            assert(parts.last() =~= s.subrange(end, end));
        } else {
            lemma_last_piece(style, s, lo, end - 1);
            lemma_component_start(style, s, lo, end - 1);
            let start = component_start(style, s, lo, end - 1);
            let before = pieces(now.drop_last(), kind);
            assert(parts == before.drop_last().push(before.last().push(s[end - 1])));
            assert(parts.last() =~= s.subrange(start, end));
            assert(parts.drop_last() =~= before.drop_last());
        }
    }
}

/// Next separators of a beginning.
proof fn lemma_next_sep_take(style: PathStyle, s: Seq<char>, i: int, e: int)
    requires
        0 <= i <= e <= s.len(),
        verbatim(style, s.take(e)) == verbatim(style, s),
    ensures
        next_sep(style, s.take(e), i) == if next_sep(style, s, i) < e {
            next_sep(style, s, i)
        } else {
            e
        },
    decreases e - i,
{
    lemma_next_sep(style, s, i);
    if i < e {
        assert(s.take(e)[i] == s[i]);
        if !separates(style, verbatim(style, s), s[i]) {
            lemma_next_sep_take(style, s, i + 1, e);
        }
    }
}

/// Ends of shares of a beginning.
proof fn lemma_share_end_take(style: PathStyle, s: Seq<char>, i: int, e: int)
    requires
        0 <= i <= e <= s.len(),
        verbatim(style, s.take(e)) == verbatim(style, s),
    ensures
        share_end(style, s, i) <= e ==> share_end(style, s.take(e), i) == share_end(style, s, i),
        share_end(style, s, i) > e ==> share_end(style, s.take(e), i) <= e,
{
    let server = next_sep(style, s, i);
    lemma_share_end(style, s, i);
    lemma_share_end(style, s.take(e), i);
    lemma_next_sep_take(style, s, i, e);
    if server < e {
        lemma_next_sep(style, s, server + 1);
        lemma_next_sep_take(style, s, server + 1, e);
    }
}

/// A beginning that holds prefix and root has the same prefix and root.
proof fn lemma_beginning(style: PathStyle, s: Seq<char>, e: int)
    requires
        body_start(style, s) <= e <= s.len(),
    ensures
        prefix_len(style, s.take(e)) == prefix_len(style, s),
        body_start(style, s.take(e)) == body_start(style, s),
        rooted(style, s.take(e)) == rooted(style, s),
        shows_root(style, s.take(e)) == shows_root(style, s),
        verbatim(style, s.take(e)) == verbatim(style, s),
        prefix_key(style, s.take(e)) == prefix_key(style, s),
{
    let t = s.take(e);
    let p = prefix_len(style, s);
    lemma_prefix_len(style, s);
    assert forall|i: int| 0 <= i < e implies t[i] == s[i] by {}
    assert(verbatim(style, t) == verbatim(style, s));
    if verbatim_share(style, s) {
        lemma_share_end(style, s, 8);
        lemma_share_end_take(style, s, 8, e);
    } else if verbatim(style, s) {
        lemma_next_sep(style, s, 4);
        lemma_next_sep_take(style, s, 4, e);
    } else if style is Windows && s.len() >= 2 && is_sep(s[0]) && is_sep(s[1]) {
        lemma_share_end(style, s, 2);
        if e >= 2 {
            lemma_next_sep_take(style, s, 2, e);
            lemma_share_end_take(style, s, 2, e);
        }
        if s.len() >= 4 {
            lemma_next_sep(style, s, 4);
            if e >= 4 {
                lemma_next_sep_take(style, s, 4, e);
            }
        }
    }
    assert(prefix_len(style, t) == p);
    assert(prefix_key(style, t) =~= prefix_key(style, s));
}

/// The parent of a path has its components without the last, and the last one
/// is its last component. Only a path without names has no parent.
pub proof fn law_parent_drops_the_last_name(style: PathStyle, s: Seq<char>)
    ensures
        parent(style, s) is None <==> names(style, s).len() == 0,
        parent(style, s) matches Some(p) ==> {
            &&& components(style, p) == components(style, s).drop_last()
            &&& last_component(style, s) == Some(components(style, s).last())
            &&& last_component(style, s) == Some(names(style, s).last())
        },
{
    let lo = body_start(style, s);
    let len = s.len() as int;
    let end = trimmed_end(style, s, lo, len);
    lemma_prefix_len(style, s);
    lemma_trimmed_end(style, s, lo, len);
    lemma_names_trimmed(style, s, lo, len);
    assert(s.subrange(lo, len) == s.skip(lo));
    assert(names(style, s) == names_upto(style, s, lo, end, rooted(style, s)));
    if end <= lo {
        assert(s.subrange(lo, end) =~= Seq::<char>::empty());
        assert(pieces(Seq::<char>::empty(), separators(style, verbatim(style, s))) =~= seq![
            Seq::<char>::empty(),
        ]);
        let parts = seq![Seq::<char>::empty()];
        assert(parts.drop_last() == Seq::<Seq<char>>::empty());
        assert(parts.last().len() == 0);
        assert(kept_names(parts.drop_last(), rooted(style, s), verbatim(style, s)) == Seq::<Seq<char>>::empty());
        assert(kept_names(parts, rooted(style, s), verbatim(style, s)) == Seq::<Seq<char>>::empty());
    } else {
        let kind = separators(style, verbatim(style, s));
        let start = component_start(style, s, lo, end);
        let stop = trimmed_end(style, s, lo, start);
        lemma_component_start(style, s, lo, end);
        lemma_last_piece(style, s, lo, end);
        lemma_trimmed_end(style, s, lo, start);
        lemma_names_trimmed(style, s, lo, start);
        let parts = pieces(s.subrange(lo, end), kind);
        let before = pieces(s.subrange(lo, start), kind);
        let comp = s.subrange(start, end);
        assert(names_upto(style, s, lo, start, rooted(style, s)) == kept_names(
            parts.drop_last(),
            rooted(style, s),
            verbatim(style, s),
        ));
        assert(comp.len() > 0);
        lemma_not_dot(style, s, lo, len);
        if comp == seq!['.'] {
            assert(comp[0] == s[start]);
            assert(start == end - 1);
        }
        lemma_before_component(style, s, lo, end);
        assert(names(style, s) == names_upto(style, s, lo, stop, rooted(style, s)).push(comp));
        let p = s.take(stop);
        lemma_beginning(style, s, stop);
        assert(p.skip(lo) =~= s.subrange(lo, stop));
        assert(names(style, p) == names_upto(style, s, lo, stop, rooted(style, s)));
        assert(names(style, s).drop_last() =~= names(style, p));
        assert(components(style, s).drop_last() =~= components(style, p));
    }
}

/// Trimming does not stop behind a `.` that adds no name.
proof fn lemma_not_dot(style: PathStyle, s: Seq<char>, lo: int, from: int)
    requires
        0 <= lo <= from <= s.len(),
    ensures
        ({
            let end = trimmed_end(style, s, lo, from);
            !verbatim(style, s) && end > lo && s[end - 1] == '.' ==> (end - 1 == lo && !rooted(style, s)) || (end - 1 > lo
                && !slash(style, s[end - 2]))
        }),
    decreases from - lo,
{
    if !verbatim(style, s) && from > lo && (slash(style, s[from - 1]) || (s[from - 1] == '.' && from - 1 > lo
        && slash(style, s[from - 2]))) {
        lemma_not_dot(style, s, lo, from - 1);
    }
}

/// A separator stands before a component that does not begin at `lo`.
proof fn lemma_before_component(style: PathStyle, s: Seq<char>, lo: int, end: int)
    requires
        0 <= lo <= end <= s.len(),
    ensures
        component_start(style, s, lo, end) > lo ==> separates(
            style,
            verbatim(style, s),
            s[component_start(style, s, lo, end) - 1],
        ),
    decreases end - lo,
{
    if end > lo && !separates(style, verbatim(style, s), s[end - 1]) {
        lemma_before_component(style, s, lo, end - 1);
    }
}

// ---------------------------------------------------------------------------
// The identity of a folder
// ---------------------------------------------------------------------------

/// A text that holds something, but no slash.
spec fn clean(s: Seq<char>) -> bool {
    s.len() > 0 && forall|i: int| 0 <= i < s.len() ==> #[trigger] s[i] != '/'
}

spec fn all_clean(list: Seq<Seq<char>>) -> bool {
    forall|i: int| 0 <= i < list.len() ==> clean(#[trigger] list[i])
}

/// An escaped text holds no slash, and does not end where an escape begins.
proof fn lemma_escaped_clean(s: Seq<char>)
    ensures
        escaped(s).len() >= s.len(),
        s.len() > 0 ==> clean(escaped(s)),
        s.len() > 0 ==> escaped(s).last() != '|',
    decreases s.len(),
{
    if s.len() > 0 {
        lemma_escaped_clean(s.drop_last());
        let before = escaped(s.drop_last());
        let now = escaped(s);
        assert forall|i: int| 0 <= i < now.len() implies #[trigger] now[i] != '/' by {
            if i < before.len() {
                assert(now[i] == before[i]);
            } else {
                assert(now[i] == escaped_char(s.last())[i - before.len()]);
            }
        }
    }
}

/// Escaped texts are the same only where the texts are.
proof fn lemma_escaped_injective(a: Seq<char>, b: Seq<char>)
    requires
        escaped(a) == escaped(b),
    ensures
        a == b,
    decreases a.len(),
{
    lemma_escaped_clean(a);
    lemma_escaped_clean(b);
    if a.len() == 0 || b.len() == 0 {
        assert(a =~= b);
    } else {
        let text = escaped(a);
        let (i, j) = (a.drop_last(), b.drop_last());
        let (x, y) = (escaped_char(a.last()), escaped_char(b.last()));
        lemma_escaped_clean(i);
        lemma_escaped_clean(j);
        assert(text == escaped(i) + x);
        assert(text == escaped(j) + y);
        assert(text.last() == x.last() && text.last() == y.last());
        if x.len() == 2 {
            assert(text[text.len() - 2] == x[0]);
            if y.len() == 1 && j.len() > 0 {
                assert(text[text.len() - 2] == escaped(j).last());
            }
        }
        if y.len() == 2 {
            assert(text[text.len() - 2] == y[0]);
            if x.len() == 1 && i.len() > 0 {
                assert(text[text.len() - 2] == escaped(i).last());
            }
        }
        assert(x.len() == y.len());
        assert(a.last() == b.last());
        assert(escaped(i) =~= text.take(text.len() - x.len()));
        assert(escaped(j) =~= text.take(text.len() - x.len()));
        lemma_escaped_injective(i, j);
        assert(a == i.push(a.last()));
        assert(b == j.push(b.last()));
    }
}

proof fn lemma_kept_nonempty(parts: Seq<Seq<char>>, from_root: bool, exact: bool)
    ensures
        forall|i: int|
            0 <= i < kept_names(parts, from_root, exact).len() ==> (#[trigger] kept_names(
                parts,
                from_root,
                exact,
            )[i]).len() > 0,
    decreases parts.len(),
{
    if parts.len() > 0 {
        let before = kept_names(parts.drop_last(), from_root, exact);
        let now = kept_names(parts, from_root, exact);
        lemma_kept_nonempty(parts.drop_last(), from_root, exact);
        assert forall|i: int| 0 <= i < now.len() implies (#[trigger] now[i]).len() > 0 by {
            if i < before.len() {
                assert(now[i] == before[i]);
            }
        }
    }
}

/// No component is empty, so each is clean once it is escaped.
proof fn lemma_components_clean(style: PathStyle, s: Seq<char>)
    ensures
        all_clean(escaped_texts(components(style, s))),
{
    lemma_prefix_len(style, s);
    lemma_kept_nonempty(
        pieces(s.skip(body_start(style, s)), separators(style, verbatim(style, s))),
        rooted(style, s),
        verbatim(style, s),
    );
    let list = components(style, s);
    assert forall|i: int| 0 <= i < list.len() implies clean(
        #[trigger] escaped_texts(list)[i],
    ) by {
        let heads = list.len() - names(style, s).len();
        if i >= heads {
            assert(list[i] == names(style, s)[i - heads]);
        } else if prefix_len(style, s) > 0 && i == 0 {
            assert(list[i] == prefix_key(style, s));
        } else {
            assert(list[i] == seq![main_slash(style)]);
        }
        lemma_escaped_clean(list[i]);
    }
}

proof fn lemma_joined_injective(a: Seq<Seq<char>>, b: Seq<Seq<char>>)
    requires
        all_clean(a),
        all_clean(b),
        joined(a, "/"@) == joined(b, "/"@),
    ensures
        a == b,
    decreases a.len(),
{
    reveal_strlit("/");
    let text = joined(a, "/"@);
    lemma_joined_ends_clean(a);
    lemma_joined_ends_clean(b);
    if a.len() > 0 && b.len() > 0 {
        let x = a.last();
        let y = b.last();
        assert(clean(a[a.len() - 1]) && clean(b[b.len() - 1]));
        if x.len() < y.len() {
            assert(text[text.len() - x.len() - 1] == '/');
            assert(y[y.len() - x.len() - 1] == text[text.len() - x.len() - 1]);
        }
        if y.len() < x.len() {
            assert(text[text.len() - y.len() - 1] == '/');
            assert(x[x.len() - y.len() - 1] == text[text.len() - y.len() - 1]);
        }
        assert(x =~= text.skip(text.len() - x.len()));
        assert(y =~= text.skip(text.len() - y.len()));
        let i = a.drop_last();
        let j = b.drop_last();
        assert(all_clean(i)) by {
            assert forall|k: int| 0 <= k < i.len() implies clean(#[trigger] i[k]) by {
                assert(i[k] == a[k]);
            }
        }
        assert(all_clean(j)) by {
            assert forall|k: int| 0 <= k < j.len() implies clean(#[trigger] j[k]) by {
                assert(j[k] == b[k]);
            }
        }
        if a.len() > 1 {
            assert(joined(i, "/"@) =~= text.take(text.len() - x.len() - 1));
        }
        if b.len() > 1 {
            assert(joined(j, "/"@) =~= text.take(text.len() - y.len() - 1));
        }
        lemma_joined_ends_clean(i);
        lemma_joined_ends_clean(j);
        lemma_joined_injective(i, j);
        assert(a == i.push(x));
        assert(b == j.push(y));
    }
}

/// A joined list ends with its last text; before it stands a slash, unless it
/// is the only one.
proof fn lemma_joined_ends_clean(list: Seq<Seq<char>>)
    requires
        all_clean(list),
    ensures
        ({
            let text = joined(list, "/"@);
            &&& list.len() == 0 <==> text.len() == 0
            &&& list.len() == 1 ==> text == list.last()
            &&& list.len() > 1 ==> text.len() > list.last().len() + 1 && text[text.len()
                - list.last().len() - 1] == '/'
            &&& list.len() > 0 ==> text.len() >= list.last().len() && text.skip(
                text.len() - list.last().len(),
            ) == list.last()
        }),
    decreases list.len(),
{
    reveal_strlit("/");
    if list.len() > 0 {
        assert(clean(list[list.len() - 1]));
        let init = list.drop_last();
        assert(all_clean(init)) by {
            assert forall|k: int| 0 <= k < init.len() implies clean(#[trigger] init[k]) by {
                assert(init[k] == list[k]);
            }
        }
        lemma_joined_ends_clean(init);
        let text = joined(list, "/"@);
        if list.len() > 1 {
            assert(text == joined(init, "/"@) + "/"@ + list.last());
        }
        assert(text.skip(text.len() - list.last().len()) =~= list.last());
    }
}

/// Two paths are one folder exactly where their components are the same.
pub proof fn law_folder_identity(style: PathStyle, a: Seq<char>, b: Seq<char>)
    ensures
        folder_id(style, a) == folder_id(style, b) <==> components(style, a) == components(style, b),
{
    if folder_id(style, a) == folder_id(style, b) {
        lemma_components_clean(style, a);
        lemma_components_clean(style, b);
        let (x, y) = (components(style, a), components(style, b));
        let (p, q) = (escaped_texts(x), escaped_texts(y));
        lemma_joined_injective(p, q);
        assert forall|i: int| 0 <= i < x.len() implies x[i] == y[i] by {
            assert(p[i] == q[i]);
            lemma_escaped_injective(x[i], y[i]);
        }
        assert(x.len() == p.len() && y.len() == q.len());
        assert(x =~= y);
    }
}

// ---------------------------------------------------------------------------
// Folder sizes
// ---------------------------------------------------------------------------

/// How many components of a path are prefix and root.
pub open spec fn head_count(style: PathStyle, s: Seq<char>) -> int {
    components(style, s).len() - names(style, s).len()
}

/// The bytes, bytes on disk and files of a folder, zero where it has none.
pub open spec fn size_at(sizes: Map<Seq<char>, EntryView>, id: Seq<char>) -> (u64, u64, u64) {
    if sizes.contains_key(id) {
        (sizes[id].bytes, sizes[id].allocated_bytes, counted(sizes[id]))
    } else {
        (0, 0, 0)
    }
}

/// The size of a folder with a file added.
pub open spec fn grown(size: (u64, u64, u64), bytes: u64, allocated: u64) -> (u64, u64, u64) {
    (plus(size.0, bytes), plus(size.1, allocated), plus(size.2, 1))
}

/// A file in `dir` counts once in every folder between the root and `dir`, both
/// included, and nowhere else. The root names the drive or share and the root
/// of `dir`: a bare drive such as `C:` would not be reached from `C:\`.
pub proof fn law_file_counts_in_every_folder_above(
    style: PathStyle,
    known: Map<Seq<char>, EntryView>,
    root: Seq<char>,
    dir: Seq<char>,
    bytes: u64,
    allocated: u64,
    folder: Seq<char>,
)
    requires
        head_count(style, dir) <= components(style, root).len(),
    ensures
        ({
            let after = rolled_up(style, known, root, dir, bytes, allocated);
            let id = folder_id(style, folder);
            if under(style, dir, folder) && under(style, folder, root) {
                after.contains_key(id) && size_at(after, id) == grown(
                    size_at(known, id),
                    bytes,
                    allocated,
                )
            } else {
                after.contains_key(id) == known.contains_key(id) && (known.contains_key(id)
                    ==> after[id] == known[id])
            }
        }),
    decreases dir.len(),
{
    let c = components(style, dir);
    let r = components(style, root);
    let f = components(style, folder);
    let id = folder_id(style, folder);
    law_folder_identity(style, dir, folder);
    law_parent_drops_the_last_name(style, dir);
    if under(style, dir, folder) && under(style, folder, root) {
        lemma_prefix_transitive(r, f, c);
    }
    if under(style, dir, root) {
        assert(r == c.subrange(0, r.len() as int));
        let here = folder_id(style, dir);
        let next = known.insert(here, folder_plus(known, here, dir, bytes, allocated, 1));
        if c == r {
            if under(style, dir, folder) && under(style, folder, root) {
                assert(f =~= c);
            } else {
                if f == c {
                    assert(f =~= f.subrange(0, f.len() as int));
                }
            }
        } else {
            assert(r.len() < c.len()) by {
                if r.len() == c.len() {
                    assert(c.subrange(0, c.len() as int) =~= c);
                }
            }
            let above = parent(style, dir)->0;
            lemma_parent_shorter(style, dir);
            let p = components(style, above);
            assert(p == c.drop_last());
            assert(head_count(style, above) == head_count(style, dir)) by {
                lemma_parent_heads(style, dir);
            }
            law_file_counts_in_every_folder_above(style, next, root, above, bytes, allocated, folder);
            assert(under(style, above, root)) by {
                assert(p.subrange(0, r.len() as int) =~= r);
            }
            if f == c {
                assert(under(style, dir, folder)) by {
                    assert(c.subrange(0, c.len() as int) =~= c);
                }
                assert(under(style, folder, root));
                assert(!under(style, above, folder));
            } else {
                assert(under(style, above, folder) == under(style, dir, folder)) by {
                    if f.len() <= p.len() {
                        assert(p.subrange(0, f.len() as int) =~= c.subrange(0, f.len() as int));
                    }
                    if f.len() == c.len() && under(style, dir, folder) {
                        assert(c.subrange(0, c.len() as int) =~= c);
                    }
                }
            }
        }
    }
}

proof fn lemma_prefix_transitive(a: Seq<Seq<char>>, b: Seq<Seq<char>>, c: Seq<Seq<char>>)
    requires
        a.is_prefix_of(b),
        b.is_prefix_of(c),
    ensures
        a.is_prefix_of(c),
{
    assert(c.subrange(0, a.len() as int) =~= a) by {
        assert forall|i: int| 0 <= i < a.len() implies c[i] == a[i] by {
            assert(b.subrange(0, a.len() as int)[i] == a[i]);
            assert(c.subrange(0, b.len() as int)[i] == b[i]);
        }
    }
}

/// A parent has the same prefix and root.
pub proof fn lemma_parent_heads(style: PathStyle, s: Seq<char>)
    requires
        parent(style, s) is Some,
    ensures
        head_count(style, parent(style, s)->0) == head_count(style, s),
{
    let lo = body_start(style, s);
    let end = trimmed_end(style, s, lo, s.len() as int);
    lemma_prefix_len(style, s);
    lemma_trimmed_end(style, s, lo, s.len() as int);
    lemma_component_start(style, s, lo, end);
    let start = component_start(style, s, lo, end);
    lemma_trimmed_end(style, s, lo, start);
    lemma_beginning(style, s, trimmed_end(style, s, lo, start));
}

/// The size of the root is what the scan has found in all.
pub open spec fn root_holds_all(style: PathStyle, scan: ScanView, root: Seq<char>) -> bool {
    size_at(scan.sizes, folder_id(style, root)) == (scan.bytes, scan.allocated_bytes, scan.files)
}

/// An empty scan has found nothing, and each file that is added below the root
/// is counted in the root: the size of the root is always the total.
pub proof fn law_root_size_is_the_total(
    style: PathStyle,
    limit: nat,
    scan: ScanView,
    root: Seq<char>,
    file: SizedEntry,
    category: Seq<char>,
)
    requires
        root_holds_all(style, scan, root),
        parent(style, file.path@) is Some,
        under(style, parent(style, file.path@)->0, root),
        head_count(style, parent(style, file.path@)->0) <= components(style, root).len(),
    ensures
        root_holds_all(style, empty_scan(limit), root),
        root_holds_all(style, with_file(style, scan, root, file, category), root),
{
    let dir = parent(style, file.path@)->0;
    law_file_counts_in_every_folder_above(
        style,
        scan.sizes,
        root,
        dir,
        file.bytes,
        file.allocated_bytes,
        root,
    );
    let r = components(style, root);
    assert(r.subrange(0, r.len() as int) =~= r);
}

// ---------------------------------------------------------------------------
// Names and extensions
// ---------------------------------------------------------------------------

proof fn lemma_last_dot(name: Seq<char>, end: int)
    requires
        0 <= end <= name.len(),
    ensures
        ({
            let dot = last_dot(name, end);
            &&& -1 <= dot < end
            &&& dot >= 0 ==> name[dot] == '.'
            &&& forall|k: int| dot < k < end ==> #[trigger] name[k] != '.'
        }),
    decreases end,
{
    if end > 0 && name[end - 1] != '.' {
        lemma_last_dot(name, end - 1);
    }
}

/// The extension of a file is what follows the last dot of its name; a name
/// without a dot, or whose only dot comes first, has none.
pub proof fn law_extension_follows_the_last_dot(
    style: PathStyle,
    path: Seq<char>,
    stem: Seq<char>,
    ext: Seq<char>,
)
    requires
        forall|k: int| 0 <= k < ext.len() ==> #[trigger] ext[k] != '.',
    ensures
        file_name(style, path) == Some(stem + seq!['.'] + ext) && stem.len() > 0 ==> extension(
            style,
            path,
        ) == Some(ext),
        file_name(style, path) == Some(seq!['.'] + ext) ==> extension(style, path) is None,
        file_name(style, path) == Some(ext) ==> extension(style, path) is None,
        file_name(style, path) is None ==> extension(style, path) is None,
{
    if let Some(name) = file_name(style, path) {
        lemma_last_dot(name, name.len() as int);
        let dot = last_dot(name, name.len() as int);
        if name == stem + seq!['.'] + ext && stem.len() > 0 {
            let at = stem.len() as int;
            assert(name[at] == '.');
            if dot > at {
                assert(name[dot] == ext[dot - at - 1]);
            }
            assert(name.skip(dot + 1) =~= ext);
        }
        if name == seq!['.'] + ext {
            if dot > 0 {
                assert(name[dot] == ext[dot - 1]);
            }
        }
        if name == ext && dot >= 0 {
            assert(name[dot] == ext[dot]);
        }
    }
}

proof fn lemma_component_of_name(style: PathStyle, s: Seq<char>, lo: int, start: int, end: int)
    requires
        0 <= lo <= start <= end <= s.len(),
        forall|k: int| start <= k < end ==> !separates(style, verbatim(style, s), #[trigger] s[k]),
        start == lo || separates(style, verbatim(style, s), s[start - 1]),
    ensures
        component_start(style, s, lo, end) == start,
    decreases end - start,
{
    if end > start {
        assert(!separates(style, verbatim(style, s), s[end - 1]));
        lemma_component_of_name(style, s, lo, start, end - 1);
    }
}

/// What is joined to a folder is the name of the result: a plain name behind a
/// folder, the two parted by a slash, is its last component.
pub proof fn law_joined_name_is_the_file_name(style: PathStyle, base: Seq<char>, name: Seq<char>)
    requires
        name.len() > 0,
        forall|k: int| 0 <= k < name.len() ==> !is_sep(#[trigger] name[k]),
        name != seq!['.'],
        name != seq!['.', '.'],
        prefix_len(style, name) == 0,
        !verbatim(style, base),
        !verbatim(style, join(style, base, name)),
        body_start(style, join(style, base, name)) <= join(style, base, name).len() - name.len(),
        base.len() == 0 || slash(style, base.last()) || !(base.len() == 2 && base[1] == ':'),
    ensures
        file_name(style, join(style, base, name)) == Some(name),
{
    let s = join(style, base, name);
    let lo = body_start(style, s);
    let len = s.len() as int;
    let start = len - name.len();
    assert(!is_sep(name[0]));
    assert(!written_root(style, name));
    assert(s.skip(start) =~= name);
    assert forall|k: int| start <= k < len implies s[k] == name[k - start] by {
        assert(s.skip(start)[k - start] == s[k]);
    }
    lemma_prefix_len(style, s);
    assert(!is_sep(name[name.len() - 1]));
    if name.len() >= 2 {
        assert(!is_sep(name[name.len() - 2]));
    }
    if s[len - 1] == '.' && name.len() == 1 {
        assert(name =~= seq!['.']);
    }
    assert(trimmed_end(style, s, lo, len) == len);
    assert(start == lo || slash(style, s[start - 1]));
    assert forall|k: int| start <= k < len implies !separates(
        style,
        verbatim(style, s),
        #[trigger] s[k],
    ) by {
        assert(!is_sep(name[k - start]));
    }
    lemma_component_of_name(style, s, lo, start, len);
    assert(s.subrange(start, len) =~= name);
}

} // verus!
