//! Paths as text: prefix, root and components, file name, extension, parent and
//! join, by the rules of Windows or by those of Unix. On Windows a path that
//! begins with `\\?\` is taken verbatim: there only the backslash separates, and
//! `.` is a component like any other.
use crate::text::{
    from_chars, join_texts, joined, lower, pieces, push_text, same_text, texts, to_chars, to_lower,
    to_upper_char, upper_char,
};
use vstd::prelude::*;

verus! {

/// Whose rules a path follows.
#[derive(Debug, Clone, Copy, PartialEq, Eq, Structural)]
pub enum PathStyle {
    /// Drives, shares and devices; both slashes separate.
    Windows,
    /// No prefixes; only `/` separates.
    Unix,
}

/// A slash of either kind.
pub open spec fn is_sep(c: char) -> bool {
    c == '\\' || c == '/'
}

/// Whether a character is a slash of either kind.
pub fn sep(c: char) -> (r: bool)
    ensures
        r == is_sep(c),
{
    c == '\\' || c == '/'
}

/// A slash that the rules know.
pub open spec fn slash(style: PathStyle, c: char) -> bool {
    match style {
        PathStyle::Windows => is_sep(c),
        PathStyle::Unix => c == '/',
    }
}

/// The slash that is written.
pub open spec fn main_slash(style: PathStyle) -> char {
    match style {
        PathStyle::Windows => '\\',
        PathStyle::Unix => '/',
    }
}

/// The path is taken verbatim: it begins with `\\?\`.
pub open spec fn verbatim(style: PathStyle, s: Seq<char>) -> bool {
    style is Windows && s.len() >= 4 && s[0] == '\\' && s[1] == '\\' && s[2] == '?' && s[3]
        == '\\'
}

/// Every slash separates components; in a verbatim path only the backslash.
pub open spec fn separates(style: PathStyle, exact: bool, c: char) -> bool {
    if exact {
        c == '\\'
    } else {
        slash(style, c)
    }
}

/// The separators, as a kind of characters.
pub open spec fn separators(style: PathStyle, exact: bool) -> spec_fn(char) -> bool {
    |c: char| separates(style, exact, c)
}

/// The position of the first separator from `i` on, or the end.
pub open spec fn next_sep(style: PathStyle, s: Seq<char>, i: int) -> int
    decreases s.len() - i,
{
    if i < 0 || i >= s.len() || separates(style, verbatim(style, s), s[i]) {
        i
    } else {
        next_sep(style, s, i + 1)
    }
}

/// A drive letter.
pub open spec fn is_letter(c: char) -> bool {
    ('a' <= c && c <= 'z') || ('A' <= c && c <= 'Z')
}

/// A verbatim path to a share, such as `\\?\UNC\server\share`.
pub open spec fn verbatim_share(style: PathStyle, s: Seq<char>) -> bool {
    verbatim(style, s) && s.len() >= 8 && s[4] == 'U' && s[5] == 'N' && s[6] == 'C' && is_sep(s[7])
}

/// A verbatim path to a drive, such as `\\?\C:`.
pub open spec fn verbatim_drive(style: PathStyle, s: Seq<char>) -> bool {
    verbatim(style, s) && s.len() >= 6 && is_letter(s[4]) && s[5] == ':' && (s.len() == 6 || is_sep(s[6]))
}

/// The end of the share whose server begins at `i`; that of the server where
/// no share follows.
pub open spec fn share_end(style: PathStyle, s: Seq<char>, i: int) -> int {
    let server = next_sep(style, s, i);
    if server < s.len() && next_sep(style, s, server + 1) > server + 1 {
        next_sep(style, s, server + 1)
    } else {
        server
    }
}

/// The length of the prefix: a drive such as `C:`, a share such as
/// `\\server\share`, a device such as `\\.\COM1`, or a verbatim one such as
/// `\\?\C:`, `\\?\UNC\server\share` and `\\?\name`. Unix has none.
pub open spec fn prefix_len(style: PathStyle, s: Seq<char>) -> int {
    if verbatim_share(style, s) {
        share_end(style, s, 8)
    } else if verbatim_drive(style, s) {
        6
    } else if verbatim(style, s) {
        next_sep(style, s, 4)
    } else if style is Unix {
        0
    } else if s.len() >= 2 && is_sep(s[0]) && is_sep(s[1]) {
        if s.len() >= 4 && s[2] == '.' && is_sep(s[3]) {
            next_sep(style, s, 4)
        } else if 2 < next_sep(style, s, 2) < share_end(style, s, 2) {
            share_end(style, s, 2)
        } else {
            0
        }
    } else if s.len() >= 2 && is_letter(s[0]) && s[1] == ':' {
        2
    } else {
        0
    }
}

/// Whether the prefix is a drive.
pub open spec fn drive_prefix(style: PathStyle, s: Seq<char>) -> bool {
    prefix_len(style, s) == 2 && s[1] == ':'
}

/// Whether a slash follows the prefix.
pub open spec fn written_root(style: PathStyle, s: Seq<char>) -> bool {
    prefix_len(style, s) < s.len() && slash(style, s[prefix_len(style, s)])
}

/// Whether the path starts at a root: a slash after the prefix, or a prefix
/// that is a root of itself.
pub open spec fn rooted(style: PathStyle, s: Seq<char>) -> bool {
    written_root(style, s) || (prefix_len(style, s) > 0 && !drive_prefix(style, s))
}

/// Whether the root is a component: a verbatim prefix alone has none.
pub open spec fn shows_root(style: PathStyle, s: Seq<char>) -> bool {
    written_root(style, s) || (prefix_len(style, s) > 0 && !drive_prefix(style, s) && !verbatim(style, s))
}

/// Where the components begin.
pub open spec fn body_start(style: PathStyle, s: Seq<char>) -> int {
    if written_root(style, s) {
        prefix_len(style, s) + 1
    } else {
        prefix_len(style, s)
    }
}

/// The end of the components up to `end`: trailing separators and `.`
/// components are dropped; a leading `.` of a path without root stays, and so
/// does every `.` of a verbatim path.
pub open spec fn trimmed_end(style: PathStyle, s: Seq<char>, lo: int, end: int) -> int
    decreases end - lo,
{
    if end <= lo {
        end
    } else if separates(style, verbatim(style, s), s[end - 1]) {
        trimmed_end(style, s, lo, end - 1)
    } else if verbatim(style, s) {
        end
    } else if s[end - 1] == '.' && end - 1 == lo {
        if rooted(style, s) {
            lo
        } else {
            end
        }
    } else if s[end - 1] == '.' && slash(style, s[end - 2]) {
        trimmed_end(style, s, lo, end - 1)
    } else {
        end
    }
}

/// Where the component that ends at `end` begins.
pub open spec fn component_start(style: PathStyle, s: Seq<char>, lo: int, end: int) -> int
    decreases end - lo,
{
    if end <= lo || separates(style, verbatim(style, s), s[end - 1]) {
        end
    } else {
        component_start(style, s, lo, end - 1)
    }
}

/// The last component; `None` for a bare prefix, a root and the empty path.
pub open spec fn last_component(style: PathStyle, s: Seq<char>) -> Option<Seq<char>> {
    let lo = body_start(style, s);
    let end = trimmed_end(style, s, lo, s.len() as int);
    if end <= lo {
        None
    } else {
        Some(s.subrange(component_start(style, s, lo, end), end))
    }
}

/// The path without its last component.
pub open spec fn parent(style: PathStyle, s: Seq<char>) -> Option<Seq<char>> {
    let lo = body_start(style, s);
    let end = trimmed_end(style, s, lo, s.len() as int);
    if end <= lo {
        None
    } else {
        Some(s.take(trimmed_end(style, s, lo, component_start(style, s, lo, end))))
    }
}

/// The last component where it names a file or folder: not `.` and not `..`.
pub open spec fn file_name(style: PathStyle, s: Seq<char>) -> Option<Seq<char>> {
    match last_component(style, s) {
        Some(name) => if name == seq!['.'] || name == seq!['.', '.'] {
            None
        } else {
            Some(name)
        },
        None => None,
    }
}

/// The position of the last dot before `end`, or -1.
pub open spec fn last_dot(s: Seq<char>, end: int) -> int
    decreases end,
{
    if end <= 0 {
        -1
    } else if s[end - 1] == '.' {
        end - 1
    } else {
        last_dot(s, end - 1)
    }
}

/// What follows the last dot of the file name, unless the name begins with it.
pub open spec fn extension(style: PathStyle, s: Seq<char>) -> Option<Seq<char>> {
    match file_name(style, s) {
        Some(name) => {
            let dot = last_dot(name, name.len() as int);
            if dot <= 0 {
                None
            } else {
                Some(name.skip(dot + 1))
            }
        },
        None => None,
    }
}

/// The names between the separators after prefix and root; `.` counts only as
/// the first of a path without root, and in a verbatim path.
pub open spec fn names(style: PathStyle, s: Seq<char>) -> Seq<Seq<char>> {
    kept_names(
        pieces(s.skip(body_start(style, s)), separators(style, verbatim(style, s))),
        rooted(style, s),
        verbatim(style, s),
    )
}

/// The pieces that are components.
pub open spec fn kept_names(parts: Seq<Seq<char>>, from_root: bool, exact: bool) -> Seq<Seq<char>>
    decreases parts.len(),
{
    if parts.len() == 0 {
        Seq::empty()
    } else {
        let before = kept_names(parts.drop_last(), from_root, exact);
        let part = parts.last();
        if part.len() == 0 || (!exact && part == seq!['.'] && (from_root || parts.len() > 1)) {
            before
        } else {
            before.push(part)
        }
    }
}

/// A character of the prefix as it is compared. Drives are in upper case. The
/// slashes of a verbatim prefix are backslashes, those of any other are not, so
/// that the two are never taken for each other.
pub open spec fn prefix_char(style: PathStyle, s: Seq<char>, i: int) -> char {
    let letter: int = if verbatim_drive(style, s) {
        4
    } else {
        0
    };
    if i == letter && (drive_prefix(style, s) || verbatim_drive(style, s)) {
        upper_char(s[i])
    } else if verbatim_share(style, s) && i == 7 {
        '\\'
    } else if !verbatim(style, s) && s[i] == '\\' {
        '/'
    } else {
        s[i]
    }
}

/// The prefix as it is compared.
pub open spec fn prefix_key(style: PathStyle, s: Seq<char>) -> Seq<char> {
    Seq::new(prefix_len(style, s) as nat, |i: int| prefix_char(style, s, i))
}

/// Prefix, root and names: two paths are the same where these are.
pub open spec fn components(style: PathStyle, s: Seq<char>) -> Seq<Seq<char>> {
    let prefix = if prefix_len(style, s) > 0 {
        seq![prefix_key(style, s)]
    } else {
        Seq::empty()
    };
    let root = if shows_root(style, s) {
        seq![seq![main_slash(style)]]
    } else {
        Seq::empty()
    };
    prefix + root + names(style, s)
}

/// Whether a path lies under `base` or is `base`.
pub open spec fn under(style: PathStyle, s: Seq<char>, base: Seq<char>) -> bool {
    components(style, base).is_prefix_of(components(style, s))
}

/// Whether some name of a path is `needle`, up to ASCII case.
pub open spec fn has_name(style: PathStyle, s: Seq<char>, needle: Seq<char>) -> bool {
    exists|i: int| 0 <= i < names(style, s).len() && lower(#[trigger] names(style, s)[i]) == lower(needle)
}

/// The names reached from `start` by the steps: `.` stays, and `..` goes back over
/// a name.
pub open spec fn walked(start: Seq<Seq<char>>, steps: Seq<Seq<char>>) -> Seq<Seq<char>>
    decreases steps.len(),
{
    if steps.len() == 0 {
        start
    } else {
        let at = walked(start, steps.drop_last());
        let step = steps.last();
        if step == seq!['.'] {
            at
        } else if step == seq!['.', '.'] {
            if at.len() > 0 && at.last() != seq!['.'] && at.last() != seq!['.', '.'] {
                at.drop_last()
            } else {
                at
            }
        } else {
            at.push(step)
        }
    }
}

/// The verbatim path of the prefix of `base`, a root and names.
pub open spec fn verbatim_path(
    style: PathStyle,
    base: Seq<char>,
    root: bool,
    list: Seq<Seq<char>>,
) -> Seq<char> {
    let prefix = base.take(prefix_len(style, base));
    if root || list.len() > 0 {
        prefix.push('\\') + joined(list, seq!['\\'])
    } else {
        prefix
    }
}

/// `base` with `rel` behind it; a prefix in `rel` replaces `base`, a root in
/// `rel` keeps only the prefix of `base`. Behind a verbatim path `rel` is walked
/// step by step.
pub open spec fn join(style: PathStyle, base: Seq<char>, rel: Seq<char>) -> Seq<char> {
    if prefix_len(style, rel) > 0 {
        rel
    } else if verbatim(style, base) && rel.len() > 0 {
        if written_root(style, rel) {
            verbatim_path(style, base, true, walked(Seq::empty(), names(style, rel)))
        } else {
            verbatim_path(
                style,
                base,
                shows_root(style, base),
                walked(names(style, base), names(style, rel)),
            )
        }
    } else if written_root(style, rel) {
        base.take(prefix_len(style, base)) + rel
    } else if base.len() == 0 || slash(style, base.last()) || (drive_prefix(style, base)
        && base.len() == 2) {
        base + rel
    } else {
        base.push(main_slash(style)) + rel
    }
}

// ---------------------------------------------------------------------------
// Facts
// ---------------------------------------------------------------------------

/// The next separator lies at or after `i`, at most at the end.
pub proof fn lemma_next_sep(style: PathStyle, s: Seq<char>, i: int)
    requires
        0 <= i <= s.len(),
    ensures
        i <= next_sep(style, s, i) <= s.len(),
        next_sep(style, s, i) < s.len() ==> separates(style, verbatim(style, s), s[next_sep(style, s, i)]),
    decreases s.len() - i,
{
    if i < s.len() && !separates(style, verbatim(style, s), s[i]) {
        lemma_next_sep(style, s, i + 1);
    }
}

/// A share ends behind where its server begins, at most at the end.
pub proof fn lemma_share_end(style: PathStyle, s: Seq<char>, i: int)
    requires
        0 <= i <= s.len(),
    ensures
        i <= next_sep(style, s, i) <= share_end(style, s, i) <= s.len(),
{
    lemma_next_sep(style, s, i);
    if next_sep(style, s, i) < s.len() {
        lemma_next_sep(style, s, next_sep(style, s, i) + 1);
    }
}

/// The prefix is part of the path.
pub proof fn lemma_prefix_len(style: PathStyle, s: Seq<char>)
    ensures
        0 <= prefix_len(style, s) <= s.len(),
        0 <= body_start(style, s) <= s.len(),
        verbatim(style, s) ==> prefix_len(style, s) >= 4,
{
    if s.len() >= 2 {
        lemma_share_end(style, s, 2);
    }
    if s.len() >= 4 {
        lemma_next_sep(style, s, 4);
    }
    if s.len() >= 8 {
        lemma_share_end(style, s, 8);
    }
}

/// Trimming moves the end back, not before `lo`.
pub proof fn lemma_trimmed_end(style: PathStyle, s: Seq<char>, lo: int, end: int)
    requires
        0 <= lo <= end <= s.len(),
    ensures
        lo <= trimmed_end(style, s, lo, end) <= end,
        trimmed_end(style, s, lo, end) > lo ==> !separates(
            style,
            verbatim(style, s),
            s[trimmed_end(style, s, lo, end) - 1],
        ),
    decreases end - lo,
{
    if end > lo && (separates(style, verbatim(style, s), s[end - 1]) || (s[end - 1] == '.' && end - 1 > lo
        && slash(style, s[end - 2]))) {
        lemma_trimmed_end(style, s, lo, end - 1);
    }
}

/// A component begins before its end, not before `lo`.
pub proof fn lemma_component_start(style: PathStyle, s: Seq<char>, lo: int, end: int)
    requires
        0 <= lo <= end <= s.len(),
    ensures
        lo <= component_start(style, s, lo, end) <= end,
        end > lo && !separates(style, verbatim(style, s), s[end - 1]) ==> component_start(style, s, lo, end) < end,
    decreases end - lo,
{
    if end > lo && !separates(style, verbatim(style, s), s[end - 1]) {
        lemma_component_start(style, s, lo, end - 1);
    }
}

/// A parent is a proper beginning of its path.
pub proof fn lemma_parent_shorter(style: PathStyle, s: Seq<char>)
    requires
        parent(style, s) is Some,
    ensures
        parent(style, s).unwrap().len() < s.len(),
        parent(style, s).unwrap() == s.take(parent(style, s).unwrap().len() as int),
{
    let lo = body_start(style, s);
    let end = trimmed_end(style, s, lo, s.len() as int);
    lemma_prefix_len(style, s);
    lemma_trimmed_end(style, s, lo, s.len() as int);
    lemma_component_start(style, s, lo, end);
    lemma_trimmed_end(style, s, lo, component_start(style, s, lo, end));
}

// ---------------------------------------------------------------------------
// Reading paths
// ---------------------------------------------------------------------------

fn is_slash(style: PathStyle, c: char) -> (r: bool)
    ensures
        r == slash(style, c),
{
    match style {
        PathStyle::Windows => sep(c),
        PathStyle::Unix => c == '/',
    }
}

fn written_slash(style: PathStyle) -> (r: char)
    ensures
        r == main_slash(style),
{
    match style {
        PathStyle::Windows => '\\',
        PathStyle::Unix => '/',
    }
}

fn is_windows(style: PathStyle) -> (r: bool)
    ensures
        r == (style is Windows),
{
    match style {
        PathStyle::Windows => true,
        PathStyle::Unix => false,
    }
}

fn is_verbatim(style: PathStyle, s: &[char]) -> (r: bool)
    ensures
        r == verbatim(style, s@),
{
    is_windows(style) && s.len() >= 4 && s[0] == '\\' && s[1] == '\\' && s[2] == '?' && s[3]
        == '\\'
}

fn parts_names(style: PathStyle, exact: bool, c: char) -> (r: bool)
    ensures
        r == separates(style, exact, c),
{
    if exact {
        c == '\\'
    } else {
        is_slash(style, c)
    }
}

fn next_sep_at(style: PathStyle, s: &[char], from: usize) -> (r: usize)
    requires
        from <= s@.len(),
    ensures
        r == next_sep(style, s@, from as int),
        from <= r <= s@.len(),
{
    let exact = is_verbatim(style, s);
    let mut i: usize = from;
    while i < s.len() && !parts_names(style, exact, s[i])
        invariant
            from <= i <= s@.len(),
            exact == verbatim(style, s@),
            next_sep(style, s@, from as int) == next_sep(style, s@, i as int),
        decreases s@.len() - i,
    {
        i = i + 1;
    }
    i
}

fn letter(c: char) -> (r: bool)
    ensures
        r == is_letter(c),
{
    ('a' <= c && c <= 'z') || ('A' <= c && c <= 'Z')
}

fn share_end_at(style: PathStyle, s: &[char], from: usize) -> (r: usize)
    requires
        from <= s@.len(),
    ensures
        r == share_end(style, s@, from as int),
        from <= r <= s@.len(),
{
    let server = next_sep_at(style, s, from);
    if server < s.len() {
        let share = next_sep_at(style, s, server + 1);
        if share > server + 1 {
            return share;
        }
    }
    server
}

fn is_verbatim_share(style: PathStyle, s: &[char]) -> (r: bool)
    ensures
        r == verbatim_share(style, s@),
{
    is_verbatim(style, s) && s.len() >= 8 && s[4] == 'U' && s[5] == 'N' && s[6] == 'C' && sep(s[7])
}

fn is_verbatim_drive(style: PathStyle, s: &[char]) -> (r: bool)
    ensures
        r == verbatim_drive(style, s@),
{
    is_verbatim(style, s) && s.len() >= 6 && letter(s[4]) && s[5] == ':' && (s.len() == 6 || sep(s[6]))
}

fn prefix_size(style: PathStyle, s: &[char]) -> (r: usize)
    ensures
        r == prefix_len(style, s@),
        r <= s@.len(),
{
    proof {
        lemma_prefix_len(style, s@);
    }
    let n: usize = s.len();
    if is_verbatim_share(style, s) {
        share_end_at(style, s, 8)
    } else if is_verbatim_drive(style, s) {
        6
    } else if is_verbatim(style, s) {
        next_sep_at(style, s, 4)
    } else if !is_windows(style) {
        0
    } else if n >= 2 && sep(s[0]) && sep(s[1]) {
        if n >= 4 && s[2] == '.' && sep(s[3]) {
            next_sep_at(style, s, 4)
        } else {
            let server = next_sep_at(style, s, 2);
            let share = share_end_at(style, s, 2);
            if 2 < server && server < share {
                share
            } else {
                0
            }
        }
    } else if n >= 2 && letter(s[0]) && s[1] == ':' {
        2
    } else {
        0
    }
}

fn starts_rooted(style: PathStyle, s: &[char]) -> (r: bool)
    ensures
        r == rooted(style, s@),
{
    let p = prefix_size(style, s);
    (p < s.len() && is_slash(style, s[p])) || (p > 0 && !(p == 2 && s[1] == ':'))
}

fn has_shown_root(style: PathStyle, s: &[char]) -> (r: bool)
    ensures
        r == shows_root(style, s@),
{
    let p = prefix_size(style, s);
    (p < s.len() && is_slash(style, s[p])) || (p > 0 && !(p == 2 && s[1] == ':') && !is_verbatim(style, s))
}

fn body_at(style: PathStyle, s: &[char]) -> (r: usize)
    ensures
        r == body_start(style, s@),
        r <= s@.len(),
{
    let p = prefix_size(style, s);
    if p < s.len() && is_slash(style, s[p]) {
        p + 1
    } else {
        p
    }
}

fn trimmed_end_at(style: PathStyle, s: &[char], lo: usize, from: usize) -> (r: usize)
    requires
        lo <= from <= s@.len(),
    ensures
        r == trimmed_end(style, s@, lo as int, from as int),
        lo <= r <= from,
{
    proof {
        lemma_trimmed_end(style, s@, lo as int, from as int);
    }
    let exact = is_verbatim(style, s);
    let mut end: usize = from;
    while end > lo
        invariant
            lo <= end <= from <= s@.len(),
            exact == verbatim(style, s@),
            trimmed_end(style, s@, lo as int, from as int) == trimmed_end(style, s@, lo as int, end as int),
        decreases end,
    {
        if parts_names(style, exact, s[end - 1]) {
            end = end - 1;
        } else if exact {
            return end;
        } else if s[end - 1] == '.' && end - 1 == lo {
            if starts_rooted(style, s) {
                return lo;
            } else {
                return end;
            }
        } else if s[end - 1] == '.' && is_slash(style, s[end - 2]) {
            end = end - 1;
        } else {
            return end;
        }
    }
    end
}

fn component_start_at(style: PathStyle, s: &[char], lo: usize, from: usize) -> (r: usize)
    requires
        lo <= from <= s@.len(),
    ensures
        r == component_start(style, s@, lo as int, from as int),
        lo <= r <= from,
{
    let exact = is_verbatim(style, s);
    let mut end: usize = from;
    while end > lo && !parts_names(style, exact, s[end - 1])
        invariant
            lo <= end <= from <= s@.len(),
            exact == verbatim(style, s@),
            component_start(style, s@, lo as int, from as int) == component_start(
                style,
                s@,
                lo as int,
                end as int,
            ),
        decreases end,
    {
        end = end - 1;
    }
    end
}

/// The characters from `from` up to `to`.
pub fn slice_of(s: &[char], from: usize, to: usize) -> (r: Vec<char>)
    requires
        from <= to <= s@.len(),
    ensures
        r@ == s@.subrange(from as int, to as int),
{
    let mut r: Vec<char> = Vec::new();
    let mut i: usize = from;
    while i < to
        invariant
            from <= i <= to <= s@.len(),
            r@ == s@.subrange(from as int, i as int),
        decreases to - i,
    {
        r.push(s[i]);
        i = i + 1;
        assert(s@.subrange(from as int, i as int) == s@.subrange(from as int, i - 1).push(
            s@[i - 1],
        ));
    }
    r
}

/// The folder that a path stands in.
pub fn parent_of(style: PathStyle, path: &str) -> (r: Option<String>)
    ensures
        match r {
            Some(p) => parent(style, path@) == Some(p@) && p@.len() < path@.len(),
            None => parent(style, path@) is None,
        },
{
    let s = to_chars(path);
    let lo = body_at(style, s.as_slice());
    let end = trimmed_end_at(style, s.as_slice(), lo, s.len());
    if end <= lo {
        return None;
    }
    let start = component_start_at(style, s.as_slice(), lo, end);
    let cut = trimmed_end_at(style, s.as_slice(), lo, start);
    proof {
        lemma_parent_shorter(style, path@);
        assert(s@.subrange(0, cut as int) =~= s@.take(cut as int));
    }
    Some(from_chars(slice_of(s.as_slice(), 0, cut).as_slice()))
}

fn file_name_chars(style: PathStyle, path: &str) -> (r: Option<Vec<char>>)
    ensures
        match r {
            Some(name) => file_name(style, path@) == Some(name@),
            None => file_name(style, path@) is None,
        },
{
    let s = to_chars(path);
    let lo = body_at(style, s.as_slice());
    let end = trimmed_end_at(style, s.as_slice(), lo, s.len());
    if end <= lo {
        return None;
    }
    let start = component_start_at(style, s.as_slice(), lo, end);
    let name = slice_of(s.as_slice(), start, end);
    if name.len() == 1 && name[0] == '.' {
        assert(name@ =~= seq!['.']);
        return None;
    }
    if name.len() == 2 && name[0] == '.' && name[1] == '.' {
        assert(name@ =~= seq!['.', '.']);
        return None;
    }
    Some(name)
}

/// The name of the file or folder that a path leads to.
pub fn file_name_of(style: PathStyle, path: &str) -> (r: Option<String>)
    ensures
        match r {
            Some(name) => file_name(style, path@) == Some(name@),
            None => file_name(style, path@) is None,
        },
{
    match file_name_chars(style, path) {
        Some(name) => Some(from_chars(name.as_slice())),
        None => None,
    }
}

/// The extension of the file name of a path.
pub fn extension_of(style: PathStyle, path: &str) -> (r: Option<String>)
    ensures
        match r {
            Some(ext) => extension(style, path@) == Some(ext@),
            None => extension(style, path@) is None,
        },
{
    match file_name_chars(style, path) {
        None => None,
        Some(name) => {
            let mut end: usize = name.len();
            while end > 0 && name[end - 1] != '.'
                invariant
                    end <= name@.len(),
                    last_dot(name@, name@.len() as int) == last_dot(name@, end as int),
                decreases end,
            {
                end = end - 1;
            }
            if end <= 1 {
                None
            } else {
                assert(name@.subrange(end as int, name@.len() as int) =~= name@.skip(end as int));
                Some(from_chars(slice_of(name.as_slice(), end, name.len()).as_slice()))
            }
        },
    }
}

/// The names of a path, in order.
pub fn names_of(style: PathStyle, path: &[char]) -> (r: Vec<String>)
    ensures
        texts(r@) == names(style, path@),
{
    let lo = body_at(style, path);
    let from_root = starts_rooted(style, path);
    let exact = is_verbatim(style, path);
    let ghost kind = separators(style, exact);
    let ghost body = path@.skip(lo as int);
    let mut kept: Vec<String> = Vec::new();
    let mut cur: Vec<char> = Vec::new();
    let mut first = true;
    let ghost mut done: Seq<Seq<char>> = Seq::empty();
    let mut i: usize = lo;
    assert(body.take(0) =~= Seq::<char>::empty());
    assert(texts(kept@) =~= Seq::<Seq<char>>::empty());
    assert(pieces(Seq::<char>::empty(), kind) =~= done.push(cur@));
    while i < path.len()
        invariant
            lo <= i <= path@.len(),
            body == path@.skip(lo as int),
            kind == separators(style, exact),
            pieces(body.take(i - lo), kind) == done.push(cur@),
            texts(kept@) == kept_names(done, from_root, exact),
            first == (done.len() == 0),
        decreases path@.len() - i,
    {
        let c = path[i];
        proof {
            assert(body.take(i - lo + 1).drop_last() =~= body.take(i - lo));
            assert(body.take(i - lo + 1).last() == c);
        }
        if parts_names(style, exact, c) {
            keep_name(&mut kept, &cur, first, from_root, exact, Ghost(done));
            proof {
                done = done.push(cur@);
            }
            cur = Vec::new();
            first = false;
            assert(pieces(body.take(i - lo + 1), kind) =~= done.push(cur@));
        } else {
            let ghost before = cur@;
            cur.push(c);
            assert(done.push(before).drop_last() =~= done);
            assert(pieces(body.take(i - lo + 1), kind) =~= done.push(cur@));
        }
        i = i + 1;
    }
    assert(body.take(i - lo) =~= body);
    keep_name(&mut kept, &cur, first, from_root, exact, Ghost(done));
    kept
}

fn keep_name(
    kept: &mut Vec<String>,
    part: &Vec<char>,
    first: bool,
    from_root: bool,
    exact: bool,
    Ghost(done): Ghost<Seq<Seq<char>>>,
)
    requires
        texts(old(kept)@) == kept_names(done, from_root, exact),
        first == (done.len() == 0),
    ensures
        texts(final(kept)@) == kept_names(done.push(part@), from_root, exact),
{
    let ghost before = kept@;
    assert(done.push(part@).drop_last() =~= done);
    let dot = part.len() == 1 && part[0] == '.';
    assert(dot == (part@ == seq!['.'])) by {
        if dot {
            assert(part@ =~= seq!['.']);
        }
    }
    if part.len() > 0 && (exact || !(dot && (from_root || !first))) {
        let name = from_chars(part.as_slice());
        kept.push(name);
        assert(texts(kept@) =~= texts(before).push(part@));
    }
}

fn prefix_text(style: PathStyle, s: &[char], size: usize) -> (r: String)
    requires
        size == prefix_len(style, s@),
        size <= s@.len(),
    ensures
        r@ == prefix_key(style, s@),
{
    let exact = is_verbatim(style, s);
    let share = is_verbatim_share(style, s);
    let disk = is_verbatim_drive(style, s);
    let drive = size == 2 && s[1] == ':';
    let ghost all = prefix_key(style, s@);
    let mut prefix = String::new();
    let mut i: usize = 0;
    while i < size
        invariant
            i <= size <= s@.len(),
            size == prefix_len(style, s@),
            exact == verbatim(style, s@),
            share == verbatim_share(style, s@),
            disk == verbatim_drive(style, s@),
            drive == drive_prefix(style, s@),
            all == prefix_key(style, s@),
            prefix@ == all.take(i as int),
        decreases size - i,
    {
        let c = s[i];
        let d = if (disk && i == 4) || (drive && i == 0) {
            to_upper_char(c)
        } else if share && i == 7 {
            '\\'
        } else if !exact && c == '\\' {
            '/'
        } else {
            c
        };
        prefix.push(d);
        i = i + 1;
        assert(all[i - 1] == d);
        assert(all.take(i as int) =~= all.take(i - 1).push(d));
    }
    assert(all.take(size as int) =~= all);
    prefix
}

/// Prefix, root and names of a path.
pub fn components_of(style: PathStyle, path: &str) -> (r: Vec<String>)
    ensures
        texts(r@) == components(style, path@),
{
    let s = to_chars(path);
    let size = prefix_size(style, s.as_slice());
    let mut r: Vec<String> = Vec::new();
    if size > 0 {
        r.push(prefix_text(style, s.as_slice(), size));
    }
    let ghost head = texts(r@);
    assert(head =~= (if prefix_len(style, path@) > 0 {
        seq![prefix_key(style, path@)]
    } else {
        Seq::empty()
    }));
    if has_shown_root(style, s.as_slice()) {
        let mut root = String::new();
        root.push(written_slash(style));
        assert(root@ =~= seq![main_slash(style)]);
        r.push(root);
        assert(texts(r@) =~= head + seq![seq![main_slash(style)]]);
    } else {
        assert(texts(r@) =~= head + Seq::<Seq<char>>::empty());
    }
    let ghost start = texts(r@);
    let mut rest = names_of(style, s.as_slice());
    let ghost tail = texts(rest@);
    r.append(&mut rest);
    assert(texts(r@) =~= start + tail);
    r
}

/// Whether a path lies under `base` or is `base`.
pub fn is_under(style: PathStyle, path: &str, base: &str) -> (r: bool)
    ensures
        r == under(style, path@, base@),
{
    let a = components_of(style, path);
    let b = components_of(style, base);
    let ghost x = components(style, path@);
    let ghost y = components(style, base@);
    if b.len() > a.len() {
        return false;
    }
    let mut i: usize = 0;
    while i < b.len()
        invariant
            i <= b@.len() <= a@.len(),
            x == components(style, path@),
            y == components(style, base@),
            x == texts(a@),
            y == texts(b@),
            forall|k: int| 0 <= k < i ==> x[k] == #[trigger] y[k],
        decreases b@.len() - i,
    {
        if !same_text(a[i].as_str(), b[i].as_str()) {
            assert(x[i as int] != y[i as int]);
            assert(!y.is_prefix_of(x)) by {
                if y.is_prefix_of(x) {
                    assert(x.subrange(0, y.len() as int)[i as int] == y[i as int]);
                }
            }
            return false;
        }
        i = i + 1;
    }
    assert(x.subrange(0, y.len() as int) =~= y);
    true
}

/// Whether two paths have the same components.
pub fn same_components(style: PathStyle, path: &str, other: &str) -> (r: bool)
    ensures
        r == (components(style, path@) == components(style, other@)),
{
    let a = is_under(style, path, other);
    let b = is_under(style, other, path);
    proof {
        let x = components(style, path@);
        let y = components(style, other@);
        if a && b {
            assert(x.subrange(0, y.len() as int) =~= x);
        }
        if x == y {
            assert(x.subrange(0, x.len() as int) =~= x);
        }
    }
    a && b
}

/// Whether some name of a path is `needle`, up to ASCII case.
pub fn has_component(style: PathStyle, path: &str, needle: &str) -> (r: bool)
    ensures
        r == has_name(style, path@, needle@),
{
    let list = names_of(style, to_chars(path).as_slice());
    let want = to_lower(needle);
    let ghost all = names(style, path@);
    let mut i: usize = 0;
    while i < list.len()
        invariant
            i <= list@.len(),
            all == names(style, path@),
            all == texts(list@),
            want@ == lower(needle@),
            forall|k: int| 0 <= k < i ==> lower(#[trigger] all[k]) != lower(needle@),
        decreases list@.len() - i,
    {
        assert(all[i as int] == list@[i as int]@);
        if same_text(to_lower(list[i].as_str()).as_str(), want.as_str()) {
            return true;
        }
        i = i + 1;
    }
    false
}

fn is_dots(name: &str, count: usize) -> (r: bool)
    requires
        1 <= count <= 2,
    ensures
        r == (name@ == if count == 1 {
            seq!['.']
        } else {
            seq!['.', '.']
        }),
{
    let s = to_chars(name);
    let ghost dots = if count == 1 {
        seq!['.']
    } else {
        seq!['.', '.']
    };
    let r = s.len() == count && s[0] == '.' && s[count - 1] == '.';
    assert(r == (name@ == dots)) by {
        if r {
            assert(name@ =~= dots);
        }
    }
    r
}

fn walk(start: Vec<String>, steps: &Vec<String>) -> (r: Vec<String>)
    ensures
        texts(r@) == walked(texts(start@), texts(steps@)),
{
    let ghost from = texts(start@);
    let ghost all = texts(steps@);
    let mut at = start;
    for i in 0..steps.len()
        invariant
            all == texts(steps@),
            texts(at@) == walked(from, all.take(i as int)),
    {
        let ghost before = at@;
        let step = steps[i].as_str();
        assert(all.take(i + 1).drop_last() == all.take(i as int));
        assert(all.take(i + 1).last() == step@);
        if is_dots(step, 1) {
        } else if is_dots(step, 2) {
            if at.len() > 0 {
                assert(texts(before).last() == before.last()@);
                let last = at[at.len() - 1].as_str();
                if !is_dots(last, 1) && !is_dots(last, 2) {
                    at.pop();
                    assert(texts(at@) =~= texts(before).drop_last());
                }
            }
        } else {
            push_text(&mut at, step.to_owned());
        }
    }
    assert(all.take(all.len() as int) == all);
    at
}

fn verbatim_join(style: PathStyle, base: &[char], rel: &[char]) -> (r: String)
    requires
        verbatim(style, base@),
        rel@.len() > 0,
        prefix_len(style, rel@) == 0,
    ensures
        r@ == join(style, base@, rel@),
{
    let replaced = sep(rel[0]);
    let root = replaced || has_shown_root(style, base);
    let start: Vec<String> = if replaced {
        Vec::new()
    } else {
        names_of(style, base)
    };
    assert(replaced ==> texts(start@) =~= Seq::<Seq<char>>::empty());
    let list = walk(start, &names_of(style, rel));
    let size = prefix_size(style, base);
    let mut r = from_chars(slice_of(base, 0, size).as_slice());
    assert(base@.subrange(0, size as int) =~= base@.take(size as int));
    if root || list.len() > 0 {
        r.push('\\');
        proof {
            reveal_strlit("\\");
            assert("\\"@ =~= seq!['\\']);
        }
        r.append(join_texts(list.as_slice(), "\\").as_str());
    }
    r
}

/// `base` with `rel` behind it.
pub fn join_path(style: PathStyle, base: &str, rel: &str) -> (r: String)
    ensures
        r@ == join(style, base@, rel@),
{
    let b = to_chars(base);
    let t = to_chars(rel);
    if prefix_size(style, t.as_slice()) > 0 {
        return rel.to_owned();
    }
    if is_verbatim(style, b.as_slice()) && t.len() > 0 {
        return verbatim_join(style, b.as_slice(), t.as_slice());
    }
    if t.len() > 0 && is_slash(style, t[0]) {
        let size = prefix_size(style, b.as_slice());
        let mut r = from_chars(slice_of(b.as_slice(), 0, size).as_slice());
        assert(r@ =~= base@.take(size as int));
        r.append(rel);
        return r;
    }
    let mut r = base.to_owned();
    let n: usize = b.len();
    if !(n == 0 || is_slash(style, b[n - 1]) || (n == 2 && prefix_size(style, b.as_slice()) == 2 && b[1] == ':')) {
        r.push(written_slash(style));
    }
    r.append(rel);
    r
}

} // verus!
