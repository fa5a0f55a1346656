//! Text as sequences of characters: ASCII case, trimming, splitting, searching
//! and ordering.
use vstd::prelude::*;

verus! {

/// `String::push` appends one character at the end.
pub assume_specification[ String::push ](s: &mut String, c: char)
    ensures
        final(s)@ == old(s)@.push(c),
;

/// The characters of a text, in order.
pub fn to_chars(s: &str) -> (r: Vec<char>)
    ensures
        r@ == s@,
{
    let mut r: Vec<char> = Vec::new();
    for c in it: s.chars()
        invariant
            r@ == it.seq().take(it.index() as int),
            it.seq() == s@,
    {
        r.push(c);
    }
    r
}

/// The text made of the given characters.
pub fn from_chars(v: &[char]) -> (r: String)
    ensures
        r@ == v@,
{
    let mut r = String::new();
    for i in 0..v.len()
        invariant
            r@ == v@.take(i as int),
    {
        r.push(v[i]);
        assert(v@.take(i + 1) == v@.take(i as int).push(v@[i as int]));
    }
    assert(v@.take(v@.len() as int) == v@);
    r
}

/// Character by character equality.
pub fn same_text(a: &str, b: &str) -> (r: bool)
    ensures
        r == (a@ == b@),
{
    let mut xs = a.chars();
    let mut ys = b.chars();
    let ghost mut i: int = 0;
    loop
        invariant
            0 <= i <= a@.len(),
            0 <= i <= b@.len(),
            vstd::std_specs::iter::IteratorSpec::remaining(&xs) == a@.skip(i),
            vstd::std_specs::iter::IteratorSpec::remaining(&ys) == b@.skip(i),
            vstd::std_specs::iter::IteratorSpec::obeys_prophetic_iter_laws(&xs),
            vstd::std_specs::iter::IteratorSpec::obeys_prophetic_iter_laws(&ys),
            a@.take(i) == b@.take(i),
        decreases a@.len() - i,
    {
        let x = xs.next();
        let y = ys.next();
        match (x, y) {
            (None, None) => {
                assert(a@.take(i) == a@);
                assert(b@.take(i) == b@);
                return true;
            },
            (Some(p), Some(q)) => {
                assert(p == a@[i] && q == b@[i]);
                if p != q {
                    return false;
                }
                proof {
                    assert(a@.take(i + 1) == a@.take(i).push(a@[i]));
                    assert(b@.take(i + 1) == b@.take(i).push(b@[i]));
                    assert(a@.skip(i).drop_first() == a@.skip(i + 1));
                    assert(b@.skip(i).drop_first() == b@.skip(i + 1));
                    i = i + 1;
                }
            },
            _ => {
                return false;
            },
        }
    }
}

// ---------------------------------------------------------------------------
// Order
// ---------------------------------------------------------------------------

/// Strict lexicographic order by code point.
pub open spec fn text_lt(a: Seq<char>, b: Seq<char>) -> bool
    decreases a.len(),
{
    if b.len() == 0 {
        false
    } else if a.len() == 0 {
        true
    } else if a[0] != b[0] {
        a[0] < b[0]
    } else {
        text_lt(a.drop_first(), b.drop_first())
    }
}

/// Lexicographic order by code point.
pub open spec fn text_le(a: Seq<char>, b: Seq<char>) -> bool {
    a == b || text_lt(a, b)
}

/// `text_lt` is irreflexive.
pub proof fn lemma_text_lt_irreflexive(a: Seq<char>)
    ensures
        !text_lt(a, a),
    decreases a.len(),
{
    if a.len() > 0 {
        lemma_text_lt_irreflexive(a.drop_first());
    }
}

/// Two texts are equal or one comes strictly before the other.
pub proof fn lemma_text_lt_total(a: Seq<char>, b: Seq<char>)
    ensures
        a == b || text_lt(a, b) || text_lt(b, a),
    decreases a.len(),
{
    if a.len() == 0 || b.len() == 0 {
        if a.len() == 0 && b.len() == 0 {
            assert(a == b);
        }
    } else if a[0] == b[0] {
        lemma_text_lt_total(a.drop_first(), b.drop_first());
        if a.drop_first() == b.drop_first() {
            assert(a == seq![a[0]] + a.drop_first());
            assert(b == seq![b[0]] + b.drop_first());
        }
    }
}

/// `text_lt` is transitive.
pub proof fn lemma_text_lt_transitive(a: Seq<char>, b: Seq<char>, c: Seq<char>)
    requires
        text_lt(a, b),
        text_lt(b, c),
    ensures
        text_lt(a, c),
    decreases a.len(),
{
    if a.len() > 0 && a[0] == b[0] && b[0] == c[0] {
        lemma_text_lt_transitive(a.drop_first(), b.drop_first(), c.drop_first());
    }
}

/// Two texts cannot both come strictly before each other.
pub proof fn lemma_text_lt_asymmetric(a: Seq<char>, b: Seq<char>)
    requires
        text_lt(a, b),
    ensures
        !text_lt(b, a),
        a != b,
{
    lemma_text_lt_irreflexive(a);
    if text_lt(b, a) {
        lemma_text_lt_transitive(a, b, a);
    }
}

/// Whether `a` comes strictly before `b` by code points.
pub fn text_before(a: &str, b: &str) -> (r: bool)
    ensures
        r == text_lt(a@, b@),
{
    let mut xs = a.chars();
    let mut ys = b.chars();
    let ghost mut i: int = 0;
    loop
        invariant
            0 <= i <= a@.len(),
            0 <= i <= b@.len(),
            vstd::std_specs::iter::IteratorSpec::remaining(&xs) == a@.skip(i),
            vstd::std_specs::iter::IteratorSpec::remaining(&ys) == b@.skip(i),
            vstd::std_specs::iter::IteratorSpec::obeys_prophetic_iter_laws(&xs),
            vstd::std_specs::iter::IteratorSpec::obeys_prophetic_iter_laws(&ys),
            text_lt(a@, b@) == text_lt(a@.skip(i), b@.skip(i)),
        decreases a@.len() - i,
    {
        let x = xs.next();
        let y = ys.next();
        match (x, y) {
            (_, None) => {
                return false;
            },
            (None, Some(_)) => {
                return true;
            },
            (Some(p), Some(q)) => {
                assert(p == a@.skip(i)[0] && q == b@.skip(i)[0]);
                if p != q {
                    return p < q;
                }
                proof {
                    assert(a@.skip(i).drop_first() == a@.skip(i + 1));
                    assert(b@.skip(i).drop_first() == b@.skip(i + 1));
                    i = i + 1;
                }
            },
        }
    }
}

// ---------------------------------------------------------------------------
// ASCII case
// ---------------------------------------------------------------------------

/// ASCII letters in lower case, every other character as it is.
pub open spec fn lower_char(c: char) -> char {
    if 'A' <= c && c <= 'Z' {
        ((c as u32) + 32) as char
    } else {
        c
    }
}

/// `lower_char` on every character.
pub open spec fn lower(s: Seq<char>) -> Seq<char> {
    s.map_values(|c: char| lower_char(c))
}

/// ASCII letters in upper case, every other character as it is.
pub open spec fn upper_char(c: char) -> char {
    if 'a' <= c && c <= 'z' {
        ((c as u32) - 32) as char
    } else {
        c
    }
}

/// The same letter of the ASCII alphabet, one small and one capital.
pub open spec fn letter_pair(a: char, b: char) -> bool {
    ||| 'A' <= a && a <= 'Z' && b as u32 == a as u32 + 32
    ||| 'A' <= b && b <= 'Z' && a as u32 == b as u32 + 32
}

/// Two characters have one lower case exactly where they are the same, or the
/// same ASCII letter; nothing else is changed by it.
pub proof fn law_case_is_of_letters(a: char, b: char)
    ensures
        lower_char(a) == lower_char(b) <==> a == b || letter_pair(a, b),
        !('A' <= a && a <= 'Z') ==> lower_char(a) == a,
{
}

/// The texts are as long, and the same character by character up to the case of
/// ASCII letters.
pub open spec fn reads_as(a: Seq<char>, b: Seq<char>) -> bool {
    a.len() == b.len() && forall|i: int|
        0 <= i < a.len() ==> (#[trigger] a[i] == b[i] || letter_pair(a[i], b[i]))
}

/// Two texts are the same up to case exactly where they are as long and the same
/// character by character, up to the case of ASCII letters.
pub proof fn law_same_up_to_case(a: Seq<char>, b: Seq<char>)
    ensures
        same_fold(a, b) <==> reads_as(a, b),
{
    if same_fold(a, b) {
        assert(lower(a).len() == a.len() && lower(b).len() == b.len());
        assert forall|i: int| 0 <= i < a.len() implies (#[trigger] a[i] == b[i] || letter_pair(
            a[i],
            b[i],
        )) by {
            assert(lower(a)[i] == lower(b)[i]);
            law_case_is_of_letters(a[i], b[i]);
        }
    }
    if reads_as(a, b) {
        assert forall|i: int| 0 <= i < a.len() implies lower(a)[i] == lower(b)[i] by {
            law_case_is_of_letters(a[i], b[i]);
        }
        assert(lower(a) =~= lower(b));
    }
}

/// Lower case of one character.
pub fn to_lower_char(c: char) -> (r: char)
    ensures
        r == lower_char(c),
{
    if 'A' <= c && c <= 'Z' {
        ((c as u8) + 32) as char
    } else {
        c
    }
}

/// Upper case of one character.
pub fn to_upper_char(c: char) -> (r: char)
    ensures
        r == upper_char(c),
{
    if 'a' <= c && c <= 'z' {
        ((c as u8) - 32) as char
    } else {
        c
    }
}

/// A text in ASCII lower case.
pub fn to_lower(s: &str) -> (r: String)
    ensures
        r@ == lower(s@),
{
    let mut r = String::new();
    for c in it: s.chars()
        invariant
            r@ == lower(it.seq().take(it.index() as int)),
            it.seq() == s@,
    {
        r.push(to_lower_char(c));
        assert(it.seq().take(it.index() + 1) == it.seq().take(it.index() as int).push(c));
        assert(lower(it.seq().take(it.index() + 1)) == lower(
            it.seq().take(it.index() as int),
        ).push(lower_char(c)));
    }
    assert(s@.take(s@.len() as int) == s@);
    r
}

// ---------------------------------------------------------------------------
// Trimming
// ---------------------------------------------------------------------------

/// The characters of Unicode's White_Space property.
pub open spec fn is_white(c: char) -> bool {
    let n = c as u32;
    ||| 0x9 <= n <= 0xd
    ||| n == 0x20
    ||| n == 0x85
    ||| n == 0xa0
    ||| n == 0x1680
    ||| 0x2000 <= n <= 0x200a
    ||| n == 0x2028
    ||| n == 0x2029
    ||| n == 0x202f
    ||| n == 0x205f
    ||| n == 0x3000
}

/// Whether a character is white space.
pub fn white(c: char) -> (r: bool)
    ensures
        r == is_white(c),
{
    let n: u32 = c as u32;
    (0x9 <= n && n <= 0xd) || n == 0x20 || n == 0x85 || n == 0xa0 || n == 0x1680 || (0x2000 <= n
        && n <= 0x200a) || n == 0x2028 || n == 0x2029 || n == 0x202f || n == 0x205f || n == 0x3000
}

/// `s` without its leading characters of the given kind.
pub open spec fn trim_front(s: Seq<char>, kind: spec_fn(char) -> bool) -> Seq<char>
    decreases s.len(),
{
    if s.len() > 0 && kind(s[0]) {
        trim_front(s.drop_first(), kind)
    } else {
        s
    }
}

/// `s` without its trailing characters of the given kind.
pub open spec fn trim_back(s: Seq<char>, kind: spec_fn(char) -> bool) -> Seq<char>
    decreases s.len(),
{
    if s.len() > 0 && kind(s.last()) {
        trim_back(s.drop_last(), kind)
    } else {
        s
    }
}

/// `s` without leading and trailing white space.
pub open spec fn trim(s: Seq<char>) -> Seq<char> {
    trim_back(trim_front(s, |c: char| is_white(c)), |c: char| is_white(c))
}

/// A text without leading and trailing white space.
pub fn trimmed(s: &[char]) -> (r: Vec<char>)
    ensures
        r@ == trim(s@),
{
    let ghost kind = |c: char| is_white(c);
    let mut from: usize = 0;
    assert(s@.skip(0) == s@);
    while from < s.len() && white(s[from])
        invariant
            from <= s@.len(),
            trim_front(s@, kind) == trim_front(s@.skip(from as int), kind),
            kind == (|c: char| is_white(c)),
        decreases s@.len() - from,
    {
        assert(s@.skip(from as int).drop_first() == s@.skip(from + 1));
        assert(kind(s@.skip(from as int)[0]));
        from = from + 1;
    }
    assert(trim_front(s@, kind) == s@.skip(from as int)) by {
        if from < s@.len() {
            assert(!kind(s@.skip(from as int)[0]));
        }
    }
    let ghost front = s@.skip(from as int);
    let mut to: usize = s.len();
    assert(s@.subrange(from as int, to as int) == front);
    while to > from && white(s[to - 1])
        invariant
            from <= to <= s@.len(),
            trim_back(front, kind) == trim_back(s@.subrange(from as int, to as int), kind),
            kind == (|c: char| is_white(c)),
        decreases to,
    {
        let ghost cur = s@.subrange(from as int, to as int);
        assert(kind(cur.last()));
        assert(cur.drop_last() == s@.subrange(from as int, to - 1));
        to = to - 1;
    }
    proof {
        let cur = s@.subrange(from as int, to as int);
        if to > from {
            assert(!kind(cur.last()));
        }
        assert(trim_back(front, kind) == cur);
    }
    let mut r: Vec<char> = Vec::new();
    let mut i: usize = from;
    while i < to
        invariant
            from <= i <= to <= s@.len(),
            r@ == s@.subrange(from as int, i as int),
        decreases to - i,
    {
        r.push(s[i]);
        i = i + 1;
        assert(s@.subrange(from as int, i as int) == s@.subrange(from as int, i - 1).push(
            s@[i - 1],
        ));
    }
    r
}

/// A text without leading and trailing white space.
pub fn trim_text(s: &str) -> (r: String)
    ensures
        r@ == trim(s@),
{
    from_chars(trimmed(to_chars(s).as_slice()).as_slice())
}

// ---------------------------------------------------------------------------
// Searching
// ---------------------------------------------------------------------------

/// Whether `part` stands in `s` at position `at`.
pub open spec fn part_at(s: Seq<char>, part: Seq<char>, at: int) -> bool {
    0 <= at && at + part.len() <= s.len() && s.subrange(at, at + part.len()) == part
}

/// Whether `part` occurs in `s`.
pub open spec fn has_part(s: Seq<char>, part: Seq<char>) -> bool {
    exists|at: int| #[trigger] part_at(s, part, at)
}

/// Whether `part` stands in `s` at position `at`.
pub fn stands_at(s: &[char], part: &[char], at: usize) -> (r: bool)
    ensures
        r == part_at(s@, part@, at as int),
{
    if at > s.len() || part.len() > s.len() - at {
        return false;
    }
    let size: usize = s.len();
    let mut i: usize = 0;
    while i < part.len()
        invariant
            i <= part@.len(),
            size == s@.len(),
            at + part@.len() <= size,
            forall|k: int| 0 <= k < i ==> s@[at + k] == part@[k],
        decreases part@.len() - i,
    {
        if s[at + i] != part[i] {
            assert(s@.subrange(at as int, at + part@.len())[i as int] != part@[i as int]);
            return false;
        }
        i = i + 1;
    }
    assert(s@.subrange(at as int, at + part@.len()) =~= part@);
    true
}

/// Whether `part` occurs in `s`.
pub fn contains_part(s: &[char], part: &[char]) -> (r: bool)
    ensures
        r == has_part(s@, part@),
{
    if part.len() > s.len() {
        return false;
    }
    let last: usize = s.len() - part.len();
    let mut at: usize = 0;
    loop
        invariant
            at <= last,
            last == s@.len() - part@.len(),
            forall|k: int| 0 <= k < at ==> !part_at(s@, part@, k),
        decreases last - at,
    {
        if stands_at(s, part, at) {
            return true;
        }
        if at == last {
            return false;
        }
        at = at + 1;
    }
}

/// Whether a text begins with `head`.
pub open spec fn begins(s: Seq<char>, head: Seq<char>) -> bool {
    part_at(s, head, 0)
}

/// Whether a text begins with `head`.
pub fn begins_with(s: &str, head: &str) -> (r: bool)
    ensures
        r == begins(s@, head@),
{
    stands_at(to_chars(s).as_slice(), to_chars(head).as_slice(), 0)
}

/// Whether `part` occurs in a text.
pub fn text_contains(s: &str, part: &str) -> (r: bool)
    ensures
        r == has_part(s@, part@),
{
    contains_part(to_chars(s).as_slice(), to_chars(part).as_slice())
}

/// Equality up to ASCII case.
pub open spec fn same_fold(a: Seq<char>, b: Seq<char>) -> bool {
    lower(a) == lower(b)
}

/// Equality up to ASCII case.
pub fn same_ignoring_case(a: &str, b: &str) -> (r: bool)
    ensures
        r == same_fold(a@, b@),
{
    same_text(to_lower(a).as_str(), to_lower(b).as_str())
}

// ---------------------------------------------------------------------------
// Splitting
// ---------------------------------------------------------------------------

/// The pieces of `s` between the characters of the given kind; empty pieces
/// are kept, so there is always at least one.
pub open spec fn pieces(s: Seq<char>, kind: spec_fn(char) -> bool) -> Seq<Seq<char>>
    decreases s.len(),
{
    if s.len() == 0 {
        seq![Seq::empty()]
    } else {
        let before = pieces(s.drop_last(), kind);
        if kind(s.last()) {
            before.push(Seq::empty())
        } else {
            before.drop_last().push(before.last().push(s.last()))
        }
    }
}

/// There is at least one piece.
pub proof fn lemma_pieces_nonempty(s: Seq<char>, kind: spec_fn(char) -> bool)
    ensures
        pieces(s, kind).len() >= 1,
    decreases s.len(),
{
    if s.len() > 0 {
        lemma_pieces_nonempty(s.drop_last(), kind);
    }
}

/// The pieces that hold at least one character.
pub open spec fn full_pieces(parts: Seq<Seq<char>>) -> Seq<Seq<char>>
    decreases parts.len(),
{
    if parts.len() == 0 {
        Seq::empty()
    } else if parts.last().len() == 0 {
        full_pieces(parts.drop_last())
    } else {
        full_pieces(parts.drop_last()).push(parts.last())
    }
}

/// The parts with `sep` between each two.
pub open spec fn joined(parts: Seq<Seq<char>>, sep: Seq<char>) -> Seq<char>
    decreases parts.len(),
{
    if parts.len() == 0 {
        Seq::empty()
    } else if parts.len() == 1 {
        parts[0]
    } else {
        joined(parts.drop_last(), sep) + sep + parts.last()
    }
}

/// The views of a list of texts.
pub open spec fn texts(list: Seq<String>) -> Seq<Seq<char>> {
    list.map_values(|s: String| s@)
}

/// The texts with `sep` between each two.
pub fn join_texts(parts: &[String], sep: &str) -> (r: String)
    ensures
        r@ == joined(texts(parts@), sep@),
{
    let mut r = String::new();
    let ghost all = texts(parts@);
    for i in 0..parts.len()
        invariant
            all == texts(parts@),
            r@ == joined(all.take(i as int), sep@),
    {
        if i > 0 {
            r.append(sep);
        }
        r.append(parts[i].as_str());
        assert(all.take(i + 1).drop_last() == all.take(i as int));
        assert(all.take(i + 1).last() == parts@[i as int]@);
    }
    assert(all.take(parts@.len() as int) == all);
    r
}

/// Appends a text to a list.
pub fn push_text(list: &mut Vec<String>, text: String)
    ensures
        texts(final(list)@) == texts(old(list)@).push(text@),
        final(list)@.len() == old(list)@.len() + 1,
{
    let ghost before = texts(list@);
    list.push(text);
    assert(texts(list@) =~= before.push(text@));
}

/// A kind of character.
pub trait Kind {
    spec fn of(c: char) -> bool;

    fn is(c: char) -> (r: bool)
        ensures
            r == Self::of(c),
    ;
}

/// White space.
pub struct White;

impl Kind for White {
    open spec fn of(c: char) -> bool {
        is_white(c)
    }

    fn is(c: char) -> bool {
        white(c)
    }
}

/// The line feed.
pub struct LineFeed;

impl Kind for LineFeed {
    open spec fn of(c: char) -> bool {
        c == '\n'
    }

    fn is(c: char) -> bool {
        c == '\n'
    }
}

/// The pieces between characters of a kind, empty ones included.
pub fn split<K: Kind>(s: &str) -> (r: Vec<String>)
    ensures
        texts(r@) == pieces(s@, |c: char| K::of(c)),
        r@.len() >= 1,
{
    let chars = to_chars(s);
    let ghost kind = |c: char| K::of(c);
    let mut done: Vec<String> = Vec::new();
    let mut cur: Vec<char> = Vec::new();
    assert(chars@.take(0) =~= Seq::<char>::empty());
    assert(texts(done@) =~= Seq::<Seq<char>>::empty());
    assert(pieces(Seq::<char>::empty(), kind) =~= texts(done@).push(cur@));
    for i in 0..chars.len()
        invariant
            kind == (|c: char| K::of(c)),
            pieces(chars@.take(i as int), kind) == texts(done@).push(cur@),
    {
        let c = chars[i];
        assert(chars@.take(i + 1).drop_last() =~= chars@.take(i as int));
        assert(chars@.take(i + 1).last() == c);
        let ghost before = texts(done@);
        let ghost part = cur@;
        if K::is(c) {
            let piece = from_chars(cur.as_slice());
            done.push(piece);
            assert(texts(done@) =~= before.push(part));
            cur = Vec::new();
            assert(pieces(chars@.take(i + 1), kind) =~= texts(done@).push(cur@));
        } else {
            cur.push(c);
            assert(before.push(part).drop_last() =~= before);
            assert(pieces(chars@.take(i + 1), kind) =~= texts(done@).push(cur@));
        }
    }
    assert(chars@.take(chars@.len() as int) =~= chars@);
    let ghost before = texts(done@);
    let last = from_chars(cur.as_slice());
    done.push(last);
    assert(texts(done@) =~= before.push(cur@));
    done
}

/// The words of a text: what stands between white space.
pub open spec fn words(s: Seq<char>) -> Seq<Seq<char>> {
    full_pieces(pieces(s, |c: char| White::of(c)))
}

/// The words of a text.
pub fn split_words(s: &str) -> (r: Vec<String>)
    ensures
        texts(r@) == words(s@),
{
    let parts = split::<White>(s);
    let ghost all = texts(parts@);
    let mut kept: Vec<String> = Vec::new();
    assert(texts(kept@) =~= Seq::<Seq<char>>::empty());
    for i in 0..parts.len()
        invariant
            all == texts(parts@),
            texts(kept@) == full_pieces(all.take(i as int)),
    {
        assert(all.take(i + 1).drop_last() =~= all.take(i as int));
        assert(all.take(i + 1).last() == parts@[i as int]@);
        let ghost before = texts(kept@);
        if !same_text(parts[i].as_str(), "") {
            assert(parts@[i as int]@.len() > 0) by {
                reveal_strlit("");
                if parts@[i as int]@.len() == 0 {
                    assert(parts@[i as int]@ =~= ""@);
                }
            }
            kept.push(parts[i].clone());
            assert(texts(kept@) =~= before.push(parts@[i as int]@));
        } else {
            proof {
                reveal_strlit("");
            }
        }
    }
    assert(all.take(parts@.len() as int) =~= all);
    kept
}

/// A line without the carriage return at its end.
pub open spec fn without_return(line: Seq<char>) -> Seq<char> {
    if line.len() > 0 && line.last() == '\r' {
        line.drop_last()
    } else {
        line
    }
}

/// The lines of a text. A line ends with a line feed, a carriage return before
/// it belongs to the end; the last line may lack it.
pub open spec fn lines(s: Seq<char>) -> Seq<Seq<char>> {
    let parts = pieces(s, |c: char| LineFeed::of(c));
    let ended = parts.drop_last().map_values(|line: Seq<char>| without_return(line));
    if parts.last().len() == 0 {
        ended
    } else {
        ended.push(parts.last())
    }
}

/// The lines of a text.
pub fn lines_of(s: &str) -> (r: Vec<String>)
    ensures
        texts(r@) == lines(s@),
{
    let parts = split::<LineFeed>(s);
    let ghost all = texts(parts@);
    let ghost ended = all.drop_last().map_values(|line: Seq<char>| without_return(line));
    let mut list: Vec<String> = Vec::new();
    assert(texts(list@) =~= ended.take(0));
    let count: usize = parts.len() - 1;
    for i in 0..count
        invariant
            count == parts@.len() - 1,
            all == texts(parts@),
            ended == all.drop_last().map_values(|line: Seq<char>| without_return(line)),
            texts(list@) == ended.take(i as int),
    {
        let ghost before = texts(list@);
        let mut chars = to_chars(parts[i].as_str());
        if chars.len() > 0 && chars[chars.len() - 1] == '\r' {
            chars.pop();
        }
        assert(chars@ =~= ended[i as int]);
        let line = from_chars(chars.as_slice());
        list.push(line);
        assert(texts(list@) =~= before.push(line@));
        assert(ended.take(i + 1) =~= ended.take(i as int).push(ended[i as int]));
    }
    assert(ended.take(count as int) =~= ended);
    assert(all.last() == parts@[count as int]@);
    if !same_text(parts[count].as_str(), "") {
        assert(all.last().len() > 0) by {
            reveal_strlit("");
            if all.last().len() == 0 {
                assert(all.last() =~= ""@);
            }
        }
        let ghost before = texts(list@);
        list.push(parts[count].clone());
        assert(texts(list@) =~= before.push(all.last()));
    } else {
        proof {
            reveal_strlit("");
        }
    }
    list
}

/// Whether nothing but white space stands in the text.
pub fn is_blank(s: &str) -> (r: bool)
    ensures
        r == (trim(s@).len() == 0),
{
    trimmed(to_chars(s).as_slice()).len() == 0
}

} // verus!
