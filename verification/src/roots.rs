//! Scan roots: which there are, whether they match, and how large their volumes are.
use crate::error::{refuse, CliError};
use crate::names::NameMap;
use crate::scan::plus;
use crate::text::{from_chars, lower, same_text, texts, to_chars, to_lower, trim_back};
use crate::paths::{is_sep, sep, slice_of};
use vstd::prelude::*;

verus! {

// ---------------------------------------------------------------------------
// Drives
// ---------------------------------------------------------------------------

/// The root of the drive with the given number: `A:\` is the first.
pub open spec fn drive_root(i: int) -> Seq<char> {
    seq![(('A' as u32) + i) as char, ':', '\\']
}

/// The roots of all drives.
pub open spec fn drive_roots() -> Seq<Seq<char>> {
    Seq::new(26, |i: int| drive_root(i))
}

/// The roots of all drives, there or not.
pub fn possible_drives() -> (r: Vec<String>)
    ensures
        texts(r@) == drive_roots(),
{
    let mut out: Vec<String> = Vec::new();
    assert(texts(out@) =~= drive_roots().take(0));
    for i in 0..26u8
        invariant
            texts(out@) =~= drive_roots().take(i as int),
            out@.len() == i,
    {
        let mut root = String::new();
        root.push(('A' as u8 + i) as char);
        root.push(':');
        root.push('\\');
        assert(root@ =~= drive_root(i as int));
        let ghost before = texts(out@);
        out.push(root);
        assert(texts(out@) =~= before.push(root@));
    }
    assert(drive_roots().take(26) =~= drive_roots());
    out
}

/// The drives that are there, in order.
pub open spec fn present_drives(present: Seq<bool>) -> Seq<Seq<char>>
    decreases present.len(),
{
    if present.len() == 0 {
        Seq::empty()
    } else if present.last() {
        present_drives(present.drop_last()).push(drive_root(present.len() - 1))
    } else {
        present_drives(present.drop_last())
    }
}

/// The drives to scan where no path is given; `present` says of each possible
/// drive whether it is there.
pub fn discover_default_roots(present: &Vec<bool>) -> (r: Result<Vec<String>, CliError>)
    requires
        present@.len() == 26,
    ensures
        match r {
            Ok(roots) => roots@.len() > 0 && texts(roots@) == present_drives(present@),
            Err(e) => present_drives(present@).len() == 0 && e.says(
                "no fixed local drives were discovered"@,
            ),
        },
{
    let drives = possible_drives();
    assert(texts(drives@).len() == drives@.len());
    let mut roots: Vec<String> = Vec::new();
    assert(texts(roots@) =~= Seq::<Seq<char>>::empty());
    for i in 0..26usize
        invariant
            present@.len() == 26,
            texts(drives@) == drive_roots(),
            drives@.len() == 26,
            texts(roots@) == present_drives(present@.take(i as int)),
    {
        assert(present@.take(i + 1).drop_last() == present@.take(i as int));
        let ghost before = texts(roots@);
        if present[i] {
            assert(texts(drives@)[i as int] == drives@[i as int]@);
            roots.push(drives[i].clone());
            assert(texts(roots@) =~= before.push(drive_root(i as int)));
        }
    }
    assert(present@.take(26) == present@);
    assert(texts(roots@).len() == roots@.len());
    if roots.len() == 0 {
        return Err(refuse("no fixed local drives were discovered"));
    }
    Ok(roots)
}

// ---------------------------------------------------------------------------
// Matching
// ---------------------------------------------------------------------------

/// A root as it is compared: without separators at its end, in lower case.
pub open spec fn root_key(path: Seq<char>) -> Seq<char> {
    lower(trim_back(path, |c: char| is_sep(c)))
}

/// A root as it is compared.
pub fn normalize_root_for_compare(path: &str) -> (r: String)
    ensures
        r@ == root_key(path@),
{
    let chars = to_chars(path);
    let ghost kind = |c: char| is_sep(c);
    let mut end: usize = chars.len();
    assert(chars@.take(end as int) == chars@);
    while end > 0 && sep(chars[end - 1])
        invariant
            end <= chars@.len(),
            kind == (|c: char| is_sep(c)),
            trim_back(chars@, kind) == trim_back(chars@.take(end as int), kind),
        decreases end,
    {
        assert(chars@.take(end as int).drop_last() == chars@.take(end - 1));
        assert(chars@.take(end as int).last() == chars@[end - 1]);
        end -= 1;
    }
    let body = slice_of(chars.as_slice(), 0, end);
    assert(body@ =~= chars@.take(end as int));
    assert(body@ == trim_back(chars@, kind)) by {
        if end > 0 {
            assert(chars@.take(end as int).last() == chars@[end - 1]);
        }
    }
    to_lower(from_chars(body.as_slice()).as_str())
}

/// The roots as they are compared.
pub open spec fn root_keys(roots: Seq<Seq<char>>) -> Set<Seq<char>> {
    Set::new(|k: Seq<char>| exists|i: int| 0 <= i < roots.len() && k == root_key(#[trigger] roots[i]))
}

/// As many roots, and the same ones.
pub open spec fn same_roots(a: Seq<Seq<char>>, b: Seq<Seq<char>>) -> bool {
    a.len() == b.len() && root_keys(a) == root_keys(b)
}

fn all_among(a: &Vec<String>, b: &Vec<String>) -> (r: bool)
    ensures
        r == root_keys(texts(a@)).subset_of(root_keys(texts(b@))),
{
    let ghost x = texts(a@);
    let ghost y = texts(b@);
    for i in 0..a.len()
        invariant
            x == texts(a@),
            y == texts(b@),
            forall|k: int| 0 <= k < i ==> root_keys(y).contains(root_key(#[trigger] x[k])),
    {
        let key = normalize_root_for_compare(a[i].as_str());
        assert(x[i as int] == a@[i as int]@);
        let mut found = false;
        for j in 0..b.len()
            invariant
                y == texts(b@),
                found ==> root_keys(y).contains(key@),
                !found ==> forall|k: int| 0 <= k < j ==> root_key(#[trigger] y[k]) != key@,
        {
            assert(y[j as int] == b@[j as int]@);
            if !found && same_text(normalize_root_for_compare(b[j].as_str()).as_str(), key.as_str()) {
                found = true;
                assert(root_keys(y).contains(key@));
            }
        }
        if !found {
            assert(root_keys(x).contains(key@));
            assert(!root_keys(y).contains(key@));
            return false;
        }
    }
    assert forall|k: Seq<char>| root_keys(x).contains(k) implies root_keys(y).contains(k) by {
        let i = choose|i: int| 0 <= i < x.len() && k == root_key(#[trigger] x[i]);
        assert(root_keys(y).contains(root_key(x[i])));
    }
    true
}

/// Whether the requested roots are those of the cached scan, in any order. Each
/// path is given as the file system spells it.
pub fn roots_match(requested_roots: &Vec<String>, cached_roots: &Vec<String>) -> (r: bool)
    ensures
        r == same_roots(texts(requested_roots@), texts(cached_roots@)),
{
    if requested_roots.len() != cached_roots.len() {
        return false;
    }
    let forth = all_among(requested_roots, cached_roots);
    let back = all_among(cached_roots, requested_roots);
    proof {
        let x = root_keys(texts(requested_roots@));
        let y = root_keys(texts(cached_roots@));
        if forth && back {
            assert(x =~= y);
        }
    }
    forth && back
}

/// The order of the roots does not matter.
pub proof fn law_roots_match_in_any_order(a: Seq<Seq<char>>, b: Seq<Seq<char>>)
    requires
        a.to_multiset() == b.to_multiset(),
    ensures
        same_roots(a, b),
{
    a.to_multiset_ensures();
    b.to_multiset_ensures();
    assert forall|k: Seq<char>| root_keys(a).contains(k) <==> root_keys(b).contains(k) by {
        if root_keys(a).contains(k) {
            let i = choose|i: int| 0 <= i < a.len() && k == root_key(#[trigger] a[i]);
            assert(a.to_multiset().contains(a[i]));
            assert(b.contains(a[i]));
            let j = choose|j: int| 0 <= j < b.len() && b[j] == a[i];
            assert(k == root_key(b[j]));
        }
        if root_keys(b).contains(k) {
            let i = choose|i: int| 0 <= i < b.len() && k == root_key(#[trigger] b[i]);
            assert(b.to_multiset().contains(b[i]));
            assert(a.contains(b[i]));
            let j = choose|j: int| 0 <= j < a.len() && a[j] == b[i];
            assert(k == root_key(a[j]));
        }
    }
    assert(root_keys(a) =~= root_keys(b));
}

/// Matching goes both ways.
pub proof fn law_roots_match_both_ways(a: Seq<Seq<char>>, b: Seq<Seq<char>>)
    ensures
        same_roots(a, b) == same_roots(b, a),
{
}

// ---------------------------------------------------------------------------
// Capacity
// ---------------------------------------------------------------------------

/// A volume and how much it holds, where that is known.
pub open spec fn volume_views(list: Seq<Option<(String, u64)>>) -> Seq<Option<(Seq<char>, u64)>> {
    list.map_values(
        |v: Option<(String, u64)>|
            match v {
                Some((name, size)) => Some((name@, size)),
                None => None,
            },
    )
}

/// Some entry of the list is the volume.
pub open spec fn seen(list: Seq<Option<(Seq<char>, u64)>>, name: Seq<char>) -> bool {
    exists|i: int| 0 <= i < list.len() && (#[trigger] list[i] matches Some((n, _)) && n == name)
}

/// What the volumes hold together, each counted once, at its first mention.
/// Nothing where no volume is known.
pub open spec fn capacity(list: Seq<Option<(Seq<char>, u64)>>) -> Option<u64>
    decreases list.len(),
{
    if list.len() == 0 {
        None
    } else {
        let before = capacity(list.drop_last());
        match list.last() {
            Some((name, size)) => if seen(list.drop_last(), name) {
                before
            } else {
                match before {
                    Some(total) => Some(plus(total, size)),
                    None => Some(size),
                }
            },
            None => before,
        }
    }
}

/// What the volumes of the roots hold together, each counted once.
pub fn total_capacity_for_roots(volumes: &Vec<Option<(String, u64)>>) -> (r: Option<u64>)
    ensures
        r == capacity(volume_views(volumes@)),
{
    let ghost list = volume_views(volumes@);
    let mut names: NameMap<()> = NameMap::new();
    let mut total: Option<u64> = None;
    assert(list.take(0) == Seq::<Option<(Seq<char>, u64)>>::empty());
    for i in 0..volumes.len()
        invariant
            names.wf(),
            list == volume_views(volumes@),
            total == capacity(list.take(i as int)),
            forall|name: Seq<char>| #[trigger]
                names.map().contains_key(name) <==> seen(list.take(i as int), name),
    {
        let ghost now = list.take(i as int);
        let ghost next = list.take(i + 1);
        assert(next.drop_last() == now);
        assert(next.last() == list[i as int]);
        proof {
            assert forall|name: Seq<char>| seen(next, name) <==> seen(now, name) || (
            list[i as int] matches Some((n, _)) && n == name) by {
                if seen(now, name) {
                    let k = choose|k: int|
                        0 <= k < now.len() && (#[trigger] now[k] matches Some((n, _)) && n == name);
                    assert(next[k] == now[k]);
                }
                if list[i as int] matches Some((n, _)) && n == name {
                    assert(next[i as int] == list[i as int]);
                }
                if seen(next, name) {
                    let k = choose|k: int|
                        0 <= k < next.len() && (#[trigger] next[k] matches Some((n, _)) && n
                            == name);
                    if k < i {
                        assert(now[k] == next[k]);
                    }
                }
            }
        }
        if let Some((name, size)) = &volumes[i] {
            assert(list[i as int] == Some((name@, *size)));
            if !names.contains_key(name.as_str()) {
                total = match total {
                    Some(sum) => Some(sum.saturating_add(*size)),
                    None => Some(*size),
                };
                names.insert(name.clone(), ());
            }
        }
    }
    assert(list.take(list.len() as int) == list);
    total
}

// ---------------------------------------------------------------------------
// Size on disk
// ---------------------------------------------------------------------------

/// The attributes of a file whose content is elsewhere: offline, or fetched
/// when it is opened or read.
pub open spec fn placeholder(attributes: u32) -> bool {
    attributes & 0x0044_1000 != 0
}

/// Whether the attributes are those of a file whose content is elsewhere.
pub fn cloud_placeholder_attributes(attributes: u32) -> (r: bool)
    ensures
        r == placeholder(attributes),
{
    let offline: u32 = 0x0000_1000;
    let recall_on_open: u32 = 0x0004_0000;
    let recall_on_data_access: u32 = 0x0040_0000;
    assert(0x0000_1000u32 | 0x0004_0000u32 | 0x0040_0000u32 == 0x0044_1000u32) by (bit_vector);
    attributes & (offline | recall_on_open | recall_on_data_access) != 0
}

/// What a file takes on disk, from its attributes where they could be read: a
/// placeholder takes nothing. Nothing is said of any other file.
pub fn placeholder_size(attributes: u32) -> (r: Option<u64>)
    ensures
        r == if attributes != u32::MAX && placeholder(attributes) {
            Some(0u64)
        } else {
            None
        },
{
    if attributes != u32::MAX && cloud_placeholder_attributes(attributes) {
        Some(0)
    } else {
        None
    }
}

/// What a file takes on disk, from the two halves of the number and the error
/// code. The low half is also the sign of an error.
pub fn compressed_size(low: u32, high: u32, last_error: u32) -> (r: Option<u64>)
    ensures
        r == if low == u32::MAX && last_error != 0 {
            None
        } else {
            Some((high * 0x1_0000_0000 + low) as u64)
        },
{
    if low == u32::MAX && last_error != 0 {
        None
    } else {
        Some((high as u64) * 0x1_0000_0000 + (low as u64))
    }
}

} // verus!
