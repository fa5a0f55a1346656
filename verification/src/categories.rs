//! Category rules: which category a file belongs to.
use crate::config::{FileRead, CATEGORY_CONFIG_VERSION};
use crate::error::CliError;
use crate::names::{
    in_name_order, increasing, lemma_in_name_order, lemma_increasing_insert, NameMap,
};
use crate::numbers::{hex, lemma_hex_of_words, push_hex};
use crate::snapshot::{copy_text, Snapshot};
use crate::sums::{lemma_sum_append, sum_of};
use crate::text::{
    contains_part, from_chars, full_pieces, has_part, join_texts, joined, law_same_up_to_case, lower,
    pieces, reads_as, same_text,
    split, texts, to_chars, to_lower, trim, trim_front, trim_text, Kind,
};
use crate::paths::{
    extension, extension_of, has_component, has_name, is_sep, names, sep, PathStyle,
};
use vstd::prelude::*;
use vstd::utf8::{encode_utf8, is_ascii_chars, is_ascii_chars_encode_utf8};

verus! {

// ---------------------------------------------------------------------------
// Normal forms
// ---------------------------------------------------------------------------

/// An extension without white space around it and dots before it, in lower case.
pub open spec fn normal_extension(s: Seq<char>) -> Seq<char> {
    lower(trim_front(trim(s), |c: char| c == '.'))
}

/// An extension without white space around it and dots before it, in lower case.
pub fn normalize_extension(extension: &str) -> (r: String)
    ensures
        r@ == normal_extension(extension@),
{
    let body = trim_text(extension);
    let chars = to_chars(body.as_str());
    let ghost kind = |c: char| c == '.';
    let mut start: usize = 0;
    assert(chars@.skip(0) == chars@);
    while start < chars.len() && chars[start] == '.'
        invariant
            start <= chars@.len(),
            kind == (|c: char| c == '.'),
            trim_front(chars@, kind) == trim_front(chars@.skip(start as int), kind),
        decreases chars@.len() - start,
    {
        assert(chars@.skip(start as int)[0] == chars@[start as int]);
        assert(chars@.skip(start as int).drop_first() == chars@.skip(start + 1));
        start += 1;
    }
    let rest = crate::paths::slice_of(chars.as_slice(), start, chars.len());
    assert(rest@ == chars@.skip(start as int));
    assert(rest@ == trim_front(chars@, kind)) by {
        if start < chars@.len() {
            assert(chars@.skip(start as int)[0] == chars@[start as int]);
        }
    }
    to_lower(from_chars(rest.as_slice()).as_str())
}

/// Path separators.
pub struct Separator;

impl Kind for Separator {
    open spec fn of(c: char) -> bool {
        is_sep(c)
    }

    fn is(c: char) -> bool {
        sep(c)
    }
}

/// The names of a path fragment with `/` between them, in lower case.
pub open spec fn normal_fragment(s: Seq<char>) -> Seq<char> {
    lower(joined(full_pieces(pieces(trim(s), |c: char| Separator::of(c))), "/"@))
}

/// The names of a path fragment with `/` between them, in lower case.
pub fn normalize_path_fragment(fragment: &str) -> (r: String)
    ensures
        r@ == normal_fragment(fragment@),
{
    let body = trim_text(fragment);
    let parts = split::<Separator>(body.as_str());
    let ghost all = texts(parts@);
    let mut kept: Vec<String> = Vec::new();
    assert(texts(kept@) =~= Seq::<Seq<char>>::empty());
    for i in 0..parts.len()
        invariant
            all == texts(parts@),
            texts(kept@) == full_pieces(all.take(i as int)),
    {
        assert(all.take(i + 1).drop_last() =~= all.take(i as int));
        assert(all.take(i + 1).last() == parts@[i as int]@);
        let ghost before = texts(kept@);
        if !parts[i].as_str().is_empty() {
            kept.push(parts[i].clone());
            assert(texts(kept@) =~= before.push(parts@[i as int]@));
        }
    }
    assert(all.take(parts@.len() as int) =~= all);
    to_lower(join_texts(kept.as_slice(), "/").as_str())
}

// ---------------------------------------------------------------------------
// Configuration
// ---------------------------------------------------------------------------

/// The configured rules: extensions and path fragments by category. Without
/// path rules the built-in ones hold.
#[derive(Debug, PartialEq, Eq)]
pub struct CategoryConfig {
    pub version: u32,
    pub categories: NameMap<Vec<String>>,
    pub path_rules: Option<NameMap<Vec<String>>>,
}

/// Lists by name, texts by their characters.
pub type Lists = Map<Seq<char>, Seq<Seq<char>>>;

/// The lists of a map.
pub open spec fn lists(map: Map<Seq<char>, Vec<String>>) -> Lists {
    map.map_values(|v: Vec<String>| texts(v@))
}

impl CategoryConfig {
    /// The maps are in order.
    pub open spec fn wf(&self) -> bool {
        &&& self.categories.wf()
        &&& self.path_rules matches Some(rules) ==> rules.wf()
    }
}

/// The escaped form of a text in double quotes.
pub uninterp spec fn quoted(s: Seq<char>) -> Seq<char>;

/// Calls the `Debug` formatting of `str` and gives its result the name `quoted`.
#[verifier::external_body]
fn quoted_text(s: &str) -> (r: String)
    ensures
        r@ == quoted(s@),
{
    format!("{s:?}")
}

/// A kind of rule: how its items are written, and how it is refused.
pub trait Rule {
    /// The normal form of an item.
    spec fn normal(s: Seq<char>) -> Seq<char>;

    /// The refusal of a category without a name.
    spec fn unnamed() -> Seq<char>;

    /// The refusal of an item in two categories.
    spec fn clash(item: Seq<char>, previous: Seq<char>, category: Seq<char>) -> Seq<char>;

    fn normalize(s: &str) -> (r: String)
        ensures
            r@ == Self::normal(s@),
    ;

    fn unnamed_text() -> (r: String)
        ensures
            r@ == Self::unnamed(),
    ;

    fn clash_text(item: &str, previous: &str, category: &str) -> (r: String)
        ensures
            r@ == Self::clash(item@, previous@, category@),
    ;
}

/// Rules by file extension.
pub struct ExtensionRule;

impl Rule for ExtensionRule {
    open spec fn normal(s: Seq<char>) -> Seq<char> {
        normal_extension(s)
    }

    open spec fn unnamed() -> Seq<char> {
        "category config contains an empty category name"@
    }

    open spec fn clash(item: Seq<char>, previous: Seq<char>, category: Seq<char>) -> Seq<char> {
        "category config assigns ."@ + item + " to both "@ + previous + " and "@ + category
    }

    fn normalize(s: &str) -> String {
        normalize_extension(s)
    }

    fn unnamed_text() -> String {
        "category config contains an empty category name".to_owned()
    }

    fn clash_text(item: &str, previous: &str, category: &str) -> String {
        "category config assigns .".to_owned().concat(item).concat(" to both ").concat(
            previous,
        ).concat(" and ").concat(category)
    }
}

/// Rules by a fragment of the path.
pub struct FragmentRule;

impl Rule for FragmentRule {
    open spec fn normal(s: Seq<char>) -> Seq<char> {
        normal_fragment(s)
    }

    open spec fn unnamed() -> Seq<char> {
        "category config contains an empty path rule category name"@
    }

    open spec fn clash(item: Seq<char>, previous: Seq<char>, category: Seq<char>) -> Seq<char> {
        "category config assigns path rule "@ + quoted(item) + " to both "@ + previous + " and "@
            + category
    }

    fn normalize(s: &str) -> String {
        normalize_path_fragment(s)
    }

    fn unnamed_text() -> String {
        "category config contains an empty path rule category name".to_owned()
    }

    fn clash_text(item: &str, previous: &str, category: &str) -> String {
        "category config assigns path rule ".to_owned().concat(quoted_text(item).as_str()).concat(
            " to both ",
        ).concat(previous).concat(" and ").concat(category)
    }
}

/// The normal forms of the items, empty ones left out.
pub open spec fn normal_set<R: Rule>(items: Seq<Seq<char>>) -> Set<Seq<char>> {
    Set::new(
        |x: Seq<char>|
            x.len() > 0 && exists|i: int| 0 <= i < items.len() && x == R::normal(#[trigger] items[i]),
    )
}

/// The normal forms of the items in order, each once.
pub open spec fn canonical<R: Rule>(items: Seq<Seq<char>>) -> Seq<Seq<char>> {
    in_name_order(normal_set::<R>(items))
}

/// What has been made of a configuration's lists so far: which category owns
/// which item, the canonical list of each category, or why it is refused.
pub struct Grouping {
    pub owners: Map<Seq<char>, Seq<char>>,
    pub lists: Lists,
    pub refused: Option<Seq<char>>,
}

/// The first item from `from` on that has an owner, the length where none has.
pub open spec fn first_owned(
    items: Seq<Seq<char>>,
    owners: Map<Seq<char>, Seq<char>>,
    from: int,
) -> int
    decreases items.len() - from,
{
    if from >= items.len() || owners.contains_key(items[from]) {
        from
    } else {
        first_owned(items, owners, from + 1)
    }
}

/// The owners once the category owns the items too.
pub open spec fn owned(
    owners: Map<Seq<char>, Seq<char>>,
    items: Seq<Seq<char>>,
    category: Seq<char>,
) -> Map<Seq<char>, Seq<char>> {
    Map::new(
        |k: Seq<char>| owners.contains_key(k) || items.contains(k),
        |k: Seq<char>|
            if items.contains(k) {
                category
            } else {
                owners[k]
            },
    )
}

/// The grouping with one more name.
pub open spec fn grouped_one<R: Rule>(
    so_far: Grouping,
    name: Seq<char>,
    items: Seq<Seq<char>>,
) -> Grouping {
    let category = trim(name);
    let list = canonical::<R>(items);
    let i = first_owned(list, so_far.owners, 0);
    if so_far.refused is Some {
        so_far
    } else if category.len() == 0 {
        Grouping { refused: Some(R::unnamed()), ..so_far }
    } else if i < list.len() {
        Grouping {
            refused: Some(R::clash(list[i], so_far.owners[list[i]], category)),
            ..so_far
        }
    } else {
        Grouping {
            owners: owned(so_far.owners, list, category),
            lists: so_far.lists.insert(category, list),
            refused: None,
        }
    }
}

/// The grouping of the lists of the names, one after the other.
pub open spec fn grouped<R: Rule>(names: Seq<Seq<char>>, raw: Lists) -> Grouping
    decreases names.len(),
{
    if names.len() == 0 {
        Grouping { owners: Map::empty(), lists: Map::empty(), refused: None }
    } else {
        grouped_one::<R>(grouped::<R>(names.drop_last(), raw), names.last(), raw[names.last()])
    }
}

/// The grouping of all lists, in the order of their names.
pub open spec fn grouping<R: Rule>(raw: Lists) -> Grouping {
    grouped::<R>(in_name_order(raw.dom()), raw)
}

fn canonical_list<R: Rule>(items: &Vec<String>) -> (r: Vec<String>)
    ensures
        texts(r@) == canonical::<R>(texts(items@)),
        increasing(texts(r@)),
{
    let ghost raw = texts(items@);
    let mut set: NameMap<()> = NameMap::new();
    for i in 0..items.len()
        invariant
            set.wf(),
            raw == texts(items@),
            set.map().dom() =~= normal_set::<R>(raw.take(i as int)),
    {
        let item = R::normalize(items[i].as_str());
        let ghost now = raw.take(i as int);
        let ghost next = raw.take(i + 1);
        assert(next[i as int] == raw[i as int]);
        assert(raw[i as int] == items@[i as int]@);
        assert forall|x: Seq<char>|
            #![auto]
            normal_set::<R>(next).contains(x) <==> normal_set::<R>(now).contains(x) || (x == item@
                && x.len() > 0) by {
            if normal_set::<R>(next).contains(x) {
                let k = choose|k: int| 0 <= k < next.len() && x == R::normal(#[trigger] next[k]);
                if k < i {
                    assert(now[k] == next[k]);
                }
            }
            if normal_set::<R>(now).contains(x) {
                let k = choose|k: int| 0 <= k < now.len() && x == R::normal(#[trigger] now[k]);
                assert(next[k] == now[k]);
            }
        }
        if !item.as_str().is_empty() {
            set.insert(item, ());
        }
    }
    assert(raw.take(raw.len() as int) == raw);
    proof {
        set.lemma_keys();
    }
    let mut list: Vec<String> = Vec::new();
    assert(texts(list@) =~= set.keys().take(0));
    let count: usize = set.len();
    for i in 0..count
        invariant
            set.wf(),
            count == set.keys().len(),
            texts(list@) =~= set.keys().take(i as int),
    {
        let ghost before = texts(list@);
        let name = set.name_at(i).clone();
        list.push(name);
        assert(texts(list@) =~= before.push(name@));
    }
    assert(set.keys().take(set.keys().len() as int) == set.keys());
    list
}

proof fn lemma_first_owned(items: Seq<Seq<char>>, owners: Map<Seq<char>, Seq<char>>, from: int)
    requires
        0 <= from <= items.len(),
    ensures
        from <= first_owned(items, owners, from) <= items.len(),
        first_owned(items, owners, from) < items.len() ==> owners.contains_key(
            items[first_owned(items, owners, from)],
        ),
        forall|k: int|
            from <= k < first_owned(items, owners, from) ==> !owners.contains_key(
                #[trigger] items[k],
            ),
    decreases items.len() - from,
{
    if !(from >= items.len() || owners.contains_key(items[from])) {
        lemma_first_owned(items, owners, from + 1);
    }
}

/// The texts of a map.
pub open spec fn text_values(map: Map<Seq<char>, String>) -> Map<Seq<char>, Seq<char>> {
    map.map_values(|v: String| v@)
}

fn claim<R: Rule>(owners: &mut NameMap<String>, list: &Vec<String>, category: &String) -> (r: Result<
    (),
    CliError,
>)
    requires
        old(owners).wf(),
        increasing(texts(list@)),
    ensures
        final(owners).wf(),
        ({
            let before = text_values(old(owners).map());
            let items = texts(list@);
            let i = first_owned(items, before, 0);
            if i < items.len() {
                r matches Err(e) && e.says(R::clash(items[i], before[items[i]], category@))
            } else {
                r is Ok && text_values(final(owners).map()) == owned(before, items, category@)
            }
        }),
{
    let ghost before = text_values(owners.map());
    let ghost items = texts(list@);
    let ghost stop = first_owned(items, before, 0);
    proof {
        lemma_first_owned(items, before, 0);
        assert(text_values(owners.map()) =~= owned(before, items.take(0), category@));
    }
    for j in 0..list.len()
        invariant
            owners.wf(),
            before == text_values(old(owners).map()),
            items == texts(list@),
            increasing(items),
            stop == first_owned(items, before, 0),
            j <= stop <= items.len(),
            stop < items.len() ==> before.contains_key(items[stop]),
            forall|k: int| 0 <= k < stop ==> !before.contains_key(#[trigger] items[k]),
            text_values(owners.map()) == owned(before, items.take(j as int), category@),
    {
        let item = &list[j];
        let ghost now = owners.map();
        assert(items[j as int] == item@);
        assert(!items.take(j as int).contains(item@)) by {
            if items.take(j as int).contains(item@) {
                let k = choose|k: int| 0 <= k < j && items.take(j as int)[k] == item@;
                assert(crate::text::text_lt(items[k], items[j as int]));
                crate::text::lemma_text_lt_irreflexive(item@);
            }
        }
        assert(text_values(now).contains_key(item@) <==> before.contains_key(item@));
        if let Some(previous) = owners.get(item.as_str()) {
            assert(text_values(now)[item@] == previous@);
            assert(before.contains_key(items[j as int]));
            assert(stop == j);
            return Err(
                CliError::Message(R::clash_text(item.as_str(), previous.as_str(), category.as_str())),
            );
        }
        assert(stop != j);
        owners.insert(item.clone(), category.clone());
        proof {
            assert(text_values(owners.map()) =~= text_values(now).insert(item@, category@));
            let prefix = items.take(j as int);
            let longer = items.take(j + 1);
            assert(longer =~= prefix.push(item@));
            assert forall|k: Seq<char>| longer.contains(k) <==> prefix.contains(k) || k == item@ by {
                if prefix.contains(k) {
                    let p = choose|p: int| 0 <= p < prefix.len() && prefix[p] == k;
                    assert(longer[p] == k);
                }
                if k == item@ {
                    assert(longer[j as int] == k);
                }
                if longer.contains(k) && k != item@ {
                    let p = choose|p: int| 0 <= p < longer.len() && longer[p] == k;
                    assert(prefix[p] == k);
                }
            }
            assert(text_values(owners.map()) =~= owned(before, longer, category@));
        }
    }
    assert(items.take(items.len() as int) == items);
    Ok(())
}

/// Groups the lists: canonical items, each in one category.
fn group<R: Rule>(raw: &NameMap<Vec<String>>) -> (r: Result<NameMap<Vec<String>>, CliError>)
    requires
        raw.wf(),
    ensures
        match grouping::<R>(lists(raw.map())).refused {
            Some(message) => r matches Err(e) && e.says(message),
            None => r matches Ok(map) && map.wf() && lists(map.map()) == grouping::<R>(
                lists(raw.map()),
            ).lists,
        },
{
    let ghost all = lists(raw.map());
    let ghost names = raw.keys();
    proof {
        raw.lemma_keys();
        assert(all.dom() =~= raw.map().dom());
    }
    let mut owners: NameMap<String> = NameMap::new();
    let mut out: NameMap<Vec<String>> = NameMap::new();
    assert(text_values(owners.map()) =~= Map::<Seq<char>, Seq<char>>::empty());
    assert(lists(out.map()) =~= Map::<Seq<char>, Seq<Seq<char>>>::empty());
    assert(names.take(0) == Seq::<Seq<char>>::empty());
    let count: usize = raw.len();
    for i in 0..count
        invariant
            raw.wf(),
            count == names.len(),
            all == lists(raw.map()),
            names == raw.keys(),
            grouping::<R>(all) == grouped::<R>(names, all),
            owners.wf(),
            out.wf(),
            ({
                let g = grouped::<R>(names.take(i as int), all);
                &&& g.refused is None
                &&& g.owners == text_values(owners.map())
                &&& g.lists == lists(out.map())
            }),
    {
        let ghost so_far = grouped::<R>(names.take(i as int), all);
        let ghost name = names[i as int];
        let ghost items = all[name];
        let ghost next = grouped_one::<R>(so_far, name, items);
        proof {
            assert(names.take(i + 1).drop_last() == names.take(i as int));
            assert(names.take(i + 1).last() == name);
            assert(grouped::<R>(names.take(i + 1), all) == next);
            raw.lemma_at(i as int);
            assert(items == texts(raw.vals()[i as int]@));
            if next.refused is Some {
                lemma_refused_stays::<R>(names, all, i + 1);
            }
        }
        let category = trim_text(raw.name_at(i).as_str());
        if category.as_str().is_empty() {
            return Err(CliError::Message(R::unnamed_text()));
        }
        let list = canonical_list::<R>(raw.value_at(i));
        if let Err(e) = claim::<R>(&mut owners, &list, &category) {
            return Err(e);
        }
        let ghost before = out.map();
        let ghost key = category@;
        let ghost value = texts(list@);
        out.insert(category, list);
        assert(lists(out.map()) =~= lists(before).insert(key, value));
    }
    assert(names.take(names.len() as int) == names);
    Ok(out)
}

/// Once refused, a configuration stays refused.
proof fn lemma_refused_stays<R: Rule>(names: Seq<Seq<char>>, raw: Lists, i: int)
    requires
        0 <= i <= names.len(),
        grouped::<R>(names.take(i), raw).refused is Some,
    ensures
        grouped::<R>(names, raw) == grouped::<R>(names.take(i), raw),
    decreases names.len() - i,
{
    if i < names.len() {
        assert(names.take(i + 1).drop_last() == names.take(i));
        lemma_refused_stays::<R>(names, raw, i + 1);
    } else {
        assert(names.take(i) == names);
    }
}

// ---------------------------------------------------------------------------
// Built-in rules
// ---------------------------------------------------------------------------

/// The built-in extensions by category.
pub open spec fn default_extension_lists() -> Lists {
    Map::empty().insert(
        "Apps / Executables"@,
        seq![
            "exe"@, "msi"@, "msix"@, "appx"@, "dll"@, "sys"@,
        ],
    ).insert(
        "Documents"@,
        seq![
            "pdf"@, "doc"@, "docx"@, "xls"@, "xlsx"@, "ppt"@, "pptx"@, "txt"@, "md"@, "rtf"@,
            "csv"@, "odt"@, "ods"@, "odp"@,
        ],
    ).insert(
        "Pictures"@,
        seq![
            "jpg"@, "jpeg"@, "png"@, "gif"@, "bmp"@, "tif"@, "tiff"@, "webp"@, "heic"@, "raw"@,
            "svg"@, "ico"@,
        ],
    ).insert(
        "Videos"@,
        seq![
            "mp4"@, "mkv"@, "mov"@, "avi"@, "wmv"@, "flv"@, "webm"@, "m4v"@,
        ],
    ).insert(
        "Music / Audio"@,
        seq![
            "mp3"@, "wav"@, "flac"@, "aac"@, "m4a"@, "ogg"@, "wma"@,
        ],
    ).insert(
        "Archives"@,
        seq![
            "zip"@, "7z"@, "rar"@, "tar"@, "gz"@, "bz2"@, "xz"@, "zst"@,
        ],
    ).insert(
        "Disk Images / VMs"@,
        seq![
            "iso"@, "img"@, "vhd"@, "vhdx"@, "vmdk"@, "ova"@, "ovf"@, "qcow2"@,
        ],
    ).insert(
        "Developer / Code"@,
        seq![
            "rs"@, "py"@, "js"@, "ts"@, "tsx"@, "jsx"@, "java"@, "cs"@, "cpp"@, "c"@, "h"@,
            "hpp"@, "go"@, "rb"@, "php"@, "html"@, "css"@, "json"@, "toml"@, "yaml"@, "yml"@,
            "xml"@, "sql"@, "lock"@,
        ],
    ).insert(
        "Temporary / Cache"@,
        seq![
            "tmp"@, "temp"@, "log"@, "bak"@, "dmp"@,
        ],
    )
}

/// The built-in path fragments by category.
pub open spec fn default_fragment_lists() -> Lists {
    Map::empty().insert(
        "AI Models"@,
        seq![
            ".ollama/models"@, ".cache/huggingface/hub"@, "huggingface/hub/models--"@,
            "LM Studio/models"@, "GPT4All"@,
        ],
    ).insert(
        "Docker / Containers"@,
        seq![
            "AppData/Local/Docker/wsl"@, "AppData/Local/Docker Desktop"@, "ProgramData/Docker"@,
            "ProgramData/docker/windowsfilter"@, "ProgramData/docker/containers"@,
            "ProgramData/docker/volumes"@, ".docker"@,
        ],
    )
}

/// The characters of a list of words.
pub open spec fn word_list(items: Seq<&'static str>) -> Seq<Seq<char>> {
    items.map_values(|s: &'static str| s@)
}

fn add_list(map: &mut NameMap<Vec<String>>, name: &str, items: Vec<&'static str>)
    requires
        old(map).wf(),
    ensures
        final(map).wf(),
        lists(final(map).map()) == lists(old(map).map()).insert(name@, word_list(items@)),
{
    let ghost before = map.map();
    let mut list: Vec<String> = Vec::new();
    assert(texts(list@) =~= word_list(items@).take(0));
    for i in 0..items.len()
        invariant
            texts(list@) == word_list(items@).take(i as int),
    {
        let ghost so_far = texts(list@);
        let item = items[i].to_owned();
        list.push(item);
        assert(texts(list@) =~= so_far.push(item@));
        assert(word_list(items@)[i as int] == item@);
        assert(word_list(items@).take(i + 1) =~= so_far.push(item@));
    }
    assert(word_list(items@).take(items@.len() as int) =~= word_list(items@));
    let ghost added = list;
    map.insert(name.to_owned(), list);
    assert(lists(map.map()) =~= lists(before).insert(name@, texts(added@)));
}

fn default_category_rules() -> (r: NameMap<Vec<String>>)
    ensures
        r.wf(),
        lists(r.map()) == default_extension_lists(),
{
    let mut map: NameMap<Vec<String>> = NameMap::new();
    assert(lists(map.map()) =~= Map::<Seq<char>, Seq<Seq<char>>>::empty());
    let items = vec![
        "exe", "msi", "msix", "appx", "dll", "sys",
    ];
    assert(word_list(items@) =~= seq![
        "exe"@, "msi"@, "msix"@, "appx"@, "dll"@, "sys"@,
    ]);
    add_list(&mut map, "Apps / Executables", items);
    let items = vec![
        "pdf", "doc", "docx", "xls", "xlsx", "ppt", "pptx", "txt", "md", "rtf", "csv", "odt",
        "ods", "odp",
    ];
    assert(word_list(items@) =~= seq![
        "pdf"@, "doc"@, "docx"@, "xls"@, "xlsx"@, "ppt"@, "pptx"@, "txt"@, "md"@, "rtf"@, "csv"@,
        "odt"@, "ods"@, "odp"@,
    ]);
    add_list(&mut map, "Documents", items);
    let items = vec![
        "jpg", "jpeg", "png", "gif", "bmp", "tif", "tiff", "webp", "heic", "raw", "svg", "ico",
    ];
    assert(word_list(items@) =~= seq![
        "jpg"@, "jpeg"@, "png"@, "gif"@, "bmp"@, "tif"@, "tiff"@, "webp"@, "heic"@, "raw"@,
        "svg"@, "ico"@,
    ]);
    add_list(&mut map, "Pictures", items);
    let items = vec![
        "mp4", "mkv", "mov", "avi", "wmv", "flv", "webm", "m4v",
    ];
    assert(word_list(items@) =~= seq![
        "mp4"@, "mkv"@, "mov"@, "avi"@, "wmv"@, "flv"@, "webm"@, "m4v"@,
    ]);
    add_list(&mut map, "Videos", items);
    let items = vec![
        "mp3", "wav", "flac", "aac", "m4a", "ogg", "wma",
    ];
    assert(word_list(items@) =~= seq![
        "mp3"@, "wav"@, "flac"@, "aac"@, "m4a"@, "ogg"@, "wma"@,
    ]);
    add_list(&mut map, "Music / Audio", items);
    let items = vec![
        "zip", "7z", "rar", "tar", "gz", "bz2", "xz", "zst",
    ];
    assert(word_list(items@) =~= seq![
        "zip"@, "7z"@, "rar"@, "tar"@, "gz"@, "bz2"@, "xz"@, "zst"@,
    ]);
    add_list(&mut map, "Archives", items);
    let items = vec![
        "iso", "img", "vhd", "vhdx", "vmdk", "ova", "ovf", "qcow2",
    ];
    assert(word_list(items@) =~= seq![
        "iso"@, "img"@, "vhd"@, "vhdx"@, "vmdk"@, "ova"@, "ovf"@, "qcow2"@,
    ]);
    add_list(&mut map, "Disk Images / VMs", items);
    let items = vec![
        "rs", "py", "js", "ts", "tsx", "jsx", "java", "cs", "cpp", "c", "h", "hpp", "go", "rb",
        "php", "html", "css", "json", "toml", "yaml", "yml", "xml", "sql", "lock",
    ];
    assert(word_list(items@) =~= seq![
        "rs"@, "py"@, "js"@, "ts"@, "tsx"@, "jsx"@, "java"@, "cs"@, "cpp"@, "c"@, "h"@, "hpp"@,
        "go"@, "rb"@, "php"@, "html"@, "css"@, "json"@, "toml"@, "yaml"@, "yml"@, "xml"@, "sql"@,
        "lock"@,
    ]);
    add_list(&mut map, "Developer / Code", items);
    let items = vec![
        "tmp", "temp", "log", "bak", "dmp",
    ];
    assert(word_list(items@) =~= seq![
        "tmp"@, "temp"@, "log"@, "bak"@, "dmp"@,
    ]);
    add_list(&mut map, "Temporary / Cache", items);
    map
}

/// The built-in path rules.
fn default_path_rules_config() -> (r: NameMap<Vec<String>>)
    ensures
        r.wf(),
        lists(r.map()) == default_fragment_lists(),
{
    let mut map: NameMap<Vec<String>> = NameMap::new();
    assert(lists(map.map()) =~= Map::<Seq<char>, Seq<Seq<char>>>::empty());
    let items = vec![
        ".ollama/models", ".cache/huggingface/hub", "huggingface/hub/models--",
        "LM Studio/models", "GPT4All",
    ];
    assert(word_list(items@) =~= seq![
        ".ollama/models"@, ".cache/huggingface/hub"@, "huggingface/hub/models--"@,
        "LM Studio/models"@, "GPT4All"@,
    ]);
    add_list(&mut map, "AI Models", items);
    let items = vec![
        "AppData/Local/Docker/wsl", "AppData/Local/Docker Desktop", "ProgramData/Docker",
        "ProgramData/docker/windowsfilter", "ProgramData/docker/containers",
        "ProgramData/docker/volumes", ".docker",
    ];
    assert(word_list(items@) =~= seq![
        "AppData/Local/Docker/wsl"@, "AppData/Local/Docker Desktop"@, "ProgramData/Docker"@,
        "ProgramData/docker/windowsfilter"@, "ProgramData/docker/containers"@,
        "ProgramData/docker/volumes"@, ".docker"@,
    ]);
    add_list(&mut map, "Docker / Containers", items);
    map
}

impl CategoryConfig {
    /// The path rules that hold: the configured ones or the built-in ones.
    pub open spec fn fragments(&self) -> Lists {
        match self.path_rules {
            Some(rules) => lists(rules.map()),
            None => default_fragment_lists(),
        }
    }
}

impl Default for CategoryConfig {
    fn default() -> (r: Self)
        ensures
            r.wf(),
            r.version == CATEGORY_CONFIG_VERSION,
            lists(r.categories.map()) == default_extension_lists(),
            r.path_rules matches Some(rules) && lists(rules.map()) == default_fragment_lists(),
    {
        CategoryConfig {
            version: CATEGORY_CONFIG_VERSION,
            categories: default_category_rules(),
            path_rules: Some(default_path_rules_config()),
        }
    }
}

/// A configuration with canonical lists.
pub struct NormalizedCategoryConfig {
    pub categories: NameMap<Vec<String>>,
    pub path_rules: NameMap<Vec<String>>,
}

/// Why a configuration is refused, if it is: extensions are looked at first.
pub open spec fn refusal(extensions: Lists, fragments: Lists) -> Option<Seq<char>> {
    let g = grouping::<ExtensionRule>(extensions);
    if g.refused is Some {
        g.refused
    } else {
        grouping::<FragmentRule>(fragments).refused
    }
}

/// The configuration with canonical lists. Refused are categories without a
/// name, and items in two categories.
pub fn normalize_category_config(config: CategoryConfig) -> (r: Result<
    NormalizedCategoryConfig,
    CliError,
>)
    requires
        config.wf(),
    ensures
        match refusal(lists(config.categories.map()), config.fragments()) {
            Some(message) => r matches Err(e) && e.says(message),
            None => r matches Ok(n) && n.categories.wf() && n.path_rules.wf() && lists(
                n.categories.map(),
            ) == grouping::<ExtensionRule>(lists(config.categories.map())).lists && lists(
                n.path_rules.map(),
            ) == grouping::<FragmentRule>(config.fragments()).lists,
        },
{
    let categories = match group::<ExtensionRule>(&config.categories) {
        Ok(map) => map,
        Err(e) => return Err(e),
    };
    let rules = match config.path_rules {
        Some(rules) => rules,
        None => default_path_rules_config(),
    };
    match group::<FragmentRule>(&rules) {
        Ok(path_rules) => Ok(NormalizedCategoryConfig { categories, path_rules }),
        Err(e) => Err(e),
    }
}

// ---------------------------------------------------------------------------
// Fingerprint
// ---------------------------------------------------------------------------

/// The items, each with a zero character behind it.
pub open spec fn items_text(items: Seq<Seq<char>>) -> Seq<char>
    decreases items.len(),
{
    if items.len() == 0 {
        Seq::empty()
    } else {
        items_text(items.drop_last()) + items.last() + "\0"@
    }
}

/// The lists as they are fingerprinted: a line for each name.
pub open spec fn lists_text(names: Seq<Seq<char>>, map: Lists) -> Seq<char>
    decreases names.len(),
{
    if names.len() == 0 {
        Seq::empty()
    } else {
        lists_text(names.drop_last(), map) + names.last() + "\0"@ + items_text(map[names.last()])
            + "\n"@
    }
}

/// What is fingerprinted.
pub open spec fn rules_text(extensions: Lists, fragments: Lists) -> Seq<char> {
    "dscan11-category-rules-v2\nextensions\n"@ + lists_text(
        in_name_order(extensions.dom()),
        extensions,
    ) + "path-rules\n"@ + lists_text(in_name_order(fragments.dom()), fragments)
}

/// The 64-bit FNV-1a hash.
pub open spec fn fnv1a(bytes: Seq<u8>) -> u64
    decreases bytes.len(),
{
    if bytes.len() == 0 {
        0xcbf2_9ce4_8422_2325
    } else {
        ((((fnv1a(bytes.drop_last()) ^ (bytes.last() as u64)) as nat) * 0x100_0000_01b3)
            % 0x1_0000_0000_0000_0000) as u64
    }
}

/// The fingerprint of canonical lists.
pub open spec fn fingerprint_of(extensions: Lists, fragments: Lists) -> Seq<char> {
    "fnv1a64:"@ + hex(fnv1a(encode_utf8(rules_text(extensions, fragments))) as nat, 16)
}

fn push_lists(out: &mut String, map: &NameMap<Vec<String>>)
    requires
        map.wf(),
    ensures
        final(out)@ == old(out)@ + lists_text(
            in_name_order(lists(map.map()).dom()),
            lists(map.map()),
        ),
{
    let ghost start = out@;
    let ghost all = lists(map.map());
    let ghost names = map.keys();
    proof {
        map.lemma_keys();
        assert(all.dom() =~= map.map().dom());
    }
    assert(names.take(0) == Seq::<Seq<char>>::empty());
    assert(out@ =~= start + lists_text(names.take(0), all));
    let count: usize = map.len();
    for i in 0..count
        invariant
            map.wf(),
            count == names.len(),
            names == map.keys(),
            all == lists(map.map()),
            out@ == start + lists_text(names.take(i as int), all),
    {
        let ghost line = out@;
        proof {
            map.lemma_at(i as int);
            assert(names.take(i + 1).drop_last() == names.take(i as int));
            assert(names.take(i + 1).last() == names[i as int]);
        }
        out.append(map.name_at(i).as_str());
        out.append("\0");
        let list = map.value_at(i);
        let ghost items = texts(list@);
        let ghost head = out@;
        assert(items == all[names[i as int]]);
        assert(out@ =~= head + items_text(items.take(0)));
        for j in 0..list.len()
            invariant
                items == texts(list@),
                out@ == head + items_text(items.take(j as int)),
        {
            assert(items.take(j + 1).drop_last() == items.take(j as int));
            assert(items.take(j + 1).last() == list@[j as int]@);
            out.append(list[j].as_str());
            out.append("\0");
            assert(out@ =~= head + items_text(items.take(j + 1)));
        }
        assert(items.take(items.len() as int) == items);
        out.append("\n");
        assert(out@ =~= start + lists_text(names.take(i + 1), all));
    }
    assert(names.take(names.len() as int) == names);
}

/// The fingerprint of canonical lists.
pub fn category_fingerprint(canonical: &NormalizedCategoryConfig) -> (r: String)
    requires
        canonical.categories.wf(),
        canonical.path_rules.wf(),
    ensures
        r@ == fingerprint_of(
            lists(canonical.categories.map()),
            lists(canonical.path_rules.map()),
        ),
{
    let mut text = "dscan11-category-rules-v2\nextensions\n".to_owned();
    push_lists(&mut text, &canonical.categories);
    text.append("path-rules\n");
    push_lists(&mut text, &canonical.path_rules);
    let ghost whole = rules_text(
        lists(canonical.categories.map()),
        lists(canonical.path_rules.map()),
    );
    assert(text@ =~= whole);
    let bytes = text.as_str().as_bytes();
    let mut hash: u64 = 0xcbf2_9ce4_8422_2325;
    assert(bytes@.take(0) == Seq::<u8>::empty());
    for i in 0..bytes.len()
        invariant
            hash == fnv1a(bytes@.take(i as int)),
    {
        assert(bytes@.take(i + 1).drop_last() == bytes@.take(i as int));
        assert(bytes@.take(i + 1).last() == bytes@[i as int]);
        hash = (hash ^ (bytes[i] as u64)).wrapping_mul(0x100_0000_01b3);
    }
    assert(bytes@.take(bytes@.len() as int) == bytes@);
    let mut out = "fnv1a64:".to_owned();
    push_hex(&mut out, hash, 16);
    out
}

// ---------------------------------------------------------------------------
// Rules
// ---------------------------------------------------------------------------

#[derive(Debug, PartialEq, Eq)]
struct PathRule {
    fragment: String,
    category: String,
}

/// Rules that tell the category of a file.
#[derive(Debug, PartialEq, Eq)]
pub struct CategoryRules {
    path_rules: Vec<PathRule>,
    extension_map: NameMap<String>,
    fingerprint: String,
    source: String,
}

/// An item and its category.
pub type Pair = (Seq<char>, Seq<char>);

/// The items of a list, each with the category.
pub open spec fn paired(items: Seq<Seq<char>>, category: Seq<char>) -> Seq<Pair> {
    items.map_values(|item: Seq<char>| (item, category))
}

/// The items of all lists with their categories, in the order of the names.
pub open spec fn pairs(names: Seq<Seq<char>>, map: Lists) -> Seq<Pair>
    decreases names.len(),
{
    if names.len() == 0 {
        Seq::empty()
    } else {
        pairs(names.drop_last(), map) + paired(map[names.last()], names.last())
    }
}

/// All items with their categories.
pub open spec fn all_pairs(map: Lists) -> Seq<Pair> {
    pairs(in_name_order(map.dom()), map)
}

/// The category of each item.
pub open spec fn category_by_item(list: Seq<Pair>) -> Map<Seq<char>, Seq<char>>
    decreases list.len(),
{
    if list.len() == 0 {
        Map::empty()
    } else {
        category_by_item(list.drop_last()).insert(list.last().0, list.last().1)
    }
}

/// The place of the first rule from `from` on whose fragment stands in the
/// path, the length where there is none.
pub open spec fn first_match(rules: Seq<Pair>, path: Seq<char>, from: int) -> int
    decreases rules.len() - from,
{
    if from >= rules.len() || has_part(path, rules[from].0) {
        from
    } else {
        first_match(rules, path, from + 1)
    }
}

/// The extension of a path in normal form, empty where it has none.
pub open spec fn extension_key(style: PathStyle, path: Seq<char>) -> Seq<char> {
    match extension(style, path) {
        Some(e) => normal_extension(e),
        None => Seq::empty(),
    }
}

/// The category of a path that no rule claims.
pub open spec fn fallback_category(style: PathStyle, path: Seq<char>) -> Seq<char> {
    if has_name(style, path, "node_modules"@) || has_name(style, path, "target"@) || has_name(style, path, ".git"@) {
        "Developer / Code"@
    } else if has_name(style, path, "Temp"@) || has_name(style, path, "Cache"@) || has_name(style, path, ".cache"@) {
        "Temporary / Cache"@
    } else if has_name(style, path, "OneDrive"@) {
        "Cloud / OneDrive"@
    } else {
        "Other"@
    }
}

/// The category of a path: that of the first path rule that matches, else that
/// of its extension, else what its folders say.
pub open spec fn classified(
    style: PathStyle,
    path_rules: Seq<Pair>,
    extensions: Map<Seq<char>, Seq<char>>,
    path: Seq<char>,
) -> Seq<char> {
    let i = first_match(path_rules, normal_fragment(path), 0);
    if i < path_rules.len() {
        path_rules[i].1
    } else if extensions.contains_key(extension_key(style, path)) {
        extensions[extension_key(style, path)]
    } else {
        fallback_category(style, path)
    }
}

impl CategoryRules {
    /// The path rules in order.
    pub closed spec fn paths(&self) -> Seq<Pair> {
        self.path_rules@.map_values(|r: PathRule| (r.fragment@, r.category@))
    }

    /// The category of each extension.
    pub closed spec fn extensions(&self) -> Map<Seq<char>, Seq<char>> {
        text_values(self.extension_map.map())
    }

    /// The fingerprint.
    pub closed spec fn print(&self) -> Seq<char> {
        self.fingerprint@
    }

    /// Where the rules come from.
    pub closed spec fn origin(&self) -> Seq<char> {
        self.source@
    }

    /// The extensions are in order.
    pub closed spec fn wf(&self) -> bool {
        self.extension_map.wf()
    }

    /// These are the rules of canonical lists.
    pub open spec fn follows(&self, extensions: Lists, fragments: Lists) -> bool {
        &&& self.wf()
        &&& self.paths() == all_pairs(fragments)
        &&& self.extensions() == category_by_item(all_pairs(extensions))
        &&& self.print() == fingerprint_of(extensions, fragments)
    }

    /// The rules of a configuration; `source` says where it comes from.
    pub fn from_config(config: CategoryConfig, source: String) -> (r: Result<Self, CliError>)
        requires
            config.wf(),
        ensures
            match refusal(lists(config.categories.map()), config.fragments()) {
                Some(message) => r matches Err(e) && e.says(message),
                None => r matches Ok(rules) && rules.follows(
                    grouping::<ExtensionRule>(lists(config.categories.map())).lists,
                    grouping::<FragmentRule>(config.fragments()).lists,
                ) && rules.origin() == source@,
            },
    {
        let canonical = match normalize_category_config(config) {
            Ok(n) => n,
            Err(e) => return Err(e),
        };
        let extension_map = item_map(&canonical.categories);
        let path_rules = rule_list(&canonical.path_rules);
        let fingerprint = category_fingerprint(&canonical);
        Ok(CategoryRules { path_rules, extension_map, fingerprint, source })
    }

    /// The category of a path of Windows.
    pub fn classify(&self, path: &str) -> (r: String)
        requires
            self.wf(),
        ensures
            r@ == classified(PathStyle::Windows, self.paths(), self.extensions(), path@),
    {
        self.classify_in(PathStyle::Windows, path)
    }

    /// The category of a path that follows the given rules.
    pub fn classify_in(&self, style: PathStyle, path: &str) -> (r: String)
        requires
            self.wf(),
        ensures
            r@ == classified(style, self.paths(), self.extensions(), path@),
    {
        let normalized = to_chars(normalize_path_fragment(path).as_str());
        let ghost rules = self.paths();
        for i in 0..self.path_rules.len()
            invariant
                rules == self.paths(),
                normalized@ == normal_fragment(path@),
                first_match(rules, normalized@, 0) == first_match(rules, normalized@, i as int),
        {
            let rule = &self.path_rules[i];
            assert(rules[i as int] == (rule.fragment@, rule.category@));
            let fragment = to_chars(rule.fragment.as_str());
            if contains_part(normalized.as_slice(), fragment.as_slice()) {
                return rule.category.clone();
            }
        }
        assert(first_match(rules, normalized@, 0) == rules.len());
        let ext = match extension_of(style, path) {
            Some(e) => normalize_extension(e.as_str()),
            None => String::new(),
        };
        assert(ext@ =~= extension_key(style, path@));
        if let Some(category) = self.extension_map.get(ext.as_str()) {
            return category.clone();
        }
        if has_component(style, path, "node_modules") || has_component(style, path, "target") || has_component(
            style,
            path,
            ".git",
        ) {
            return "Developer / Code".to_owned();
        }
        if has_component(style, path, "Temp") || has_component(style, path, "Cache") || has_component(
            style,
            path,
            ".cache",
        ) {
            return "Temporary / Cache".to_owned();
        }
        if has_component(style, path, "OneDrive") {
            return "Cloud / OneDrive".to_owned();
        }
        "Other".to_owned()
    }

    /// The fingerprint.
    pub fn fingerprint(&self) -> (r: &str)
        ensures
            r@ == self.print(),
    {
        self.fingerprint.as_str()
    }

    /// Where the rules come from.
    pub fn source(&self) -> (r: &str)
        ensures
            r@ == self.origin(),
    {
        self.source.as_str()
    }
}

spec fn rule_pairs(rules: Seq<PathRule>) -> Seq<Pair> {
    rules.map_values(|r: PathRule| (r.fragment@, r.category@))
}

fn rule_list(map: &NameMap<Vec<String>>) -> (r: Vec<PathRule>)
    requires
        map.wf(),
    ensures
        rule_pairs(r@) == all_pairs(lists(map.map())),
{
    let ghost all = lists(map.map());
    let ghost names = map.keys();
    proof {
        map.lemma_keys();
        assert(all.dom() =~= map.map().dom());
    }
    let mut rules: Vec<PathRule> = Vec::new();
    assert(names.take(0) == Seq::<Seq<char>>::empty());
    assert(rule_pairs(rules@) =~= pairs(names.take(0), all));
    let count: usize = map.len();
    for i in 0..count
        invariant
            map.wf(),
            count == names.len(),
            names == map.keys(),
            all == lists(map.map()),
            rule_pairs(rules@) == pairs(names.take(i as int), all),
    {
        proof {
            map.lemma_at(i as int);
            assert(names.take(i + 1).drop_last() == names.take(i as int));
            assert(names.take(i + 1).last() == names[i as int]);
        }
        let name = map.name_at(i);
        let list = map.value_at(i);
        let ghost items = texts(list@);
        let ghost head = rule_pairs(rules@);
        assert(items == all[names[i as int]]);
        assert(rule_pairs(rules@) =~= head + paired(items, name@).take(0));
        for j in 0..list.len()
            invariant
                items == texts(list@),
                rule_pairs(rules@) == head + paired(items, name@).take(j as int),
        {
            let ghost so_far = rule_pairs(rules@);
            rules.push(PathRule { fragment: list[j].clone(), category: name.clone() });
            assert(rule_pairs(rules@) =~= so_far.push((list@[j as int]@, name@)));
            assert(paired(items, name@)[j as int] == (list@[j as int]@, name@));
            assert(head + paired(items, name@).take(j + 1) =~= so_far.push(
                paired(items, name@)[j as int],
            ));
        }
        assert(paired(items, name@).take(items.len() as int) =~= paired(items, name@));
    }
    assert(names.take(names.len() as int) == names);
    rules
}

fn item_map(map: &NameMap<Vec<String>>) -> (r: NameMap<String>)
    requires
        map.wf(),
    ensures
        r.wf(),
        text_values(r.map()) == category_by_item(all_pairs(lists(map.map()))),
{
    let rules = rule_list(map);
    let ghost list = rule_pairs(rules@);
    let mut out: NameMap<String> = NameMap::new();
    assert(list.take(0) == Seq::<Pair>::empty());
    assert(text_values(out.map()) =~= Map::<Seq<char>, Seq<char>>::empty());
    for i in 0..rules.len()
        invariant
            out.wf(),
            list == rule_pairs(rules@),
            text_values(out.map()) == category_by_item(list.take(i as int)),
    {
        let ghost before = out.map();
        let rule = &rules[i];
        out.insert(rule.fragment.clone(), rule.category.clone());
        assert(text_values(out.map()) =~= text_values(before).insert(
            rule.fragment@,
            rule.category@,
        ));
        assert(list.take(i + 1).drop_last() == list.take(i as int));
        assert(list.take(i + 1).last() == (rule.fragment@, rule.category@));
    }
    assert(list.take(list.len() as int) == list);
    out
}

/// The rules, from what came of reading the configuration at `path`; a missing
/// file means the built-in rules.
pub fn load_category_rules(path: &str, read: FileRead<CategoryConfig>) -> (r: Result<
    CategoryRules,
    CliError,
>)
    requires
        read matches FileRead::Parsed(config) ==> config.wf(),
    ensures
        match read {
            FileRead::Missing(_) => loads(
                r,
                default_extension_lists(),
                default_fragment_lists(),
                "builtin"@,
            ),
            FileRead::Failed(cause) => r matches Err(CliError::Io { context, source })
                && context@ == "failed to read category config "@ + path@ && source == cause,
            FileRead::Unparsed(cause) => r matches Err(CliError::Json { context, source })
                && context@ == "failed to parse category config "@ + path@ && source == cause,
            FileRead::Parsed(config) => loads(
                r,
                lists(config.categories.map()),
                config.fragments(),
                path@,
            ),
        },
{
    match read {
        FileRead::Missing(_) => CategoryRules::from_config(
            CategoryConfig::default(),
            "builtin".to_owned(),
        ),
        FileRead::Failed(source) => Err(
            CliError::Io {
                context: "failed to read category config ".to_owned().concat(path),
                source,
            },
        ),
        FileRead::Unparsed(source) => Err(
            CliError::Json {
                context: "failed to parse category config ".to_owned().concat(path),
                source,
            },
        ),
        FileRead::Parsed(config) => CategoryRules::from_config(config, path.to_owned()),
    }
}

/// What comes of a configuration with these lists.
pub open spec fn loads(
    r: Result<CategoryRules, CliError>,
    extensions: Lists,
    fragments: Lists,
    source: Seq<char>,
) -> bool {
    match refusal(extensions, fragments) {
        Some(message) => r matches Err(e) && e.says(message),
        None => r matches Ok(rules) && rules.follows(
            grouping::<ExtensionRule>(extensions).lists,
            grouping::<FragmentRule>(fragments).lists,
        ) && rules.origin() == source,
    }
}

/// What comes of asking for an editable configuration.
#[derive(Debug, PartialEq, Eq)]
pub struct CategoryConfigBootstrap {
    pub created: bool,
    pub category_config_path: String,
    pub source: String,
}

/// What is reported of an editable configuration: one that is there is kept.
pub fn init_category_config(path: &str, present: bool) -> (r: CategoryConfigBootstrap)
    ensures
        r.created == !present,
        r.category_config_path@ == path@,
        r.source@ == if present {
            "existing"@
        } else {
            "defaults"@
        },
{
    CategoryConfigBootstrap {
        created: !present,
        category_config_path: path.to_owned(),
        source: if present {
            "existing".to_owned()
        } else {
            "defaults".to_owned()
        },
    }
}

/// Whether the rules have changed since a scan.
#[derive(Debug, PartialEq, Eq)]
pub struct CategoryRulesStatus {
    pub source: String,
    pub snapshot_fingerprint: Option<String>,
    pub current_fingerprint: String,
    pub changed_since_scan: Option<bool>,
}

/// Whether the rules have changed since the scan; unknown where the snapshot
/// has no fingerprint.
pub fn category_rules_status(snapshot: &Snapshot, category_rules: &CategoryRules) -> (r:
    CategoryRulesStatus)
    ensures
        r.source@ == category_rules.origin(),
        r.snapshot_fingerprint == snapshot.category_rules_fingerprint,
        r.current_fingerprint@ == category_rules.print(),
        r.changed_since_scan == match snapshot.category_rules_fingerprint {
            Some(old_print) => Some(old_print@ != category_rules.print()),
            None => None,
        },
{
    CategoryRulesStatus {
        source: category_rules.source().to_owned(),
        snapshot_fingerprint: copy_text(&snapshot.category_rules_fingerprint),
        current_fingerprint: category_rules.fingerprint().to_owned(),
        changed_since_scan: match &snapshot.category_rules_fingerprint {
            Some(print) => Some(!same_text(print.as_str(), category_rules.fingerprint())),
            None => None,
        },
    }
}

// ---------------------------------------------------------------------------
// Laws
// ---------------------------------------------------------------------------

/// The canonical list holds the normal forms of the items, in order.
pub proof fn lemma_canonical<R: Rule>(items: Seq<Seq<char>>)
    ensures
        increasing(canonical::<R>(items)),
        canonical::<R>(items).to_set() == normal_set::<R>(items),
{
    let s = lemma_canonical_exists::<R>(items);
    lemma_in_name_order(s);
}

proof fn lemma_canonical_exists<R: Rule>(items: Seq<Seq<char>>) -> (s: Seq<Seq<char>>)
    ensures
        increasing(s),
        s.to_set() == normal_set::<R>(items),
    decreases items.len(),
{
    if items.len() == 0 {
        let s = Seq::<Seq<char>>::empty();
        assert(s.to_set() =~= normal_set::<R>(items));
        s
    } else {
        let init = items.drop_last();
        let x = R::normal(items.last());
        let s = lemma_canonical_exists::<R>(init);
        assert forall|k: Seq<char>|
            #![auto]
            normal_set::<R>(items).contains(k) <==> normal_set::<R>(init).contains(k) || (k == x
                && k.len() > 0) by {
            if normal_set::<R>(items).contains(k) {
                let i = choose|i: int| 0 <= i < items.len() && k == R::normal(#[trigger] items[i]);
                if i < init.len() {
                    assert(init[i] == items[i]);
                }
            }
            if normal_set::<R>(init).contains(k) {
                let i = choose|i: int| 0 <= i < init.len() && k == R::normal(#[trigger] init[i]);
                assert(items[i] == init[i]);
            }
            assert(items[items.len() - 1] == items.last());
        }
        if x.len() == 0 {
            assert(normal_set::<R>(items) =~= normal_set::<R>(init));
            s
        } else {
            let t = lemma_increasing_insert(s, x);
            assert(t.to_set() =~= normal_set::<R>(items));
            t
        }
    }
}

/// Every item that has an owner is a normal form in one of the lists.
spec fn owners_from<R: Rule>(
    owners: Map<Seq<char>, Seq<char>>,
    names: Seq<Seq<char>>,
    raw: Lists,
) -> bool {
    forall|x: Seq<char>| #[trigger]
        owners.contains_key(x) ==> exists|i: int|
            0 <= i < names.len() && normal_set::<R>(raw[#[trigger] names[i]]).contains(x)
}

/// Lists are accepted where each name has more than white space and no two
/// names share an item.
pub proof fn law_disjoint_lists_are_accepted<R: Rule>(names: Seq<Seq<char>>, raw: Lists)
    requires
        forall|i: int| 0 <= i < names.len() ==> trim(#[trigger] names[i]).len() > 0,
        forall|i: int, j: int, x: Seq<char>|
            0 <= i < j < names.len() && normal_set::<R>(raw[#[trigger] names[i]]).contains(x)
                ==> !(#[trigger] normal_set::<R>(raw[#[trigger] names[j]]).contains(x)),
    ensures
        grouped::<R>(names, raw).refused is None,
{
    lemma_disjoint_lists::<R>(names, raw);
}

proof fn lemma_all_owned<R: Rule>(names: Seq<Seq<char>>, raw: Lists, i: int, x: Seq<char>)
    requires
        0 <= i < names.len(),
        normal_set::<R>(raw[names[i]]).contains(x),
    ensures
        grouped::<R>(names, raw).refused is Some || grouped::<R>(names, raw).owners.contains_key(x),
    decreases names.len(),
{
    let init = names.drop_last();
    let list = canonical::<R>(raw[names.last()]);
    if i < init.len() {
        assert(init[i] == names[i]);
        lemma_all_owned::<R>(init, raw, i, x);
    } else {
        lemma_canonical::<R>(raw[names.last()]);
        assert(list.to_set().contains(x));
    }
}

/// A configuration with an unnamed list is refused, and so is one that lists an
/// item under two names, in whatever spelling.
pub proof fn law_shared_items_are_refused<R: Rule>(
    names: Seq<Seq<char>>,
    raw: Lists,
    i: int,
    j: int,
    x: Seq<char>,
)
    requires
        0 <= i <= j < names.len(),
    ensures
        trim(names[j]).len() == 0 ==> grouped::<R>(names, raw).refused is Some,
        i < j && normal_set::<R>(raw[names[i]]).contains(x) && normal_set::<R>(
            raw[names[j]],
        ).contains(x) ==> grouped::<R>(names, raw).refused is Some,
    decreases names.len(),
{
    let init = names.drop_last();
    let before = grouped::<R>(init, raw);
    if j < init.len() {
        assert(init[i] == names[i] && init[j] == names[j]);
        law_shared_items_are_refused::<R>(init, raw, i, j, x);
    } else if i < j && normal_set::<R>(raw[names[i]]).contains(x) && normal_set::<R>(
        raw[names[j]],
    ).contains(x) {
        assert(init[i] == names[i]);
        lemma_all_owned::<R>(init, raw, i, x);
        let list = canonical::<R>(raw[names.last()]);
        lemma_canonical::<R>(raw[names.last()]);
        assert(list.to_set().contains(x));
        let k = choose|k: int| 0 <= k < list.len() && list[k] == x;
        lemma_first_owned(list, before.owners, 0);
    }
}

proof fn lemma_disjoint_lists<R: Rule>(names: Seq<Seq<char>>, raw: Lists)
    requires
        forall|i: int| 0 <= i < names.len() ==> trim(#[trigger] names[i]).len() > 0,
        forall|i: int, j: int, x: Seq<char>|
            0 <= i < j < names.len() && normal_set::<R>(raw[#[trigger] names[i]]).contains(x)
                ==> !(#[trigger] normal_set::<R>(raw[#[trigger] names[j]]).contains(x)),
    ensures
        grouped::<R>(names, raw).refused is None,
        owners_from::<R>(grouped::<R>(names, raw).owners, names, raw),
    decreases names.len(),
{
    if names.len() > 0 {
        let init = names.drop_last();
        let last = names.len() - 1;
        assert forall|i: int| 0 <= i < init.len() implies trim(#[trigger] init[i]).len() > 0 by {
            assert(init[i] == names[i]);
        }
        assert forall|i: int, j: int, x: Seq<char>|
            0 <= i < j < init.len() && normal_set::<R>(
                raw[#[trigger] init[i]],
            ).contains(x) implies !(#[trigger] normal_set::<R>(raw[#[trigger] init[j]]).contains(x)) by {
            assert(init[i] == names[i] && init[j] == names[j]);
        }
        lemma_disjoint_lists::<R>(init, raw);
        let so_far = grouped::<R>(init, raw);
        let items = raw[names.last()];
        let list = canonical::<R>(items);
        lemma_canonical::<R>(items);
        lemma_first_owned(list, so_far.owners, 0);
        let i = first_owned(list, so_far.owners, 0);
        assert(names[last] == names.last());
        if i < list.len() {
            let x = list[i];
            assert(list.to_set().contains(x));
            let k = choose|k: int|
                0 <= k < init.len() && normal_set::<R>(raw[#[trigger] init[k]]).contains(x);
            assert(init[k] == names[k]);
            assert(normal_set::<R>(raw[names[last]]).contains(x));
            assert(false);
        }
        let g = grouped::<R>(names, raw);
        assert forall|x: Seq<char>| #[trigger] g.owners.contains_key(x) implies exists|k: int|
            0 <= k < names.len() && normal_set::<R>(raw[#[trigger] names[k]]).contains(x) by {
            if list.contains(x) {
                assert(list.to_set().contains(x));
                assert(normal_set::<R>(raw[names[last]]).contains(x));
            } else {
                let k = choose|k: int|
                    0 <= k < init.len() && normal_set::<R>(raw[#[trigger] init[k]]).contains(x);
                assert(names[k] == init[k]);
            }
        }
    }
}

/// Two configurations list the same normal forms under the same names.
pub open spec fn same_rules(config: CategoryConfig, other: CategoryConfig) -> bool {
    let extensions = lists(config.categories.map());
    let other_extensions = lists(other.categories.map());
    &&& extensions.dom() == other_extensions.dom()
    &&& forall|k: Seq<char>| #[trigger]
        extensions.contains_key(k) ==> normal_set::<ExtensionRule>(extensions[k]) == normal_set::<
            ExtensionRule,
        >(other_extensions[k])
    &&& config.fragments().dom() == other.fragments().dom()
    &&& forall|k: Seq<char>| #[trigger]
        config.fragments().contains_key(k) ==> normal_set::<FragmentRule>(config.fragments()[k])
            == normal_set::<FragmentRule>(other.fragments()[k])
}

/// Multiplying by the FNV prime loses nothing: the prime has an inverse.
proof fn lemma_prime_keeps_apart(x: u64, y: u64)
    requires
        (x as nat * 0x100_0000_01b3) % 0x1_0000_0000_0000_0000 == (y as nat * 0x100_0000_01b3)
            % 0x1_0000_0000_0000_0000,
    ensures
        x == y,
{
    let m: int = 0x1_0000_0000_0000_0000;
    let prime: int = 0x100_0000_01b3;
    let inverse: int = 0xce965057aff6957b;
    let turns: int = 0xce9650590f;
    assert(prime * inverse == 1 + turns * m);
    assert forall|v: u64| #[trigger] ((v * prime) * inverse) % m == v by {
        assert((v * prime) * inverse == (v * turns) * m + v) by (nonlinear_arith)
            requires
                prime * inverse == 1 + turns * m,
        ;
        vstd::arithmetic::div_mod::lemma_mod_multiples_vanish(v * turns, v as int, m);
        assert((v * turns) * m == m * (v * turns)) by (nonlinear_arith);
        vstd::arithmetic::div_mod::lemma_small_mod(v as nat, m as nat);
    }
    vstd::arithmetic::div_mod::lemma_mul_mod_noop_left(x * prime, inverse, m);
    vstd::arithmetic::div_mod::lemma_mul_mod_noop_left(y * prime, inverse, m);
    assert(((x * prime) * inverse) % m == x);
    assert(((y * prime) * inverse) % m == y);
}

/// What follows does not bring two different hashes together.
proof fn lemma_fnv_ending(a: Seq<u8>, b: Seq<u8>, ending: Seq<u8>)
    ensures
        fnv1a(a + ending) == fnv1a(b + ending) <==> fnv1a(a) == fnv1a(b),
    decreases ending.len(),
{
    if ending.len() == 0 {
        assert(a + ending == a);
        assert(b + ending == b);
    } else {
        let init = ending.drop_last();
        let last = ending.last() as u64;
        lemma_fnv_ending(a, b, init);
        assert((a + ending).drop_last() == a + init);
        assert((b + ending).drop_last() == b + init);
        let (p, q) = (fnv1a(a + init), fnv1a(b + init));
        if fnv1a(a + ending) == fnv1a(b + ending) {
            lemma_prime_keeps_apart(p ^ last, q ^ last);
            assert(p ^ last == q ^ last ==> p == q) by (bit_vector);
        }
    }
}

/// Different bytes take one hash to two different ones.
proof fn lemma_fnv_byte(a: Seq<u8>, x: u8, y: u8)
    requires
        x != y,
    ensures
        fnv1a(a.push(x)) != fnv1a(a.push(y)),
{
    let h = fnv1a(a);
    assert(a.push(x).drop_last() == a);
    assert(a.push(y).drop_last() == a);
    if fnv1a(a.push(x)) == fnv1a(a.push(y)) {
        lemma_prime_keeps_apart(h ^ (x as u64), h ^ (y as u64));
        assert(h ^ (x as u64) == h ^ (y as u64) ==> x == y) by (bit_vector);
    }
}

/// Changing one byte changes the hash.
proof fn lemma_fnv_one_byte(a: Seq<u8>, n: int, y: u8)
    requires
        0 <= n < a.len(),
        a[n] != y,
    ensures
        fnv1a(a) != fnv1a(a.update(n, y)),
{
    let start = a.take(n);
    let ending = a.skip(n + 1);
    lemma_fnv_byte(start, a[n], y);
    lemma_fnv_ending(start.push(a[n]), start.push(y), ending);
    assert(start.push(a[n]) + ending =~= a);
    assert(start.push(y) + ending =~= a.update(n, y));
}

/// Two fingerprints are the same exactly where the hashes are. Where what is
/// fingerprinted ends the same, they are the same exactly where the hashes of
/// what stands before that end are; and where it differs in one byte, they differ.
pub proof fn law_fingerprint_tells_apart(
    extensions: Lists,
    fragments: Lists,
    other_extensions: Lists,
    other_fragments: Lists,
    n: nat,
)
    ensures
        ({
            let a = encode_utf8(rules_text(extensions, fragments));
            let b = encode_utf8(rules_text(other_extensions, other_fragments));
            let same = fingerprint_of(extensions, fragments) == fingerprint_of(
                other_extensions,
                other_fragments,
            );
            &&& same <==> fnv1a(a) == fnv1a(b)
            &&& n <= a.len() && n <= b.len() && a.skip(a.len() - n) == b.skip(b.len() - n) ==> (same
                <==> fnv1a(a.take(a.len() - n)) == fnv1a(b.take(b.len() - n)))
            &&& n < a.len() && a.len() == b.len() && a[n as int] != b[n as int] && a.update(
                n as int,
                b[n as int],
            ) == b ==> !same
        }),
{
    let a = encode_utf8(rules_text(extensions, fragments));
    let b = encode_utf8(rules_text(other_extensions, other_fragments));
    let print = fingerprint_of(extensions, fragments);
    let other = fingerprint_of(other_extensions, other_fragments);
    let head = "fnv1a64:"@;
    if print == other {
        assert(print.skip(head.len() as int) =~= hex(fnv1a(a) as nat, 16));
        assert(other.skip(head.len() as int) =~= hex(fnv1a(b) as nat, 16));
        lemma_hex_of_words(fnv1a(a), fnv1a(b));
    }
    if n <= a.len() && n <= b.len() && a.skip(a.len() - n) == b.skip(b.len() - n) {
        let (p, q) = (a.take(a.len() - n), b.take(b.len() - n));
        lemma_fnv_ending(p, q, a.skip(a.len() - n));
        assert(p + a.skip(a.len() - n) =~= a);
        assert(q + b.skip(b.len() - n) =~= b);
    }
    if n < a.len() && a.len() == b.len() && a[n as int] != b[n as int] && a.update(
        n as int,
        b[n as int],
    ) == b {
        lemma_fnv_one_byte(a, n as int, b[n as int]);
    }
}

/// The sum of the bytes of a text.
#[verifier::opaque]
pub open spec fn byte_sum(text: Seq<char>) -> nat {
    sum_of(encode_utf8(text), |b: u8| b as nat)
}

/// One list under one name.
pub open spec fn one_list(name: Seq<char>, items: Seq<Seq<char>>) -> Lists {
    Map::empty().insert(name, items)
}

proof fn lemma_low_bit(h: u64, b: u64)
    ensures
        (h ^ b) % 2 == (h + b) % 2,
{
    assert((h ^ b) % 2 == (h % 2) ^ (b % 2)) by (bit_vector);
    assert(0u64 ^ 0 == 0 && 0u64 ^ 1 == 1 && 1u64 ^ 0 == 1 && 1u64 ^ 1 == 0) by (bit_vector);
}

proof fn lemma_even_part(z: int, x: int, r: int)
    requires
        r == 2 * z + x,
    ensures
        r % 2 == x % 2,
{
}

proof fn lemma_odd_factor(x: nat)
    ensures
        ((x * 0x100_0000_01b3) % 0x1_0000_0000_0000_0000) % 2 == x % 2,
{
    let m: int = 0x1_0000_0000_0000_0000;
    let n: int = x as int * 0x100_0000_01b3;
    vstd::arithmetic::div_mod::lemma_fundamental_div_mod(n, m);
    let q = n / m;
    let r = n % m;
    assert(m * q == 2 * (0x8000_0000_0000_0000 * q));
    assert(n == 2 * (x * 0x80_0000_00d9) + x);
    lemma_even_part(x * 0x80_0000_00d9 - 0x8000_0000_0000_0000 * q, x as int, r);
}

/// The prime is odd, so the lowest bit of a hash counts the odd bytes.
proof fn lemma_fnv_parity(bytes: Seq<u8>)
    ensures
        fnv1a(bytes) as nat % 2 == (1 + sum_of(bytes, |b: u8| b as nat)) % 2,
    decreases bytes.len(),
{
    if bytes.len() > 0 {
        let init = bytes.drop_last();
        let last = bytes.last() as u64;
        lemma_fnv_parity(init);
        lemma_low_bit(fnv1a(init), last);
        lemma_odd_factor((fnv1a(init) ^ last) as nat);
    }
}

proof fn lemma_encoded(a: Seq<char>, b: Seq<char>)
    ensures
        encode_utf8(a + b) == encode_utf8(a) + encode_utf8(b),
    decreases a.len(),
{
    if a.len() == 0 {
        assert(a + b == b);
        assert(encode_utf8(a) + encode_utf8(b) =~= encode_utf8(b));
    } else {
        assert((a + b).drop_first() =~= a.drop_first() + b);
        lemma_encoded(a.drop_first(), b);
        assert(encode_utf8(a + b) =~= encode_utf8(a) + encode_utf8(b));
    }
}

proof fn lemma_byte_sums(a: Seq<char>, b: Seq<char>)
    ensures
        byte_sum(a + b) == byte_sum(a) + byte_sum(b),
{
    reveal(byte_sum);
    lemma_encoded(a, b);
    lemma_sum_append(encode_utf8(a), encode_utf8(b), |x: u8| x as nat);
}

/// Where the bytes of what is fingerprinted add up to an even number here and to
/// an odd one there, the fingerprints differ.
pub proof fn law_fingerprint_parity(
    extensions: Lists,
    fragments: Lists,
    other_extensions: Lists,
    other_fragments: Lists,
)
    requires
        byte_sum(rules_text(extensions, fragments)) % 2 != byte_sum(
            rules_text(other_extensions, other_fragments),
        ) % 2,
    ensures
        fingerprint_of(extensions, fragments) != fingerprint_of(other_extensions, other_fragments),
{
    reveal(byte_sum);
    lemma_fnv_parity(encode_utf8(rules_text(extensions, fragments)));
    lemma_fnv_parity(encode_utf8(rules_text(other_extensions, other_fragments)));
    law_fingerprint_tells_apart(extensions, fragments, other_extensions, other_fragments, 0);
}

/// A single list is kept under its name.
proof fn lemma_one_group<R: Rule>(name: Seq<char>, items: Seq<Seq<char>>)
    requires
        trim(name) == name,
        name.len() > 0,
    ensures
        grouping::<R>(one_list(name, items)).lists == one_list(name, canonical::<R>(items)),
        grouping::<R>(one_list(name, items)).refused is None,
{
    let raw = one_list(name, items);
    lemma_one_name(raw, name);
    let names = seq![name];
    assert(names.drop_last() == Seq::<Seq<char>>::empty());
    let start = grouped::<R>(names.drop_last(), raw);
    lemma_none_owned(canonical::<R>(items), start.owners, 0);
}

proof fn lemma_none_owned(
    items: Seq<Seq<char>>,
    owners: Map<Seq<char>, Seq<char>>,
    from: int,
)
    requires
        0 <= from <= items.len(),
        owners == Map::<Seq<char>, Seq<char>>::empty(),
    ensures
        first_owned(items, owners, from) == items.len(),
    decreases items.len() - from,
{
    if from < items.len() {
        lemma_none_owned(items, owners, from + 1);
    }
}

proof fn lemma_one_name(map: Lists, name: Seq<char>)
    requires
        map == one_list(name, map[name]),
    ensures
        in_name_order(map.dom()) == seq![name],
{
    assert(seq![name].to_set() =~= map.dom()) by {
        assert(seq![name][0] == name);
    }
    lemma_in_name_order(seq![name]);
}

/// What a single list adds to the sum of the bytes, beside its name.
proof fn lemma_one_sum(name: Seq<char>, items: Seq<Seq<char>>)
    ensures
        byte_sum(
            lists_text(in_name_order(one_list(name, items).dom()), one_list(name, items)),
        ) == byte_sum(name) + byte_sum("\0"@) + byte_sum(items_text(items)) + byte_sum("\n"@),
{
    let map = one_list(name, items);
    lemma_one_name(map, name);
    let names = seq![name];
    assert(names.drop_last() == Seq::<Seq<char>>::empty());
    let before = lists_text(names.drop_last(), map);
    assert(before + name =~= name);
    lemma_byte_sums(name, "\0"@);
    lemma_byte_sums(name + "\0"@, items_text(items));
    lemma_byte_sums(name + "\0"@ + items_text(items), "\n"@);
}

proof fn lemma_rules_sum(extensions: Lists, fragments: Lists)
    ensures
        byte_sum(rules_text(extensions, fragments)) == byte_sum(
            "dscan11-category-rules-v2\nextensions\n"@,
        ) + byte_sum(lists_text(in_name_order(extensions.dom()), extensions)) + byte_sum(
            "path-rules\n"@,
        ) + byte_sum(lists_text(in_name_order(fragments.dom()), fragments)),
{
    let head = "dscan11-category-rules-v2\nextensions\n"@;
    let first = lists_text(in_name_order(extensions.dom()), extensions);
    let second = lists_text(in_name_order(fragments.dom()), fragments);
    lemma_byte_sums(head, first);
    lemma_byte_sums(head + first, "path-rules\n"@);
    lemma_byte_sums(head + first + "path-rules\n"@, second);
}

proof fn lemma_moved_list(
    name: Seq<char>,
    other: Seq<char>,
    list: Seq<Seq<char>>,
    beside: Lists,
)
    requires
        byte_sum(name) % 2 != byte_sum(other) % 2,
    ensures
        fingerprint_of(one_list(name, list), beside) != fingerprint_of(
            one_list(other, list),
            beside,
        ),
        fingerprint_of(beside, one_list(name, list)) != fingerprint_of(
            beside,
            one_list(other, list),
        ),
{
    let (a, b) = (one_list(name, list), one_list(other, list));
    lemma_one_sum(name, list);
    lemma_one_sum(other, list);
    assert(byte_sum(rules_text(a, beside)) % 2 != byte_sum(rules_text(b, beside)) % 2) by {
        lemma_rules_sum(a, beside);
        lemma_rules_sum(b, beside);
    }
    law_fingerprint_parity(a, beside, b, beside);
    assert(byte_sum(rules_text(beside, a)) % 2 != byte_sum(rules_text(beside, b)) % 2) by {
        lemma_rules_sum(beside, a);
        lemma_rules_sum(beside, b);
    }
    law_fingerprint_parity(beside, a, beside, b);
}

/// A list that moves from one category to another changes the fingerprint, where
/// the bytes of one name add up to an even number and those of the other to an
/// odd one: extensions beside any path rules, and fragments beside any extensions.
pub proof fn law_moved_list_changes_the_fingerprint(
    name: Seq<char>,
    other: Seq<char>,
    items: Seq<Seq<char>>,
    beside: Lists,
)
    requires
        trim(name) == name,
        trim(other) == other,
        name.len() > 0,
        other.len() > 0,
        byte_sum(name) % 2 != byte_sum(other) % 2,
    ensures
        fingerprint_of(grouping::<ExtensionRule>(one_list(name, items)).lists, beside)
            != fingerprint_of(grouping::<ExtensionRule>(one_list(other, items)).lists, beside),
        fingerprint_of(beside, grouping::<FragmentRule>(one_list(name, items)).lists)
            != fingerprint_of(beside, grouping::<FragmentRule>(one_list(other, items)).lists),
{
    lemma_one_group::<ExtensionRule>(name, items);
    lemma_one_group::<ExtensionRule>(other, items);
    lemma_one_group::<FragmentRule>(name, items);
    lemma_one_group::<FragmentRule>(other, items);
    lemma_moved_list(name, other, canonical::<ExtensionRule>(items), beside);
    lemma_moved_list(name, other, canonical::<FragmentRule>(items), beside);
}

/// Extensions of documents are not those of archives, and fragments of models are
/// not those of containers: whatever is listed, the fingerprint tells which of
/// the two it is listed under.
pub proof fn law_named_categories_are_told_apart(items: Seq<Seq<char>>, beside: Lists)
    ensures
        fingerprint_of(grouping::<ExtensionRule>(one_list("Documents"@, items)).lists, beside)
            != fingerprint_of(
            grouping::<ExtensionRule>(one_list("Archives"@, items)).lists,
            beside,
        ),
        fingerprint_of(beside, grouping::<FragmentRule>(one_list("AI Models"@, items)).lists)
            != fingerprint_of(
            beside,
            grouping::<FragmentRule>(one_list("Docker / Containers"@, items)).lists,
        ),
{
    reveal_strlit("Documents");
    reveal_strlit("Archives");
    reveal_strlit("AI Models");
    reveal_strlit("Docker / Containers");
    lemma_ascii_sum("Documents"@);
    lemma_ascii_sum("Archives"@);
    lemma_ascii_sum("AI Models"@);
    lemma_ascii_sum("Docker / Containers"@);
    reveal_with_fuel(odd_chars, 20);
    assert(odd_chars("Documents"@, 9) == 6);
    assert(odd_chars("Archives"@, 8) == 5);
    assert(odd_chars("AI Models"@, 9) == 6);
    assert(odd_chars("Docker / Containers"@, 19) == 11);
    law_moved_list_changes_the_fingerprint("Documents"@, "Archives"@, items, beside);
    law_moved_list_changes_the_fingerprint("AI Models"@, "Docker / Containers"@, items, beside);
}

/// How many of the first `n` characters have an odd number.
spec fn odd_chars(text: Seq<char>, n: int) -> int
    decreases n,
{
    if n <= 0 {
        0
    } else {
        odd_chars(text, n - 1) + text[n - 1] as u32 % 2
    }
}

proof fn lemma_ascii_sum(text: Seq<char>)
    requires
        is_ascii_chars(text),
    ensures
        byte_sum(text) % 2 == odd_chars(text, text.len() as int) % 2,
{
    reveal(byte_sum);
    let bytes = encode_utf8(text);
    is_ascii_chars_encode_utf8(text);
    lemma_odd_bytes(text, bytes, text.len() as int);
    assert(bytes.take(text.len() as int) == bytes);
}

proof fn lemma_odd_bytes(text: Seq<char>, bytes: Seq<u8>, n: int)
    requires
        0 <= n <= text.len(),
        text.len() == bytes.len(),
        is_ascii_chars(text),
        forall|i: int| 0 <= i < text.len() ==> #[trigger] text[i] as u8 == bytes[i],
    ensures
        sum_of(bytes.take(n), |b: u8| b as nat) % 2 == odd_chars(text, n) % 2,
    decreases n,
{
    if n > 0 {
        lemma_odd_bytes(text, bytes, n - 1);
        assert(bytes.take(n).drop_last() == bytes.take(n - 1));
        assert(bytes.take(n).last() == text[n - 1] as u8);
        assert(text[n - 1] as u8 as nat == text[n - 1] as u32 as nat);
    }
}

/// Whether a configuration is refused, and its fingerprint, depend only on
/// which normal forms stand under which name: neither on the order of the items
/// nor on their case, dots and separators.
pub proof fn law_fingerprint_ignores_spelling(config: CategoryConfig, other: CategoryConfig)
    requires
        config.wf(),
        other.wf(),
        same_rules(config, other),
    ensures
        ({
            let extensions = lists(config.categories.map());
            let other_extensions = lists(other.categories.map());
            &&& refusal(extensions, config.fragments()) == refusal(
                other_extensions,
                other.fragments(),
            )
            &&& fingerprint_of(
                grouping::<ExtensionRule>(extensions).lists,
                grouping::<FragmentRule>(config.fragments()).lists,
            ) == fingerprint_of(
                grouping::<ExtensionRule>(other_extensions).lists,
                grouping::<FragmentRule>(other.fragments()).lists,
            )
        }),
{
    let extensions = lists(config.categories.map());
    let other_extensions = lists(other.categories.map());
    let names = in_name_order(extensions.dom());
    config.categories.lemma_keys();
    assert(extensions.dom() =~= config.categories.map().dom());
    assert forall|i: int| 0 <= i < names.len() implies extensions.contains_key(
        #[trigger] names[i],
    ) by {
        config.categories.lemma_at(i);
    }
    lemma_same_grouping::<ExtensionRule>(names, extensions, other_extensions);
    let fragments = config.fragments();
    let parts = in_name_order(fragments.dom());
    assert forall|i: int| 0 <= i < parts.len() implies fragments.contains_key(
        #[trigger] parts[i],
    ) by {
        match config.path_rules {
            Some(rules) => {
                rules.lemma_keys();
                assert(fragments.dom() =~= rules.map().dom());
                rules.lemma_at(i);
            },
            None => {
                let s1 = lemma_increasing_insert(Seq::empty(), "AI Models"@);
                let s2 = lemma_increasing_insert(s1, "Docker / Containers"@);
                assert(s2.to_set() =~= fragments.dom());
                lemma_in_name_order(s2);
                assert(parts.to_set().contains(parts[i]));
            },
        }
    }
    lemma_same_grouping::<FragmentRule>(parts, fragments, other.fragments());
}

proof fn lemma_same_grouping<R: Rule>(names: Seq<Seq<char>>, raw: Lists, other: Lists)
    requires
        forall|i: int|
            0 <= i < names.len() ==> normal_set::<R>(raw[#[trigger] names[i]]) == normal_set::<R>(
                other[names[i]],
            ),
    ensures
        grouped::<R>(names, raw) == grouped::<R>(names, other),
    decreases names.len(),
{
    if names.len() > 0 {
        let init = names.drop_last();
        assert forall|i: int| 0 <= i < init.len() implies normal_set::<R>(raw[#[trigger] init[i]])
            == normal_set::<R>(other[init[i]]) by {
            assert(init[i] == names[i]);
        }
        lemma_same_grouping::<R>(init, raw, other);
        assert(names[names.len() - 1] == names.last());
    }
}

/// A path rule that matches decides, whatever the extensions say; an extension
/// rule decides over the folders.
pub proof fn law_priority(
    style: PathStyle,
    path_rules: Seq<Pair>,
    extensions: Map<Seq<char>, Seq<char>>,
    path: Seq<char>,
)
    ensures
        forall|i: int|
            0 <= i < path_rules.len() && has_part(
                normal_fragment(path),
                (#[trigger] path_rules[i]).0,
            ) && (forall|j: int|
                0 <= j < i ==> !has_part(normal_fragment(path), (#[trigger] path_rules[j]).0))
                ==> classified(style, path_rules, extensions, path) == path_rules[i].1,
        (forall|i: int|
            0 <= i < path_rules.len() ==> !has_part(
                normal_fragment(path),
                (#[trigger] path_rules[i]).0,
            )) ==> classified(style, path_rules, extensions, path) == if extensions.contains_key(
            extension_key(style, path),
        ) {
            extensions[extension_key(style, path)]
        } else {
            fallback_category(style, path)
        },
{
    lemma_first_match(path_rules, normal_fragment(path), 0);
}

/// Some name of the path is this one, up to case.
pub open spec fn lies_in(style: PathStyle, path: Seq<char>, name: Seq<char>) -> bool {
    exists|i: int| 0 <= i < names(style, path).len() && reads_as(#[trigger] names(style, path)[i], name)
}

proof fn lemma_lies_in(style: PathStyle, path: Seq<char>, name: Seq<char>)
    ensures
        lies_in(style, path, name) <==> has_name(style, path, name),
{
    let all = names(style, path);
    assert forall|i: int| 0 <= i < all.len() implies (reads_as(#[trigger] all[i], name) <==> lower(
        all[i],
    ) == lower(name)) by {
        law_same_up_to_case(all[i], name);
    }
}

/// Where neither a path rule nor an extension claims a path, the folders it lies
/// in decide: those of code before those of temporary files, and these before the
/// cloud; a path that lies in none of the seven belongs to the rest, and no other
/// does.
pub proof fn law_folders_decide_last(
    style: PathStyle,
    path_rules: Seq<Pair>,
    extensions: Map<Seq<char>, Seq<char>>,
    path: Seq<char>,
)
    requires
        forall|i: int|
            0 <= i < path_rules.len() ==> !has_part(
                normal_fragment(path),
                (#[trigger] path_rules[i]).0,
            ),
        !extensions.contains_key(extension_key(style, path)),
    ensures
        ({
            let found = classified(style, path_rules, extensions, path);
            let code = lies_in(style, path, "node_modules"@) || lies_in(style, path, "target"@)
                || lies_in(style, path, ".git"@);
            let temporary = lies_in(style, path, "Temp"@) || lies_in(style, path, "Cache"@)
                || lies_in(style, path, ".cache"@);
            let cloud = lies_in(style, path, "OneDrive"@);
            &&& code ==> found == "Developer / Code"@
            &&& !code && temporary ==> found == "Temporary / Cache"@
            &&& !code && !temporary && cloud ==> found == "Cloud / OneDrive"@
            &&& !code && !temporary && !cloud ==> found == "Other"@
            &&& found == "Other"@ ==> !code && !temporary && !cloud
        }),
{
    law_priority(style, path_rules, extensions, path);
    lemma_lies_in(style, path, "node_modules"@);
    lemma_lies_in(style, path, "target"@);
    lemma_lies_in(style, path, ".git"@);
    lemma_lies_in(style, path, "Temp"@);
    lemma_lies_in(style, path, "Cache"@);
    lemma_lies_in(style, path, ".cache"@);
    lemma_lies_in(style, path, "OneDrive"@);
    reveal_strlit("Developer / Code");
    reveal_strlit("Temporary / Cache");
    reveal_strlit("Cloud / OneDrive");
    reveal_strlit("Other");
    assert("Other"@.len() == 5);
    assert("Developer / Code"@.len() == 16);
    assert("Temporary / Cache"@.len() == 17);
    assert("Cloud / OneDrive"@.len() == 16);
}

/// Path rules look at neither the case nor the kind of separators: two paths
/// with the same normal form fall under the same path rule, if under any.
pub proof fn law_path_rules_ignore_spelling(
    style: PathStyle,
    path_rules: Seq<Pair>,
    extensions: Map<Seq<char>, Seq<char>>,
    path: Seq<char>,
    other: Seq<char>,
)
    requires
        normal_fragment(path) == normal_fragment(other),
        exists|i: int|
            0 <= i < path_rules.len() && has_part(
                normal_fragment(path),
                (#[trigger] path_rules[i]).0,
            ),
    ensures
        classified(style, path_rules, extensions, path) == classified(style, path_rules, extensions, other),
{
    lemma_first_match(path_rules, normal_fragment(path), 0);
}

proof fn lemma_first_match(rules: Seq<Pair>, path: Seq<char>, from: int)
    requires
        0 <= from <= rules.len(),
    ensures
        from <= first_match(rules, path, from) <= rules.len(),
        first_match(rules, path, from) < rules.len() ==> has_part(
            path,
            rules[first_match(rules, path, from)].0,
        ),
        forall|k: int|
            from <= k < first_match(rules, path, from) ==> !has_part(
                path,
                (#[trigger] rules[k]).0,
            ),
    decreases rules.len() - from,
{
    if !(from >= rules.len() || has_part(path, rules[from].0)) {
        lemma_first_match(rules, path, from + 1);
    }
}

/// Every item in a canonical list belongs to the category of that list.
pub open spec fn owners_agree(g: Grouping) -> bool {
    forall|category: Seq<char>, x: Seq<char>|
        #![trigger g.lists[category].contains(x)]
        g.lists.contains_key(category) && g.lists[category].contains(x) ==> g.owners.contains_key(x)
            && g.owners[x] == category
}

proof fn lemma_owners_agree<R: Rule>(names: Seq<Seq<char>>, raw: Lists)
    ensures
        owners_agree(grouped::<R>(names, raw)),
    decreases names.len(),
{
    if names.len() > 0 {
        lemma_owners_agree::<R>(names.drop_last(), raw);
        let before = grouped::<R>(names.drop_last(), raw);
        let g = grouped::<R>(names, raw);
        let list = canonical::<R>(raw[names.last()]);
        lemma_first_owned(list, before.owners, 0);
        assert forall|category: Seq<char>, x: Seq<char>|
            #![trigger g.lists[category].contains(x)]
            g.lists.contains_key(category) && g.lists[category].contains(
                x,
            ) implies g.owners.contains_key(x) && g.owners[x] == category by {
            if g != before && g.refused is None && category != trim(names.last()) {
                assert(before.lists[category].contains(x));
                if list.contains(x) {
                    let k = choose|k: int| 0 <= k < list.len() && list[k] == x;
                    assert(!before.owners.contains_key(list[k]));
                }
            }
        }
    }
}

/// The names of canonical lists can be put in order.
proof fn lemma_grouped_order<R: Rule>(names: Seq<Seq<char>>, raw: Lists) -> (s: Seq<Seq<char>>)
    ensures
        increasing(s),
        s.to_set() == grouped::<R>(names, raw).lists.dom(),
    decreases names.len(),
{
    if names.len() == 0 {
        let s = Seq::<Seq<char>>::empty();
        assert(s.to_set() =~= grouped::<R>(names, raw).lists.dom());
        s
    } else {
        let s = lemma_grouped_order::<R>(names.drop_last(), raw);
        let before = grouped::<R>(names.drop_last(), raw);
        let g = grouped::<R>(names, raw);
        if g.lists == before.lists {
            s
        } else {
            let t = lemma_increasing_insert(s, trim(names.last()));
            assert(t.to_set() =~= g.lists.dom());
            t
        }
    }
}

proof fn lemma_pairs_members(names: Seq<Seq<char>>, map: Lists, p: Pair)
    ensures
        pairs(names, map).contains(p) <==> exists|i: int|
            0 <= i < names.len() && #[trigger] names[i] == p.1 && map[names[i]].contains(p.0),
    decreases names.len(),
{
    if names.len() > 0 {
        let init = names.drop_last();
        lemma_pairs_members(init, map, p);
        let a = pairs(init, map);
        let b = paired(map[names.last()], names.last());
        let whole = pairs(names, map);
        assert(whole == a + b);
        if a.contains(p) {
            let k = choose|k: int| 0 <= k < a.len() && a[k] == p;
            assert(whole[k] == p);
            let i = choose|i: int|
                0 <= i < init.len() && #[trigger] init[i] == p.1 && map[init[i]].contains(p.0);
            assert(names[i] == p.1);
        }
        if names.last() == p.1 && map[names.last()].contains(p.0) {
            let k = choose|k: int|
                0 <= k < map[names.last()].len() && map[names.last()][k] == p.0;
            assert(b[k] == p);
            assert(whole[a.len() + k] == p);
        }
        if whole.contains(p) {
            let k = choose|k: int| 0 <= k < whole.len() && whole[k] == p;
            if k < a.len() {
                assert(a[k] == p);
                let i = choose|i: int|
                    0 <= i < init.len() && #[trigger] init[i] == p.1 && map[init[i]].contains(p.0);
                assert(names[i] == p.1);
            } else {
                assert(b[k - a.len()] == p);
                assert(map[names.last()][k - a.len()] == p.0);
                assert(names[names.len() - 1] == p.1);
            }
        }
        if exists|i: int|
            0 <= i < names.len() && #[trigger] names[i] == p.1 && map[names[i]].contains(p.0) {
            let i = choose|i: int|
                0 <= i < names.len() && #[trigger] names[i] == p.1 && map[names[i]].contains(p.0);
            if i < init.len() {
                assert(init[i] == p.1);
            }
        }
    }
}

proof fn lemma_category_by_item(list: Seq<Pair>, x: Seq<char>, category: Seq<char>)
    requires
        list.contains((x, category)),
        forall|i: int| 0 <= i < list.len() && (#[trigger] list[i]).0 == x ==> list[i].1 == category,
    ensures
        category_by_item(list).contains_key(x),
        category_by_item(list)[x] == category,
    decreases list.len(),
{
    let k = choose|k: int| 0 <= k < list.len() && list[k] == (x, category);
    let init = list.drop_last();
    if list.last().0 == x {
        assert(list[list.len() - 1].1 == category);
    } else {
        assert(init[k] == (x, category));
        assert forall|i: int| 0 <= i < init.len() && (#[trigger] init[i]).0 == x implies init[i].1
            == category by {
            assert(init[i] == list[i]);
        }
        lemma_category_by_item(init, x, category);
    }
}

/// An extension that stands under a category in an accepted configuration is
/// classified to that category, and to no other.
pub proof fn law_listed_extension_has_its_category(
    config: CategoryConfig,
    category: Seq<char>,
    x: Seq<char>,
)
    requires
        config.wf(),
        ({
            let found = grouping::<ExtensionRule>(lists(config.categories.map())).lists;
            found.contains_key(category) && found[category].contains(x)
        }),
    ensures
        ({
            let found = grouping::<ExtensionRule>(lists(config.categories.map())).lists;
            let by_item = category_by_item(all_pairs(found));
            by_item.contains_key(x) && by_item[x] == category
        }),
{
    let raw = lists(config.categories.map());
    let g = grouping::<ExtensionRule>(raw);
    let found = g.lists;
    lemma_owners_agree::<ExtensionRule>(in_name_order(raw.dom()), raw);
    let names = in_name_order(found.dom());
    let order = lemma_grouped_order::<ExtensionRule>(in_name_order(raw.dom()), raw);
    lemma_in_name_order(order);
    assert(names.to_set().contains(category));
    let n = choose|n: int| 0 <= n < names.len() && names[n] == category;
    let list = all_pairs(found);
    lemma_pairs_members(names, found, (x, category));
    assert(names[n] == category && found[names[n]].contains(x));
    assert(list.contains((x, category)));
    assert forall|i: int| 0 <= i < list.len() && (#[trigger] list[i]).0 == x implies list[i].1
        == category by {
        let p = list[i];
        assert(list.contains(p));
        lemma_pairs_members(names, found, p);
        let m = choose|m: int|
            0 <= m < names.len() && #[trigger] names[m] == p.1 && found[names[m]].contains(p.0);
        assert(names.to_set().contains(names[m]));
        assert(g.lists[p.1].contains(x));
        assert(g.lists[category].contains(x));
    }
    lemma_category_by_item(list, x, category);
}

} // verus!
