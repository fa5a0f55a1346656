//! The built-in category rules are valid, and classify every path.
use crate::categories::{
    all_pairs, category_by_item, classified, default_extension_lists, default_fragment_lists,
    grouping, law_disjoint_lists_are_accepted, normal_extension, normal_fragment, normal_set,
    refusal, CategoryConfig, CategoryRules, ExtensionRule, FragmentRule, Rule, Separator,
};
use crate::names::{in_name_order, increasing, lemma_increasing_insert};
use crate::text::{
    full_pieces, is_white, joined, lower, lower_char, pieces, text_lt, trim, trim_back, trim_front,
    Kind,
};
use crate::paths::{is_sep, PathStyle};
use vstd::prelude::*;

verus! {

// ---------------------------------------------------------------------------
// Extensions
// ---------------------------------------------------------------------------

/// A character that no normal form changes.
spec fn plain(c: char) -> bool {
    ('a' <= c && c <= 'z') || ('0' <= c && c <= '9')
}

spec fn all_plain(s: Seq<char>) -> bool {
    s.len() > 0 && forall|i: int| 0 <= i < s.len() ==> plain(#[trigger] s[i])
}

proof fn lemma_plain_extension(s: Seq<char>)
    requires
        all_plain(s),
    ensures
        normal_extension(s) == s,
{
    let white = |c: char| is_white(c);
    assert(plain(s[0]) && plain(s[s.len() - 1]));
    assert(trim_front(s, white) == s);
    assert(trim_back(s, white) == s);
    assert(trim_front(s, |c: char| c == '.') == s);
    assert forall|i: int| 0 <= i < s.len() implies lower(s)[i] == s[i] by {
        assert(plain(s[i]));
    }
    assert(lower(s) =~= s);
}

/// The place of the built-in category of an extension.
spec fn group_of(x: Seq<char>) -> int {
    if x == "exe"@ || x == "msi"@ || x == "msix"@ || x == "appx"@ || x == "dll"@ || x == "sys"@ {
        0
    } else if x == "pdf"@ || x == "doc"@ || x == "docx"@ || x == "xls"@ || x == "xlsx"@ ||
        x == "ppt"@ || x == "pptx"@ || x == "txt"@ || x == "md"@ || x == "rtf"@ || x == "csv"@ ||
        x == "odt"@ || x == "ods"@ || x == "odp"@ {
        1
    } else if x == "jpg"@ || x == "jpeg"@ || x == "png"@ || x == "gif"@ || x == "bmp"@ ||
        x == "tif"@ || x == "tiff"@ || x == "webp"@ || x == "heic"@ || x == "raw"@ ||
        x == "svg"@ || x == "ico"@ {
        2
    } else if x == "mp4"@ || x == "mkv"@ || x == "mov"@ || x == "avi"@ || x == "wmv"@ || x == "flv"@ ||
        x == "webm"@ || x == "m4v"@ {
        3
    } else if x == "mp3"@ || x == "wav"@ || x == "flac"@ || x == "aac"@ || x == "m4a"@ ||
        x == "ogg"@ || x == "wma"@ {
        4
    } else if x == "zip"@ || x == "7z"@ || x == "rar"@ || x == "tar"@ || x == "gz"@ || x == "bz2"@ ||
        x == "xz"@ || x == "zst"@ {
        5
    } else if x == "iso"@ || x == "img"@ || x == "vhd"@ || x == "vhdx"@ || x == "vmdk"@ ||
        x == "ova"@ || x == "ovf"@ || x == "qcow2"@ {
        6
    } else if x == "rs"@ || x == "py"@ || x == "js"@ || x == "ts"@ || x == "tsx"@ || x == "jsx"@ ||
        x == "java"@ || x == "cs"@ || x == "cpp"@ || x == "c"@ || x == "h"@ || x == "hpp"@ ||
        x == "go"@ || x == "rb"@ || x == "php"@ || x == "html"@ || x == "css"@ || x == "json"@ ||
        x == "toml"@ || x == "yaml"@ || x == "yml"@ || x == "xml"@ || x == "sql"@ || x == "lock"@ {
        7
    } else if x == "tmp"@ || x == "temp"@ || x == "log"@ || x == "bak"@ || x == "dmp"@ {
        8
    } else {
        9
    }
}

proof fn lemma_apps_spelled()
    ensures
        "exe"@.len() == 3 && "exe"@[0] == 'e' && "exe"@[1] == 'x' && "exe"@[2] == 'e',
        "msi"@.len() == 3 && "msi"@[0] == 'm' && "msi"@[1] == 's' && "msi"@[2] == 'i',
        "msix"@.len() == 4 && "msix"@[0] == 'm' && "msix"@[1] == 's' && "msix"@[2] == 'i' &&
            "msix"@[3] == 'x',
        "appx"@.len() == 4 && "appx"@[0] == 'a' && "appx"@[1] == 'p' && "appx"@[2] == 'p' &&
            "appx"@[3] == 'x',
        "dll"@.len() == 3 && "dll"@[0] == 'd' && "dll"@[1] == 'l' && "dll"@[2] == 'l',
        "sys"@.len() == 3 && "sys"@[0] == 's' && "sys"@[1] == 'y' && "sys"@[2] == 's',
{
    reveal_strlit("exe");
    reveal_strlit("msi");
    reveal_strlit("msix");
    reveal_strlit("appx");
    reveal_strlit("dll");
    reveal_strlit("sys");
}

proof fn lemma_documents_spelled()
    ensures
        "pdf"@.len() == 3 && "pdf"@[0] == 'p' && "pdf"@[1] == 'd' && "pdf"@[2] == 'f',
        "doc"@.len() == 3 && "doc"@[0] == 'd' && "doc"@[1] == 'o' && "doc"@[2] == 'c',
        "docx"@.len() == 4 && "docx"@[0] == 'd' && "docx"@[1] == 'o' && "docx"@[2] == 'c' &&
            "docx"@[3] == 'x',
        "xls"@.len() == 3 && "xls"@[0] == 'x' && "xls"@[1] == 'l' && "xls"@[2] == 's',
        "xlsx"@.len() == 4 && "xlsx"@[0] == 'x' && "xlsx"@[1] == 'l' && "xlsx"@[2] == 's' &&
            "xlsx"@[3] == 'x',
        "ppt"@.len() == 3 && "ppt"@[0] == 'p' && "ppt"@[1] == 'p' && "ppt"@[2] == 't',
        "pptx"@.len() == 4 && "pptx"@[0] == 'p' && "pptx"@[1] == 'p' && "pptx"@[2] == 't' &&
            "pptx"@[3] == 'x',
        "txt"@.len() == 3 && "txt"@[0] == 't' && "txt"@[1] == 'x' && "txt"@[2] == 't',
        "md"@.len() == 2 && "md"@[0] == 'm' && "md"@[1] == 'd',
        "rtf"@.len() == 3 && "rtf"@[0] == 'r' && "rtf"@[1] == 't' && "rtf"@[2] == 'f',
        "csv"@.len() == 3 && "csv"@[0] == 'c' && "csv"@[1] == 's' && "csv"@[2] == 'v',
        "odt"@.len() == 3 && "odt"@[0] == 'o' && "odt"@[1] == 'd' && "odt"@[2] == 't',
        "ods"@.len() == 3 && "ods"@[0] == 'o' && "ods"@[1] == 'd' && "ods"@[2] == 's',
        "odp"@.len() == 3 && "odp"@[0] == 'o' && "odp"@[1] == 'd' && "odp"@[2] == 'p',
{
    reveal_strlit("pdf");
    reveal_strlit("doc");
    reveal_strlit("docx");
    reveal_strlit("xls");
    reveal_strlit("xlsx");
    reveal_strlit("ppt");
    reveal_strlit("pptx");
    reveal_strlit("txt");
    reveal_strlit("md");
    reveal_strlit("rtf");
    reveal_strlit("csv");
    reveal_strlit("odt");
    reveal_strlit("ods");
    reveal_strlit("odp");
}

proof fn lemma_pictures_spelled()
    ensures
        "jpg"@.len() == 3 && "jpg"@[0] == 'j' && "jpg"@[1] == 'p' && "jpg"@[2] == 'g',
        "jpeg"@.len() == 4 && "jpeg"@[0] == 'j' && "jpeg"@[1] == 'p' && "jpeg"@[2] == 'e' &&
            "jpeg"@[3] == 'g',
        "png"@.len() == 3 && "png"@[0] == 'p' && "png"@[1] == 'n' && "png"@[2] == 'g',
        "gif"@.len() == 3 && "gif"@[0] == 'g' && "gif"@[1] == 'i' && "gif"@[2] == 'f',
        "bmp"@.len() == 3 && "bmp"@[0] == 'b' && "bmp"@[1] == 'm' && "bmp"@[2] == 'p',
        "tif"@.len() == 3 && "tif"@[0] == 't' && "tif"@[1] == 'i' && "tif"@[2] == 'f',
        "tiff"@.len() == 4 && "tiff"@[0] == 't' && "tiff"@[1] == 'i' && "tiff"@[2] == 'f' &&
            "tiff"@[3] == 'f',
        "webp"@.len() == 4 && "webp"@[0] == 'w' && "webp"@[1] == 'e' && "webp"@[2] == 'b' &&
            "webp"@[3] == 'p',
        "heic"@.len() == 4 && "heic"@[0] == 'h' && "heic"@[1] == 'e' && "heic"@[2] == 'i' &&
            "heic"@[3] == 'c',
        "raw"@.len() == 3 && "raw"@[0] == 'r' && "raw"@[1] == 'a' && "raw"@[2] == 'w',
        "svg"@.len() == 3 && "svg"@[0] == 's' && "svg"@[1] == 'v' && "svg"@[2] == 'g',
        "ico"@.len() == 3 && "ico"@[0] == 'i' && "ico"@[1] == 'c' && "ico"@[2] == 'o',
{
    reveal_strlit("jpg");
    reveal_strlit("jpeg");
    reveal_strlit("png");
    reveal_strlit("gif");
    reveal_strlit("bmp");
    reveal_strlit("tif");
    reveal_strlit("tiff");
    reveal_strlit("webp");
    reveal_strlit("heic");
    reveal_strlit("raw");
    reveal_strlit("svg");
    reveal_strlit("ico");
}

proof fn lemma_videos_spelled()
    ensures
        "mp4"@.len() == 3 && "mp4"@[0] == 'm' && "mp4"@[1] == 'p' && "mp4"@[2] == '4',
        "mkv"@.len() == 3 && "mkv"@[0] == 'm' && "mkv"@[1] == 'k' && "mkv"@[2] == 'v',
        "mov"@.len() == 3 && "mov"@[0] == 'm' && "mov"@[1] == 'o' && "mov"@[2] == 'v',
        "avi"@.len() == 3 && "avi"@[0] == 'a' && "avi"@[1] == 'v' && "avi"@[2] == 'i',
        "wmv"@.len() == 3 && "wmv"@[0] == 'w' && "wmv"@[1] == 'm' && "wmv"@[2] == 'v',
        "flv"@.len() == 3 && "flv"@[0] == 'f' && "flv"@[1] == 'l' && "flv"@[2] == 'v',
        "webm"@.len() == 4 && "webm"@[0] == 'w' && "webm"@[1] == 'e' && "webm"@[2] == 'b' &&
            "webm"@[3] == 'm',
        "m4v"@.len() == 3 && "m4v"@[0] == 'm' && "m4v"@[1] == '4' && "m4v"@[2] == 'v',
{
    reveal_strlit("mp4");
    reveal_strlit("mkv");
    reveal_strlit("mov");
    reveal_strlit("avi");
    reveal_strlit("wmv");
    reveal_strlit("flv");
    reveal_strlit("webm");
    reveal_strlit("m4v");
}

proof fn lemma_music_spelled()
    ensures
        "mp3"@.len() == 3 && "mp3"@[0] == 'm' && "mp3"@[1] == 'p' && "mp3"@[2] == '3',
        "wav"@.len() == 3 && "wav"@[0] == 'w' && "wav"@[1] == 'a' && "wav"@[2] == 'v',
        "flac"@.len() == 4 && "flac"@[0] == 'f' && "flac"@[1] == 'l' && "flac"@[2] == 'a' &&
            "flac"@[3] == 'c',
        "aac"@.len() == 3 && "aac"@[0] == 'a' && "aac"@[1] == 'a' && "aac"@[2] == 'c',
        "m4a"@.len() == 3 && "m4a"@[0] == 'm' && "m4a"@[1] == '4' && "m4a"@[2] == 'a',
        "ogg"@.len() == 3 && "ogg"@[0] == 'o' && "ogg"@[1] == 'g' && "ogg"@[2] == 'g',
        "wma"@.len() == 3 && "wma"@[0] == 'w' && "wma"@[1] == 'm' && "wma"@[2] == 'a',
{
    reveal_strlit("mp3");
    reveal_strlit("wav");
    reveal_strlit("flac");
    reveal_strlit("aac");
    reveal_strlit("m4a");
    reveal_strlit("ogg");
    reveal_strlit("wma");
}

proof fn lemma_archives_spelled()
    ensures
        "zip"@.len() == 3 && "zip"@[0] == 'z' && "zip"@[1] == 'i' && "zip"@[2] == 'p',
        "7z"@.len() == 2 && "7z"@[0] == '7' && "7z"@[1] == 'z',
        "rar"@.len() == 3 && "rar"@[0] == 'r' && "rar"@[1] == 'a' && "rar"@[2] == 'r',
        "tar"@.len() == 3 && "tar"@[0] == 't' && "tar"@[1] == 'a' && "tar"@[2] == 'r',
        "gz"@.len() == 2 && "gz"@[0] == 'g' && "gz"@[1] == 'z',
        "bz2"@.len() == 3 && "bz2"@[0] == 'b' && "bz2"@[1] == 'z' && "bz2"@[2] == '2',
        "xz"@.len() == 2 && "xz"@[0] == 'x' && "xz"@[1] == 'z',
        "zst"@.len() == 3 && "zst"@[0] == 'z' && "zst"@[1] == 's' && "zst"@[2] == 't',
{
    reveal_strlit("zip");
    reveal_strlit("7z");
    reveal_strlit("rar");
    reveal_strlit("tar");
    reveal_strlit("gz");
    reveal_strlit("bz2");
    reveal_strlit("xz");
    reveal_strlit("zst");
}

proof fn lemma_images_spelled()
    ensures
        "iso"@.len() == 3 && "iso"@[0] == 'i' && "iso"@[1] == 's' && "iso"@[2] == 'o',
        "img"@.len() == 3 && "img"@[0] == 'i' && "img"@[1] == 'm' && "img"@[2] == 'g',
        "vhd"@.len() == 3 && "vhd"@[0] == 'v' && "vhd"@[1] == 'h' && "vhd"@[2] == 'd',
        "vhdx"@.len() == 4 && "vhdx"@[0] == 'v' && "vhdx"@[1] == 'h' && "vhdx"@[2] == 'd' &&
            "vhdx"@[3] == 'x',
        "vmdk"@.len() == 4 && "vmdk"@[0] == 'v' && "vmdk"@[1] == 'm' && "vmdk"@[2] == 'd' &&
            "vmdk"@[3] == 'k',
        "ova"@.len() == 3 && "ova"@[0] == 'o' && "ova"@[1] == 'v' && "ova"@[2] == 'a',
        "ovf"@.len() == 3 && "ovf"@[0] == 'o' && "ovf"@[1] == 'v' && "ovf"@[2] == 'f',
        "qcow2"@.len() == 5 && "qcow2"@[0] == 'q' && "qcow2"@[1] == 'c' &&
            "qcow2"@[2] == 'o' && "qcow2"@[3] == 'w' && "qcow2"@[4] == '2',
{
    reveal_strlit("iso");
    reveal_strlit("img");
    reveal_strlit("vhd");
    reveal_strlit("vhdx");
    reveal_strlit("vmdk");
    reveal_strlit("ova");
    reveal_strlit("ovf");
    reveal_strlit("qcow2");
}

proof fn lemma_code_spelled()
    ensures
        "rs"@.len() == 2 && "rs"@[0] == 'r' && "rs"@[1] == 's',
        "py"@.len() == 2 && "py"@[0] == 'p' && "py"@[1] == 'y',
        "js"@.len() == 2 && "js"@[0] == 'j' && "js"@[1] == 's',
        "ts"@.len() == 2 && "ts"@[0] == 't' && "ts"@[1] == 's',
        "tsx"@.len() == 3 && "tsx"@[0] == 't' && "tsx"@[1] == 's' && "tsx"@[2] == 'x',
        "jsx"@.len() == 3 && "jsx"@[0] == 'j' && "jsx"@[1] == 's' && "jsx"@[2] == 'x',
        "java"@.len() == 4 && "java"@[0] == 'j' && "java"@[1] == 'a' && "java"@[2] == 'v' &&
            "java"@[3] == 'a',
        "cs"@.len() == 2 && "cs"@[0] == 'c' && "cs"@[1] == 's',
        "cpp"@.len() == 3 && "cpp"@[0] == 'c' && "cpp"@[1] == 'p' && "cpp"@[2] == 'p',
        "c"@.len() == 1 && "c"@[0] == 'c',
        "h"@.len() == 1 && "h"@[0] == 'h',
        "hpp"@.len() == 3 && "hpp"@[0] == 'h' && "hpp"@[1] == 'p' && "hpp"@[2] == 'p',
        "go"@.len() == 2 && "go"@[0] == 'g' && "go"@[1] == 'o',
        "rb"@.len() == 2 && "rb"@[0] == 'r' && "rb"@[1] == 'b',
        "php"@.len() == 3 && "php"@[0] == 'p' && "php"@[1] == 'h' && "php"@[2] == 'p',
        "html"@.len() == 4 && "html"@[0] == 'h' && "html"@[1] == 't' && "html"@[2] == 'm' &&
            "html"@[3] == 'l',
        "css"@.len() == 3 && "css"@[0] == 'c' && "css"@[1] == 's' && "css"@[2] == 's',
        "json"@.len() == 4 && "json"@[0] == 'j' && "json"@[1] == 's' && "json"@[2] == 'o' &&
            "json"@[3] == 'n',
        "toml"@.len() == 4 && "toml"@[0] == 't' && "toml"@[1] == 'o' && "toml"@[2] == 'm' &&
            "toml"@[3] == 'l',
        "yaml"@.len() == 4 && "yaml"@[0] == 'y' && "yaml"@[1] == 'a' && "yaml"@[2] == 'm' &&
            "yaml"@[3] == 'l',
        "yml"@.len() == 3 && "yml"@[0] == 'y' && "yml"@[1] == 'm' && "yml"@[2] == 'l',
        "xml"@.len() == 3 && "xml"@[0] == 'x' && "xml"@[1] == 'm' && "xml"@[2] == 'l',
        "sql"@.len() == 3 && "sql"@[0] == 's' && "sql"@[1] == 'q' && "sql"@[2] == 'l',
        "lock"@.len() == 4 && "lock"@[0] == 'l' && "lock"@[1] == 'o' && "lock"@[2] == 'c' &&
            "lock"@[3] == 'k',
{
    reveal_strlit("rs");
    reveal_strlit("py");
    reveal_strlit("js");
    reveal_strlit("ts");
    reveal_strlit("tsx");
    reveal_strlit("jsx");
    reveal_strlit("java");
    reveal_strlit("cs");
    reveal_strlit("cpp");
    reveal_strlit("c");
    reveal_strlit("h");
    reveal_strlit("hpp");
    reveal_strlit("go");
    reveal_strlit("rb");
    reveal_strlit("php");
    reveal_strlit("html");
    reveal_strlit("css");
    reveal_strlit("json");
    reveal_strlit("toml");
    reveal_strlit("yaml");
    reveal_strlit("yml");
    reveal_strlit("xml");
    reveal_strlit("sql");
    reveal_strlit("lock");
}

proof fn lemma_temporary_spelled()
    ensures
        "tmp"@.len() == 3 && "tmp"@[0] == 't' && "tmp"@[1] == 'm' && "tmp"@[2] == 'p',
        "temp"@.len() == 4 && "temp"@[0] == 't' && "temp"@[1] == 'e' && "temp"@[2] == 'm' &&
            "temp"@[3] == 'p',
        "log"@.len() == 3 && "log"@[0] == 'l' && "log"@[1] == 'o' && "log"@[2] == 'g',
        "bak"@.len() == 3 && "bak"@[0] == 'b' && "bak"@[1] == 'a' && "bak"@[2] == 'k',
        "dmp"@.len() == 3 && "dmp"@[0] == 'd' && "dmp"@[1] == 'm' && "dmp"@[2] == 'p',
{
    reveal_strlit("tmp");
    reveal_strlit("temp");
    reveal_strlit("log");
    reveal_strlit("bak");
    reveal_strlit("dmp");
}

proof fn lemma_apps_group(items: Seq<Seq<char>>, i: int)
    requires
        items == seq![
            "exe"@, "msi"@, "msix"@, "appx"@, "dll"@, "sys"@,
        ],
        0 <= i < items.len(),
    ensures
        all_plain(items[i]),
        group_of(items[i]) == 0,
{
    lemma_apps_spelled();
    assert(
        items[i] == "exe"@ || items[i] == "msi"@ || items[i] == "msix"@ || items[i] == "appx"@ ||
        items[i] == "dll"@ || items[i] == "sys"@
    );
}

proof fn lemma_documents_group(items: Seq<Seq<char>>, i: int)
    requires
        items == seq![
            "pdf"@, "doc"@, "docx"@, "xls"@, "xlsx"@, "ppt"@, "pptx"@, "txt"@, "md"@, "rtf"@,
            "csv"@, "odt"@, "ods"@, "odp"@,
        ],
        0 <= i < items.len(),
    ensures
        all_plain(items[i]),
        group_of(items[i]) == 1,
{
    lemma_apps_spelled();
    lemma_documents_spelled();
    assert(
        items[i] == "pdf"@ || items[i] == "doc"@ || items[i] == "docx"@ || items[i] == "xls"@ ||
        items[i] == "xlsx"@ || items[i] == "ppt"@ || items[i] == "pptx"@ || items[i] == "txt"@ ||
        items[i] == "md"@ || items[i] == "rtf"@ || items[i] == "csv"@ || items[i] == "odt"@ ||
        items[i] == "ods"@ || items[i] == "odp"@
    );
}

proof fn lemma_pictures_group(items: Seq<Seq<char>>, i: int)
    requires
        items == seq![
            "jpg"@, "jpeg"@, "png"@, "gif"@, "bmp"@, "tif"@, "tiff"@, "webp"@, "heic"@, "raw"@,
            "svg"@, "ico"@,
        ],
        0 <= i < items.len(),
    ensures
        all_plain(items[i]),
        group_of(items[i]) == 2,
{
    lemma_apps_spelled();
    lemma_documents_spelled();
    lemma_pictures_spelled();
    assert(
        items[i] == "jpg"@ || items[i] == "jpeg"@ || items[i] == "png"@ || items[i] == "gif"@ ||
        items[i] == "bmp"@ || items[i] == "tif"@ || items[i] == "tiff"@ || items[i] == "webp"@ ||
        items[i] == "heic"@ || items[i] == "raw"@ || items[i] == "svg"@ || items[i] == "ico"@
    );
}

proof fn lemma_videos_group(items: Seq<Seq<char>>, i: int)
    requires
        items == seq![
            "mp4"@, "mkv"@, "mov"@, "avi"@, "wmv"@, "flv"@, "webm"@, "m4v"@,
        ],
        0 <= i < items.len(),
    ensures
        all_plain(items[i]),
        group_of(items[i]) == 3,
{
    lemma_apps_spelled();
    lemma_documents_spelled();
    lemma_pictures_spelled();
    lemma_videos_spelled();
    assert(
        items[i] == "mp4"@ || items[i] == "mkv"@ || items[i] == "mov"@ || items[i] == "avi"@ ||
        items[i] == "wmv"@ || items[i] == "flv"@ || items[i] == "webm"@ || items[i] == "m4v"@
    );
}

proof fn lemma_music_group(items: Seq<Seq<char>>, i: int)
    requires
        items == seq![
            "mp3"@, "wav"@, "flac"@, "aac"@, "m4a"@, "ogg"@, "wma"@,
        ],
        0 <= i < items.len(),
    ensures
        all_plain(items[i]),
        group_of(items[i]) == 4,
{
    lemma_apps_spelled();
    lemma_documents_spelled();
    lemma_pictures_spelled();
    lemma_videos_spelled();
    lemma_music_spelled();
    assert(
        items[i] == "mp3"@ || items[i] == "wav"@ || items[i] == "flac"@ || items[i] == "aac"@ ||
        items[i] == "m4a"@ || items[i] == "ogg"@ || items[i] == "wma"@
    );
}

proof fn lemma_archives_group(items: Seq<Seq<char>>, i: int)
    requires
        items == seq![
            "zip"@, "7z"@, "rar"@, "tar"@, "gz"@, "bz2"@, "xz"@, "zst"@,
        ],
        0 <= i < items.len(),
    ensures
        all_plain(items[i]),
        group_of(items[i]) == 5,
{
    lemma_apps_spelled();
    lemma_documents_spelled();
    lemma_pictures_spelled();
    lemma_videos_spelled();
    lemma_music_spelled();
    lemma_archives_spelled();
    assert(
        items[i] == "zip"@ || items[i] == "7z"@ || items[i] == "rar"@ || items[i] == "tar"@ ||
        items[i] == "gz"@ || items[i] == "bz2"@ || items[i] == "xz"@ || items[i] == "zst"@
    );
}

proof fn lemma_images_group(items: Seq<Seq<char>>, i: int)
    requires
        items == seq![
            "iso"@, "img"@, "vhd"@, "vhdx"@, "vmdk"@, "ova"@, "ovf"@, "qcow2"@,
        ],
        0 <= i < items.len(),
    ensures
        all_plain(items[i]),
        group_of(items[i]) == 6,
{
    lemma_apps_spelled();
    lemma_documents_spelled();
    lemma_pictures_spelled();
    lemma_videos_spelled();
    lemma_music_spelled();
    lemma_archives_spelled();
    lemma_images_spelled();
    assert(
        items[i] == "iso"@ || items[i] == "img"@ || items[i] == "vhd"@ || items[i] == "vhdx"@ ||
        items[i] == "vmdk"@ || items[i] == "ova"@ || items[i] == "ovf"@ || items[i] == "qcow2"@
    );
}

proof fn lemma_code_group(items: Seq<Seq<char>>, i: int)
    requires
        items == seq![
            "rs"@, "py"@, "js"@, "ts"@, "tsx"@, "jsx"@, "java"@, "cs"@, "cpp"@, "c"@, "h"@,
            "hpp"@, "go"@, "rb"@, "php"@, "html"@, "css"@, "json"@, "toml"@, "yaml"@, "yml"@,
            "xml"@, "sql"@, "lock"@,
        ],
        0 <= i < items.len(),
    ensures
        all_plain(items[i]),
        group_of(items[i]) == 7,
{
    lemma_apps_spelled();
    lemma_documents_spelled();
    lemma_pictures_spelled();
    lemma_videos_spelled();
    lemma_music_spelled();
    lemma_archives_spelled();
    lemma_images_spelled();
    lemma_code_spelled();
    assert(
        items[i] == "rs"@ || items[i] == "py"@ || items[i] == "js"@ || items[i] == "ts"@ ||
        items[i] == "tsx"@ || items[i] == "jsx"@ || items[i] == "java"@ || items[i] == "cs"@ ||
        items[i] == "cpp"@ || items[i] == "c"@ || items[i] == "h"@ || items[i] == "hpp"@ ||
        items[i] == "go"@ || items[i] == "rb"@ || items[i] == "php"@ || items[i] == "html"@ ||
        items[i] == "css"@ || items[i] == "json"@ || items[i] == "toml"@ ||
        items[i] == "yaml"@ || items[i] == "yml"@ || items[i] == "xml"@ || items[i] == "sql"@ ||
        items[i] == "lock"@
    );
}

proof fn lemma_temporary_group(items: Seq<Seq<char>>, i: int)
    requires
        items == seq![
            "tmp"@, "temp"@, "log"@, "bak"@, "dmp"@,
        ],
        0 <= i < items.len(),
    ensures
        all_plain(items[i]),
        group_of(items[i]) == 8,
{
    lemma_apps_spelled();
    lemma_documents_spelled();
    lemma_pictures_spelled();
    lemma_videos_spelled();
    lemma_music_spelled();
    lemma_archives_spelled();
    lemma_images_spelled();
    lemma_code_spelled();
    lemma_temporary_spelled();
    assert(
        items[i] == "tmp"@ || items[i] == "temp"@ || items[i] == "log"@ || items[i] == "bak"@ ||
        items[i] == "dmp"@
    );
}

/// The place of a built-in category.
spec fn place_of(name: Seq<char>) -> int {
    if name == "Apps / Executables"@ {
        0
    } else if name == "Documents"@ {
        1
    } else if name == "Pictures"@ {
        2
    } else if name == "Videos"@ {
        3
    } else if name == "Music / Audio"@ {
        4
    } else if name == "Archives"@ {
        5
    } else if name == "Disk Images / VMs"@ {
        6
    } else if name == "Developer / Code"@ {
        7
    } else if name == "Temporary / Cache"@ {
        8
    } else {
        10
    }
}

proof fn lemma_names_spelled()
    ensures
        "Apps / Executables"@.len() == 18 && "Apps / Executables"@[0] == 'A',
        "Documents"@.len() == 9 && "Documents"@[0] == 'D',
        "Pictures"@.len() == 8 && "Pictures"@[0] == 'P',
        "Videos"@.len() == 6 && "Videos"@[0] == 'V',
        "Music / Audio"@.len() == 13 && "Music / Audio"@[0] == 'M',
        "Archives"@.len() == 8 && "Archives"@[0] == 'A',
        "Disk Images / VMs"@.len() == 17 && "Disk Images / VMs"@[0] == 'D',
        "Developer / Code"@.len() == 16 && "Developer / Code"@[0] == 'D',
        "Temporary / Cache"@.len() == 17 && "Temporary / Cache"@[0] == 'T',
{
    reveal_strlit("Apps / Executables");
    reveal_strlit("Documents");
    reveal_strlit("Pictures");
    reveal_strlit("Videos");
    reveal_strlit("Music / Audio");
    reveal_strlit("Archives");
    reveal_strlit("Disk Images / VMs");
    reveal_strlit("Developer / Code");
    reveal_strlit("Temporary / Cache");
}

proof fn lemma_trim_leaves(s: Seq<char>)
    requires
        s.len() > 0,
        !is_white(s[0]),
    ensures
        trim(s).len() > 0,
{
    let white = |c: char| is_white(c);
    assert(trim_front(s, white) == s);
    lemma_trim_back_leaves(s);
}

proof fn lemma_trim_back_leaves(s: Seq<char>)
    requires
        s.len() > 0,
        !is_white(s[0]),
    ensures
        trim_back(s, |c: char| is_white(c)).len() > 0,
    decreases s.len(),
{
    if is_white(s.last()) {
        lemma_trim_back_leaves(s.drop_last());
    }
}

/// Each built-in extension stands in the list of its group.
proof fn lemma_extension_group(name: Seq<char>, x: Seq<char>)
    requires
        default_extension_lists().contains_key(name),
        normal_set::<ExtensionRule>(default_extension_lists()[name]).contains(x),
    ensures
        group_of(x) == place_of(name),
        0 <= place_of(name) < 9,
{
    lemma_names_spelled();
    let items = default_extension_lists()[name];
    let i = choose|i: int| 0 <= i < items.len() && x == normal_extension(#[trigger] items[i]);
    assert(0 <= i < items.len() && x == normal_extension(items[i])) by {
        assert(normal_set::<ExtensionRule>(items).contains(x));
        assert(exists|i: int|
            0 <= i < items.len() && x == ExtensionRule::normal(#[trigger] items[i]));
    }
    if name == "Apps / Executables"@ {
        lemma_apps_group(items, i);
    } else if name == "Documents"@ {
        lemma_documents_group(items, i);
    } else if name == "Pictures"@ {
        lemma_pictures_group(items, i);
    } else if name == "Videos"@ {
        lemma_videos_group(items, i);
    } else if name == "Music / Audio"@ {
        lemma_music_group(items, i);
    } else if name == "Archives"@ {
        lemma_archives_group(items, i);
    } else if name == "Disk Images / VMs"@ {
        lemma_images_group(items, i);
    } else if name == "Developer / Code"@ {
        lemma_code_group(items, i);
    } else if name == "Temporary / Cache"@ {
        lemma_temporary_group(items, i);
    }
    lemma_plain_extension(items[i]);
}

/// The built-in extension rules are accepted.
proof fn lemma_extensions_accepted()
    ensures
        grouping::<ExtensionRule>(default_extension_lists()).refused is None,
{
    let raw = default_extension_lists();
    let dom = raw.dom();
    let s0 = Seq::<Seq<char>>::empty();
    let s1 = lemma_increasing_insert(s0, "Apps / Executables"@);
    let s2 = lemma_increasing_insert(s1, "Documents"@);
    let s3 = lemma_increasing_insert(s2, "Pictures"@);
    let s4 = lemma_increasing_insert(s3, "Videos"@);
    let s5 = lemma_increasing_insert(s4, "Music / Audio"@);
    let s6 = lemma_increasing_insert(s5, "Archives"@);
    let s7 = lemma_increasing_insert(s6, "Disk Images / VMs"@);
    let s8 = lemma_increasing_insert(s7, "Developer / Code"@);
    let s9 = lemma_increasing_insert(s8, "Temporary / Cache"@);
    assert(s9.to_set() =~= dom);
    let names = in_name_order(dom);
    assert(increasing(names) && names.to_set() == dom);
    lemma_names_spelled();
    assert forall|i: int| 0 <= i < names.len() implies trim(#[trigger] names[i]).len() > 0 by {
        assert(names.to_set().contains(names[i]));
        lemma_trim_leaves(names[i]);
    }
    assert forall|i: int, j: int, x: Seq<char>|
        0 <= i < j < names.len() && normal_set::<ExtensionRule>(
            raw[#[trigger] names[i]],
        ).contains(x) implies !(#[trigger] normal_set::<ExtensionRule>(
        raw[#[trigger] names[j]],
    ).contains(x)) by {
        assert(names.to_set().contains(names[i]) && names.to_set().contains(names[j]));
        assert(text_lt(names[i], names[j]));
        crate::text::lemma_text_lt_irreflexive(names[i]);
        lemma_extension_group(names[i], x);
        if normal_set::<ExtensionRule>(raw[names[j]]).contains(x) {
            lemma_extension_group(names[j], x);
        }
    }
    law_disjoint_lists_are_accepted::<ExtensionRule>(names, raw);
}

// ---------------------------------------------------------------------------
// Path fragments
// ---------------------------------------------------------------------------

/// A character at an end of a fragment that no normal form takes away.
spec fn firm(c: char) -> bool {
    !is_white(c) && !is_sep(c)
}

proof fn lemma_first_piece(s: Seq<char>, kind: spec_fn(char) -> bool)
    requires
        s.len() > 0,
        !kind(s[0]),
    ensures
        pieces(s, kind).len() >= 1,
        pieces(s, kind)[0].len() > 0,
        pieces(s, kind)[0][0] == s[0],
    decreases s.len(),
{
    crate::text::lemma_pieces_nonempty(s.drop_last(), kind);
    if s.len() == 1 {
        assert(s.drop_last() == Seq::<char>::empty());
        assert(pieces(s, kind) =~= seq![seq![s[0]]]);
    } else {
        lemma_first_piece(s.drop_last(), kind);
    }
}

proof fn lemma_last_piece(s: Seq<char>, kind: spec_fn(char) -> bool)
    requires
        s.len() > 0,
        !kind(s.last()),
    ensures
        pieces(s, kind).len() >= 1,
        pieces(s, kind).last().len() > 0,
        pieces(s, kind).last().last() == s.last(),
{
    crate::text::lemma_pieces_nonempty(s.drop_last(), kind);
}

proof fn lemma_full_first(parts: Seq<Seq<char>>)
    requires
        parts.len() > 0,
        parts[0].len() > 0,
    ensures
        full_pieces(parts).len() > 0,
        full_pieces(parts)[0] == parts[0],
    decreases parts.len(),
{
    if parts.len() == 1 {
        assert(parts.drop_last() == Seq::<Seq<char>>::empty());
    } else {
        lemma_full_first(parts.drop_last());
    }
}

proof fn lemma_joined_ends(parts: Seq<Seq<char>>, sep: Seq<char>)
    requires
        parts.len() > 0,
        parts[0].len() > 0,
        parts.last().len() > 0,
    ensures
        joined(parts, sep).len() > 0,
        joined(parts, sep)[0] == parts[0][0],
        joined(parts, sep).last() == parts.last().last(),
{
    lemma_joined_first(parts, sep);
}

proof fn lemma_joined_first(parts: Seq<Seq<char>>, sep: Seq<char>)
    requires
        parts.len() > 0,
        parts[0].len() > 0,
    ensures
        joined(parts, sep).len() > 0,
        joined(parts, sep)[0] == parts[0][0],
    decreases parts.len(),
{
    if parts.len() > 1 {
        lemma_joined_first(parts.drop_last(), sep);
    }
}

/// The normal form of a fragment with firm ends has the same ends.
proof fn lemma_fragment_ends(s: Seq<char>)
    requires
        s.len() > 0,
        firm(s[0]),
        firm(s.last()),
    ensures
        normal_fragment(s).len() > 0,
        normal_fragment(s)[0] == lower_char(s[0]),
        normal_fragment(s).last() == lower_char(s.last()),
{
    let white = |c: char| is_white(c);
    let kind = |c: char| Separator::of(c);
    assert(trim_front(s, white) == s);
    assert(trim_back(s, white) == s);
    assert(trim(s) == s);
    lemma_first_piece(s, kind);
    lemma_last_piece(s, kind);
    let parts = pieces(s, kind);
    lemma_full_first(parts);
    let full = full_pieces(parts);
    assert(full.last() == parts.last());
    lemma_joined_ends(full, "/"@);
}

/// The place of the built-in path category whose fragments have these ends.
spec fn side_of(x: Seq<char>) -> int {
    if x[0] == 'h' || x[0] == 'l' || x[0] == 'g' || (x[0] == '.' && x.last() != 'r') {
        0
    } else {
        1
    }
}

proof fn lemma_models_side(items: Seq<Seq<char>>, i: int)
    requires
        items == seq![
            ".ollama/models"@, ".cache/huggingface/hub"@, "huggingface/hub/models--"@,
            "LM Studio/models"@, "GPT4All"@,
        ],
        0 <= i < items.len(),
    ensures
        normal_fragment(items[i]).len() > 0,
        side_of(normal_fragment(items[i])) == 0,
{
    reveal_strlit(".ollama/models");
    reveal_strlit(".cache/huggingface/hub");
    reveal_strlit("huggingface/hub/models--");
    reveal_strlit("LM Studio/models");
    reveal_strlit("GPT4All");
    lemma_fragment_ends(".ollama/models"@);
    lemma_fragment_ends(".cache/huggingface/hub"@);
    lemma_fragment_ends("huggingface/hub/models--"@);
    lemma_fragment_ends("LM Studio/models"@);
    lemma_fragment_ends("GPT4All"@);
    assert(
        items[i] == ".ollama/models"@ || items[i] == ".cache/huggingface/hub"@ ||
        items[i] == "huggingface/hub/models--"@ || items[i] == "LM Studio/models"@ ||
        items[i] == "GPT4All"@
    );
}

proof fn lemma_containers_side(items: Seq<Seq<char>>, i: int)
    requires
        items == seq![
            "AppData/Local/Docker/wsl"@, "AppData/Local/Docker Desktop"@, "ProgramData/Docker"@,
            "ProgramData/docker/windowsfilter"@, "ProgramData/docker/containers"@,
            "ProgramData/docker/volumes"@, ".docker"@,
        ],
        0 <= i < items.len(),
    ensures
        normal_fragment(items[i]).len() > 0,
        side_of(normal_fragment(items[i])) == 1,
{
    reveal_strlit("AppData/Local/Docker/wsl");
    reveal_strlit("AppData/Local/Docker Desktop");
    reveal_strlit("ProgramData/Docker");
    reveal_strlit("ProgramData/docker/windowsfilter");
    reveal_strlit("ProgramData/docker/containers");
    reveal_strlit("ProgramData/docker/volumes");
    reveal_strlit(".docker");
    lemma_fragment_ends("AppData/Local/Docker/wsl"@);
    lemma_fragment_ends("AppData/Local/Docker Desktop"@);
    lemma_fragment_ends("ProgramData/Docker"@);
    lemma_fragment_ends("ProgramData/docker/windowsfilter"@);
    lemma_fragment_ends("ProgramData/docker/containers"@);
    lemma_fragment_ends("ProgramData/docker/volumes"@);
    lemma_fragment_ends(".docker"@);
    assert(
        items[i] == "AppData/Local/Docker/wsl"@ || items[i] == "AppData/Local/Docker Desktop"@ ||
        items[i] == "ProgramData/Docker"@ || items[i] == "ProgramData/docker/windowsfilter"@ ||
        items[i] == "ProgramData/docker/containers"@ ||
        items[i] == "ProgramData/docker/volumes"@ || items[i] == ".docker"@
    );
}

proof fn lemma_fragment_side(name: Seq<char>, x: Seq<char>)
    requires
        default_fragment_lists().contains_key(name),
        normal_set::<FragmentRule>(default_fragment_lists()[name]).contains(x),
    ensures
        side_of(x) == if name == "AI Models"@ {
            0int
        } else {
            1int
        },
        name == "AI Models"@ || name == "Docker / Containers"@,
{
    reveal_strlit("AI Models");
    reveal_strlit("Docker / Containers");
    assert("AI Models"@.len() != "Docker / Containers"@.len());
    let items = default_fragment_lists()[name];
    let i = choose|i: int| 0 <= i < items.len() && x == normal_fragment(#[trigger] items[i]);
    assert(0 <= i < items.len() && x == normal_fragment(items[i])) by {
        assert(normal_set::<FragmentRule>(items).contains(x));
        assert(exists|i: int|
            0 <= i < items.len() && x == FragmentRule::normal(#[trigger] items[i]));
    }
    if name == "AI Models"@ {
        lemma_models_side(items, i);
    } else {
        lemma_containers_side(items, i);
    }
}

/// The built-in path rules are accepted.
proof fn lemma_fragments_accepted()
    ensures
        grouping::<FragmentRule>(default_fragment_lists()).refused is None,
{
    let raw = default_fragment_lists();
    let dom = raw.dom();
    let s0 = Seq::<Seq<char>>::empty();
    let s1 = lemma_increasing_insert(s0, "AI Models"@);
    let s2 = lemma_increasing_insert(s1, "Docker / Containers"@);
    assert(s2.to_set() =~= dom);
    let names = in_name_order(dom);
    assert(increasing(names) && names.to_set() == dom);
    reveal_strlit("AI Models");
    reveal_strlit("Docker / Containers");
    assert forall|i: int| 0 <= i < names.len() implies trim(#[trigger] names[i]).len() > 0 by {
        assert(names.to_set().contains(names[i]));
        assert("AI Models"@[0] == 'A');
        assert("Docker / Containers"@[0] == 'D');
        lemma_trim_leaves(names[i]);
    }
    assert forall|i: int, j: int, x: Seq<char>|
        0 <= i < j < names.len() && normal_set::<FragmentRule>(
            raw[#[trigger] names[i]],
        ).contains(x) implies !(#[trigger] normal_set::<FragmentRule>(
        raw[#[trigger] names[j]],
    ).contains(x)) by {
        assert(names.to_set().contains(names[i]) && names.to_set().contains(names[j]));
        assert(text_lt(names[i], names[j]));
        crate::text::lemma_text_lt_irreflexive(names[i]);
        lemma_fragment_side(names[i], x);
        if normal_set::<FragmentRule>(raw[names[j]]).contains(x) {
            lemma_fragment_side(names[j], x);
        }
    }
    law_disjoint_lists_are_accepted::<FragmentRule>(names, raw);
}

// ---------------------------------------------------------------------------
// Classification
// ---------------------------------------------------------------------------

/// The built-in rules are accepted.
pub proof fn law_builtin_rules_are_accepted()
    ensures
        refusal(default_extension_lists(), default_fragment_lists()) is None,
{
    lemma_extensions_accepted();
    lemma_fragments_accepted();
}

/// The category of a path by the built-in rules.
pub open spec fn builtin_category(path: Seq<char>) -> Seq<char> {
    classified(
        PathStyle::Windows,
        all_pairs(grouping::<FragmentRule>(default_fragment_lists()).lists),
        category_by_item(all_pairs(grouping::<ExtensionRule>(default_extension_lists()).lists)),
        path,
    )
}

/// The built-in rules.
pub fn builtin_rules() -> (r: CategoryRules)
    ensures
        r.follows(
            grouping::<ExtensionRule>(default_extension_lists()).lists,
            grouping::<FragmentRule>(default_fragment_lists()).lists,
        ),
        r.origin() == "builtin"@,
{
    proof {
        law_builtin_rules_are_accepted();
    }
    match CategoryRules::from_config(CategoryConfig::default(), "builtin".to_owned()) {
        Ok(rules) => rules,
        Err(_) => vstd::pervasive::unreached(),
    }
}

/// The category of a path by the built-in rules.
pub fn classify_path(path: &str) -> (r: String)
    ensures
        r@ == builtin_category(path@),
{
    builtin_rules().classify(path)
}

} // verus!
