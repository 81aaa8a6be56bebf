//! Index entries: what the launcher knows about each application, file and
//! folder, how an entry is classified and named, and how it is shown.
use vstd::prelude::*;

use crate::text::{
    chars_eq, chars_of, copy_string, str_to_lowercase, string_of, texts, to_lowercase,
};

verus! {

/// Result kinds.
pub const KIND_APP: u8 = 0;
pub const KIND_SHORTCUT: u8 = 1;
pub const KIND_FOLDER: u8 = 2;
pub const KIND_DOCUMENT: u8 = 3;
pub const KIND_IMAGE: u8 = 4;
pub const KIND_AUDIO: u8 = 5;
pub const KIND_VIDEO: u8 = 6;
pub const KIND_ARCHIVE: u8 = 7;
pub const KIND_CODE: u8 = 8;
pub const KIND_FILE: u8 = 9;
pub const KIND_SYSTEM: u8 = 10;

/// One indexed item: its lowercase display name, full path and kind.
pub struct SearchEntry {
    pub name_lower: String,
    pub path: String,
    pub kind: u8,
}

/// How well an entry matches; smaller sorts first, field by field.
#[derive(Clone, Copy, Debug, PartialEq, Eq, PartialOrd, Ord, Default, Structural)]
pub struct ScoreKey {
    pub tier: u32,
    pub primary: u32,
    pub frec_inv: u32,
    pub len: u32,
    pub path_len: u32,
}

/// An entry as shown in the result list.
pub struct SearchResult {
    pub name: String,
    pub path: String,
    pub kind: String,
    pub icon: String,
    pub pinned: bool,
    pub icon_data: Option<String>,
    pub score: ScoreKey,
}

// ---------------------------------------------------------------------------
// File names and extensions
//
// Paths are read by the rules of the launcher's platform, Windows: a path
// may begin with a prefix (`C:`, `\\server\share`, `\\.\device`, or a
// verbatim `\\?\...`); after it, `/` and `\` both separate components,
// except in verbatim paths, where only `\` does; empty components and `.`
// are skipped, except that a verbatim `.` is a component of its own.
// ---------------------------------------------------------------------------
/// Whether `c` is a backslash.
pub open spec fn is_bs(c: char) -> bool {
    c == '\u{005C}'
}

/// Whether `c` separates components: `\` always, `/` too outside verbatim
/// paths.
pub open spec fn is_sep_in(c: char, verbatim: bool) -> bool {
    is_bs(c) || (!verbatim && c == '/')
}

/// The position of the first separator in `s` at or after `from` (the
/// length of `s` when there is none).
pub open spec fn next_sep(s: Seq<char>, from: int, verbatim: bool) -> int
    decreases s.len() - from,
{
    if from >= s.len() {
        s.len() as int
    } else if is_sep_in(s[from], verbatim) {
        from
    } else {
        next_sep(s, from + 1, verbatim)
    }
}

/// Where the part of `p` after its prefix begins, and whether `p` is a
/// verbatim path.  A verbatim prefix is `\\?\` and one component, or
/// `\\?\UNC\` and two; a device prefix is `\\.\` and one component; a
/// network prefix is `\\` and two non-empty components; a drive prefix is
/// a letter and `:`.
pub open spec fn prefix_split(p: Seq<char>) -> (int, bool) {
    if p.len() >= 4 && is_bs(p[0]) && is_bs(p[1]) && p[2] == '?' && is_bs(p[3]) {
        if p.len() >= 8 && p[4] == 'U' && p[5] == 'N' && p[6] == 'C' && is_bs(p[7]) {
            let a = next_sep(p, 8, true);
            if a < p.len() {
                (next_sep(p, a + 1, true), true)
            } else {
                (a, true)
            }
        } else {
            (next_sep(p, 4, true), true)
        }
    } else if p.len() >= 4 && is_bs(p[0]) && is_bs(p[1]) && p[2] == '.' && is_bs(p[3]) {
        (next_sep(p, 4, false), false)
    } else if p.len() >= 2 && is_bs(p[0]) && is_bs(p[1]) {
        let a = next_sep(p, 2, false);
        if a > 2 && a < p.len() && next_sep(p, a + 1, false) > a + 1 {
            (next_sep(p, a + 1, false), false)
        } else {
            (0, false)
        }
    } else if p.len() >= 2 && p[1] == ':' && crate::text::is_ascii_alpha(p[0]) {
        (2, false)
    } else {
        (0, false)
    }
}

/// The text after the last separator of `s` (all of `s` when it has none).
pub open spec fn after_last_sep(s: Seq<char>, verbatim: bool) -> Seq<char>
    decreases s.len(),
{
    if s.len() == 0 {
        s
    } else if is_sep_in(s.last(), verbatim) {
        Seq::<char>::empty()
    } else {
        after_last_sep(s.drop_last(), verbatim).push(s.last())
    }
}

/// The last component of `s`, read from its end: separators at the end are
/// skipped, and so is a trailing `.` outside verbatim paths; none when
/// nothing is left or the component is `..` (or a verbatim `.`).
pub open spec fn last_component(s: Seq<char>, verbatim: bool) -> Option<Seq<char>>
    decreases s.len(),
{
    if s.len() == 0 {
        None
    } else if is_sep_in(s.last(), verbatim) {
        last_component(s.drop_last(), verbatim)
    } else {
        let c = after_last_sep(s, verbatim);
        if !verbatim && c == seq!['.'] {
            last_component(s.drop_last(), verbatim)
        } else if c == seq!['.'] || c == seq!['.', '.'] {
            None
        } else {
            Some(c)
        }
    }
}

/// The file name of a path: the last component of what follows its
/// prefix, as `Path::file_name` reads it on Windows.
pub open spec fn file_name_spec(p: Seq<char>) -> Option<Seq<char>> {
    let (k, verbatim) = prefix_split(p);
    last_component(p.skip(k), verbatim)
}

/// Position of the last `.` in `s`.
pub open spec fn last_dot(s: Seq<char>) -> Option<int>
    decreases s.len(),
{
    if s.len() == 0 {
        None
    } else if s.last() == '.' {
        Some(s.len() - 1)
    } else {
        last_dot(s.drop_last())
    }
}

/// The extension of a file name: what follows its last `.`, unless that
/// `.` starts the name.
pub open spec fn bare_extension(s: Seq<char>) -> Option<Seq<char>> {
    match last_dot(s) {
        Some(i) => if i > 0 {
            Some(s.skip(i + 1))
        } else {
            None
        },
        None => None,
    }
}

/// The extension of a path's file name.
pub open spec fn extension_spec(p: Seq<char>) -> Option<Seq<char>> {
    match file_name_spec(p) {
        Some(f) => bare_extension(f),
        None => None,
    }
}

pub open spec fn opt_view(o: Option<Vec<char>>) -> Option<Seq<char>> {
    match o {
        Some(s) => Some(s@),
        None => None,
    }
}

/// Whether `c` separates components (see `is_sep_in`).
fn sep_in(c: char, verbatim: bool) -> (b: bool)
    ensures
        b == is_sep_in(c, verbatim),
{
    c == '\u{005C}' || (!verbatim && c == '/')
}

/// The first separator in `s` at or after `from` (see `next_sep`).
fn next_sep_at(s: &[char], from: usize, verbatim: bool) -> (r: usize)
    requires
        from <= s@.len(),
    ensures
        r as int == next_sep(s@, from as int, verbatim),
        from <= r <= s@.len(),
{
    let mut j: usize = from;
    while j < s.len() && !sep_in(s[j], verbatim)
        invariant
            from <= j <= s@.len(),
            next_sep(s@, from as int, verbatim) == next_sep(s@, j as int, verbatim),
        decreases s@.len() - j,
    {
        j = j + 1;
    }
    j
}

/// Where the part of `p` after its prefix begins, and whether `p` is
/// verbatim (see `prefix_split`).
fn prefix_end(p: &[char]) -> (r: (usize, bool))
    ensures
        r.0 as int == prefix_split(p@).0,
        r.1 == prefix_split(p@).1,
        r.0 <= p@.len(),
{
    let bs = '\u{005C}';
    let n = p.len();
    if n >= 4 && p[0] == bs && p[1] == bs && p[2] == '?' && p[3] == bs {
        if n >= 8 && p[4] == 'U' && p[5] == 'N' && p[6] == 'C' && p[7] == bs {
            let a = next_sep_at(p, 8, true);
            if a < n {
                (next_sep_at(p, a + 1, true), true)
            } else {
                (a, true)
            }
        } else {
            (next_sep_at(p, 4, true), true)
        }
    } else if n >= 4 && p[0] == bs && p[1] == bs && p[2] == '.' && p[3] == bs {
        (next_sep_at(p, 4, false), false)
    } else if n >= 2 && p[0] == bs && p[1] == bs {
        let a = next_sep_at(p, 2, false);
        if a > 2 && a < n && next_sep_at(p, a + 1, false) > a + 1 {
            (next_sep_at(p, a + 1, false), false)
        } else {
            (0, false)
        }
    } else if n >= 2 && p[1] == ':' && (('a' <= p[0] && p[0] <= 'z') || ('A' <= p[0] && p[0]
        <= 'Z')) {
        (2, false)
    } else {
        (0, false)
    }
}

proof fn lemma_after_last_sep_step(t: Seq<char>, j: int, verbatim: bool)
    requires
        0 < j <= t.len(),
        !is_sep_in(t[j - 1], verbatim),
    ensures
        after_last_sep(t.take(j), verbatim) == after_last_sep(t.take(j - 1), verbatim).push(
            t[j - 1],
        ),
{
    assert(t.take(j).drop_last() =~= t.take(j - 1));
}

/// Where the last component of `s[..n]` starts.
fn component_start(s: &[char], n: usize, verbatim: bool) -> (k: usize)
    requires
        n <= s@.len(),
    ensures
        k <= n,
        s@.subrange(k as int, n as int) == after_last_sep(s@.take(n as int), verbatim),
{
    let mut j: usize = n;
    proof {
        assert(s@.subrange(n as int, n as int) =~= Seq::<char>::empty());
        assert(after_last_sep(s@.take(n as int), verbatim) =~= after_last_sep(
            s@.take(n as int),
            verbatim,
        ) + Seq::<char>::empty());
    }
    while j > 0 && !sep_in(s[j - 1], verbatim)
        invariant
            j <= n <= s@.len(),
            after_last_sep(s@.take(n as int), verbatim) == after_last_sep(
                s@.take(j as int),
                verbatim,
            ) + s@.subrange(j as int, n as int),
        decreases j,
    {
        proof {
            lemma_after_last_sep_step(s@, j as int, verbatim);
            assert(s@.subrange(j - 1, n as int) =~= seq![s@[j - 1]] + s@.subrange(
                j as int,
                n as int,
            ));
            assert(after_last_sep(s@.take(j - 1), verbatim).push(s@[j - 1]) + s@.subrange(
                j as int,
                n as int,
            ) =~= after_last_sep(s@.take(j - 1), verbatim) + s@.subrange(j - 1, n as int));
        }
        j = j - 1;
    }
    proof {
        if j > 0 {
            assert(s@.take(j as int).last() == s@[j - 1]);
            assert(after_last_sep(s@.take(j as int), verbatim) =~= Seq::<char>::empty());
        } else {
            assert(s@.take(0) =~= Seq::<char>::empty());
        }
        assert(after_last_sep(s@.take(n as int), verbatim) =~= s@.subrange(j as int, n as int));
    }
    j
}

fn copy_range(s: &[char], from: usize, to: usize) -> (r: Vec<char>)
    requires
        from <= to <= s@.len(),
    ensures
        r@ == s@.subrange(from as int, to as int),
{
    let mut r: Vec<char> = Vec::new();
    let mut k: usize = from;
    while k < to
        invariant
            from <= k <= to <= s@.len(),
            r@ == s@.subrange(from as int, k as int),
        decreases to - k,
    {
        r.push(s[k]);
        proof {
            assert(r@ =~= s@.subrange(from as int, k + 1));
        }
        k = k + 1;
    }
    r
}

/// The last component of `s` (see `last_component`).
fn last_component_of(s: &[char], verbatim: bool) -> (r: Option<Vec<char>>)
    ensures
        opt_view(r) == last_component(s@, verbatim),
{
    let mut m: usize = s.len();
    proof {
        assert(s@.take(m as int) =~= s@);
    }
    loop
        invariant
            m <= s@.len(),
            last_component(s@.take(m as int), verbatim) == last_component(s@, verbatim),
        decreases m,
    {
        if m == 0 {
            return None;
        }
        let ghost t = s@.take(m as int);
        proof {
            assert(t.drop_last() =~= s@.take(m - 1));
            assert(t.last() == s@[m - 1]);
        }
        if sep_in(s[m - 1], verbatim) {
            m = m - 1;
        } else {
            let k = component_start(s, m, verbatim);
            let ghost c = after_last_sep(t, verbatim);
            proof {
                assert(s@.take(m as int).take(m as int) =~= t);
                assert(c == s@.subrange(k as int, m as int));
                lemma_after_last_sep_step(s@, m as int, verbatim);
            }
            let len = m - k;
            let dot1 = len == 1 && s[k] == '.';
            let dot2 = len == 2 && s[k] == '.' && s[k + 1] == '.';
            proof {
                if dot1 {
                    assert(c =~= seq!['.']);
                } else {
                    assert(c != seq!['.']) by {
                        if c == seq!['.'] {
                            assert(c.len() == 1 && c[0] == s@[k as int]);
                        }
                    }
                }
                if dot2 {
                    assert(c =~= seq!['.', '.']);
                } else {
                    assert(c != seq!['.', '.']) by {
                        if c == seq!['.', '.'] {
                            assert(c.len() == 2 && c[0] == s@[k as int] && c[1] == s@[k + 1]);
                        }
                    }
                }
            }
            if !verbatim && dot1 {
                m = m - 1;
            } else if dot1 || dot2 {
                return None;
            } else {
                return Some(copy_range(s, k, m));
            }
        }
    }
}

/// The file name of a path (see `file_name_spec`).
pub fn file_name_of(path: &[char]) -> (r: Option<Vec<char>>)
    ensures
        opt_view(r) == file_name_spec(path@),
{
    let (k, verbatim) = prefix_end(path);
    let rest = copy_range(path, k, path.len());
    proof {
        assert(rest@ =~= path@.skip(k as int));
    }
    last_component_of(rest.as_slice(), verbatim)
}

proof fn lemma_last_dot(s: Seq<char>)
    ensures
        last_dot(s) matches Some(i) ==> 0 <= i < s.len() && s[i] == '.',
    decreases s.len(),
{
    if s.len() > 0 {
        lemma_last_dot(s.drop_last());
    }
}

/// Position of the last `.` in `s`.
fn find_last_dot(s: &[char]) -> (r: Option<usize>)
    ensures
        r matches Some(k) ==> last_dot(s@) == Some(k as int),
        r is None ==> last_dot(s@) is None,
{
    let mut k: usize = s.len();
    proof {
        assert(s@.take(k as int) =~= s@);
    }
    while k > 0
        invariant
            k <= s@.len(),
            last_dot(s@) == last_dot(s@.take(k as int)),
        decreases k,
    {
        proof {
            assert(s@.take(k as int).drop_last() =~= s@.take(k - 1));
            assert(s@.take(k as int).last() == s@[k - 1]);
        }
        if s[k - 1] == '.' {
            return Some(k - 1);
        }
        k = k - 1;
    }
    proof {
        assert(s@.take(0) =~= Seq::<char>::empty());
    }
    None
}

/// The extension of a path's file name (see `extension_spec`).
pub fn extension_of(path: &[char]) -> (r: Option<Vec<char>>)
    ensures
        opt_view(r) == extension_spec(path@),
{
    match file_name_of(path) {
        Some(f) => {
            proof {
                lemma_last_dot(f@);
            }
            match find_last_dot(f.as_slice()) {
                Some(i) => {
                    if i > 0 {
                        Some(copy_range(f.as_slice(), i + 1, f.len()))
                    } else {
                        None
                    }
                },
                None => None,
            }
        },
        None => None,
    }
}

// ---------------------------------------------------------------------------
// Kinds
// ---------------------------------------------------------------------------
/// The name of a kind as the interface shows it.
pub open spec fn kind_name(kind: u8) -> Seq<char> {
    if kind == KIND_APP {
        "app"@
    } else if kind == KIND_SHORTCUT {
        "shortcut"@
    } else if kind == KIND_FOLDER {
        "folder"@
    } else if kind == KIND_DOCUMENT {
        "document"@
    } else if kind == KIND_IMAGE {
        "image"@
    } else if kind == KIND_AUDIO {
        "audio"@
    } else if kind == KIND_VIDEO {
        "video"@
    } else if kind == KIND_ARCHIVE {
        "archive"@
    } else if kind == KIND_CODE {
        "code"@
    } else if kind == KIND_SYSTEM {
        "system"@
    } else {
        "file"@
    }
}

/// The name of a kind (see `kind_name`).
pub fn kind_str(kind: u8) -> (r: &'static str)
    ensures
        r@ == kind_name(kind),
{
    if kind == KIND_APP {
        "app"
    } else if kind == KIND_SHORTCUT {
        "shortcut"
    } else if kind == KIND_FOLDER {
        "folder"
    } else if kind == KIND_DOCUMENT {
        "document"
    } else if kind == KIND_IMAGE {
        "image"
    } else if kind == KIND_AUDIO {
        "audio"
    } else if kind == KIND_VIDEO {
        "video"
    } else if kind == KIND_ARCHIVE {
        "archive"
    } else if kind == KIND_CODE {
        "code"
    } else if kind == KIND_SYSTEM {
        "system"
    } else {
        "file"
    }
}

/// The kind of a file with the given lowercase extension (`""` for none).
pub open spec fn kind_for_ext(e: Seq<char>) -> u8 {
    if e == "exe"@ || e == "msi"@ {
        KIND_APP
    } else if e == "lnk"@ || e == "url"@ {
        KIND_SHORTCUT
    } else if e == "txt"@ || e == "log"@ || e == "md"@ || e == "ini"@ || e == "cfg"@ || e
        == "pdf"@ || e == "doc"@ || e == "docx"@ || e == "xls"@ || e == "xlsx"@ || e == "ppt"@
        || e == "pptx"@ {
        KIND_DOCUMENT
    } else if e == "jpg"@ || e == "jpeg"@ || e == "png"@ || e == "gif"@ || e == "bmp"@ || e
        == "webp"@ || e == "svg"@ || e == "ico"@ {
        KIND_IMAGE
    } else if e == "mp3"@ || e == "wav"@ || e == "flac"@ || e == "ogg"@ || e == "m4a"@ || e
        == "aac"@ {
        KIND_AUDIO
    } else if e == "mp4"@ || e == "avi"@ || e == "mkv"@ || e == "mov"@ || e == "wmv"@ || e
        == "webm"@ {
        KIND_VIDEO
    } else if e == "zip"@ || e == "rar"@ || e == "7z"@ || e == "tar"@ || e == "gz"@ || e
        == "bz2"@ {
        KIND_ARCHIVE
    } else if e == "js"@ || e == "ts"@ || e == "py"@ || e == "rs"@ || e == "c"@ || e == "cpp"@
        || e == "h"@ || e == "java"@ || e == "go"@ || e == "html"@ || e == "css"@ || e
        == "json"@ || e == "xml"@ || e == "yaml"@ || e == "toml"@ {
        KIND_CODE
    } else if e == "dll"@ || e == "sys"@ || e == "so"@ || e == "dylib"@ || e == "lib"@ || e
        == "a"@ || e == "pdb"@ || e == "bin"@ || e == "dat"@ || e == "db"@ || e == "sqlite"@
        || e.len() == 0 {
        KIND_SYSTEM
    } else {
        KIND_FILE
    }
}

fn is(e: &[char], name: &str) -> (r: bool)
    ensures
        r == (e@ == name@),
{
    chars_eq(e, chars_of(name).as_slice())
}

/// The kind of a file with the given lowercase extension.
pub fn kind_for_extension(e: &[char]) -> (r: u8)
    ensures
        r == kind_for_ext(e@),
{
    if is(e, "exe") || is(e, "msi") {
        KIND_APP
    } else if is(e, "lnk") || is(e, "url") {
        KIND_SHORTCUT
    } else if is(e, "txt") || is(e, "log") || is(e, "md") || is(e, "ini") || is(e, "cfg") || is(
        e,
        "pdf",
    ) || is(e, "doc") || is(e, "docx") || is(e, "xls") || is(e, "xlsx") || is(e, "ppt") || is(
        e,
        "pptx",
    ) {
        KIND_DOCUMENT
    } else if is(e, "jpg") || is(e, "jpeg") || is(e, "png") || is(e, "gif") || is(e, "bmp") || is(
        e,
        "webp",
    ) || is(e, "svg") || is(e, "ico") {
        KIND_IMAGE
    } else if is(e, "mp3") || is(e, "wav") || is(e, "flac") || is(e, "ogg") || is(e, "m4a") || is(
        e,
        "aac",
    ) {
        KIND_AUDIO
    } else if is(e, "mp4") || is(e, "avi") || is(e, "mkv") || is(e, "mov") || is(e, "wmv") || is(
        e,
        "webm",
    ) {
        KIND_VIDEO
    } else if is(e, "zip") || is(e, "rar") || is(e, "7z") || is(e, "tar") || is(e, "gz") || is(
        e,
        "bz2",
    ) {
        KIND_ARCHIVE
    } else if is(e, "js") || is(e, "ts") || is(e, "py") || is(e, "rs") || is(e, "c") || is(
        e,
        "cpp",
    ) || is(e, "h") || is(e, "java") || is(e, "go") || is(e, "html") || is(e, "css") || is(
        e,
        "json",
    ) || is(e, "xml") || is(e, "yaml") || is(e, "toml") {
        KIND_CODE
    } else if is(e, "dll") || is(e, "sys") || is(e, "so") || is(e, "dylib") || is(e, "lib") || is(
        e,
        "a",
    ) || is(e, "pdb") || is(e, "bin") || is(e, "dat") || is(e, "db") || is(e, "sqlite")
        || e.len() == 0 {
        KIND_SYSTEM
    } else {
        KIND_FILE
    }
}

/// The lowercase extension text used for classifying: empty when there is
/// none.
pub open spec fn lower_ext(e: Option<Seq<char>>) -> Seq<char> {
    match e {
        Some(x) => str_to_lowercase(x),
        None => Seq::<char>::empty(),
    }
}

/// The lowercase extension of `path`, empty when there is none.
pub fn extension_lower(path: &str) -> (r: String)
    ensures
        r@ == lower_ext(extension_spec(path@)),
{
    let p = chars_of(path);
    match extension_of(p.as_slice()) {
        Some(e) => {
            let text = string_of(e.as_slice());
            to_lowercase(text.as_str())
        },
        None => String::new(),
    }
}

/// The kind of a directory entry from its file name (see `kind_for_ext`).
pub fn kind_from_file(file_name: &str, is_dir: bool) -> (r: u8)
    ensures
        r == (if is_dir {
            KIND_FOLDER
        } else {
            kind_for_ext(lower_ext(extension_spec(file_name@)))
        }),
{
    if is_dir {
        return KIND_FOLDER;
    }
    let ext = extension_lower(file_name);
    let c = chars_of(ext.as_str());
    kind_for_extension(c.as_slice())
}

// ---------------------------------------------------------------------------
// Display names
// ---------------------------------------------------------------------------
/// The name shown for a file: applications and shortcuts lose their
/// extension (everything from the last `.`), other kinds keep it.
pub open spec fn display_spec(file_name: Seq<char>, kind: u8) -> Seq<char> {
    if kind == KIND_APP || kind == KIND_SHORTCUT {
        match last_dot(file_name) {
            Some(i) => file_name.take(i),
            None => file_name,
        }
    } else {
        file_name
    }
}

/// The name shown for a file name (see `display_spec`).
pub fn display_name_of(file_name: &[char], kind: u8) -> (r: String)
    ensures
        r@ == display_spec(file_name@, kind),
{
    proof {
        lemma_last_dot(file_name@);
    }
    if kind == KIND_APP || kind == KIND_SHORTCUT {
        match find_last_dot(file_name) {
            Some(i) => {
                proof {
                    assert(last_dot(file_name@) == Some(i as int));
                }
                let mut v: Vec<char> = Vec::new();
                let mut k: usize = 0;
                while k < i
                    invariant
                        k <= i,
                        i < file_name@.len(),
                        last_dot(file_name@) == Some(i as int),
                        v@ == file_name@.take(k as int),
                    decreases i - k,
                {
                    v.push(file_name[k]);
                    proof {
                        assert(v@ =~= file_name@.take(k + 1));
                    }
                    k = k + 1;
                }
                proof {
                    assert(last_dot(file_name@) == Some(i as int));
                    assert(v@ == file_name@.take(i as int));
                }
                string_of(v.as_slice())
            },
            None => string_of(file_name),
        }
    } else {
        string_of(file_name)
    }
}

/// The file name of a path, empty when it has none.
pub open spec fn file_name_or_empty(p: Seq<char>) -> Seq<char> {
    match file_name_spec(p) {
        Some(f) => f,
        None => Seq::<char>::empty(),
    }
}

/// The name shown for the entry at `path` (see `display_spec`).
pub fn derive_display_name(path: &str, kind: u8) -> (r: String)
    ensures
        r@ == display_spec(file_name_or_empty(path@), kind),
{
    let p = chars_of(path);
    let f = match file_name_of(p.as_slice()) {
        Some(f) => f,
        None => Vec::new(),
    };
    display_name_of(f.as_slice(), kind)
}

/// The result-list item for an entry, before scoring.
pub fn entry_to_result(e: &SearchEntry) -> (r: SearchResult)
    ensures
        r.name@ == display_spec(file_name_or_empty(e.path@), e.kind),
        r.path@ == e.path@,
        r.kind@ == kind_name(e.kind),
        r.icon@ == kind_name(e.kind),
        !r.pinned,
        r.icon_data is None,
        r.score == (ScoreKey { tier: 0, primary: 0, frec_inv: 0, len: 0, path_len: 0 }),
{
    let kind = kind_str(e.kind);
    SearchResult {
        name: derive_display_name(e.path.as_str(), e.kind),
        path: copy_string(&e.path),
        kind: String::from_str(kind),
        icon: String::from_str(kind),
        pinned: false,
        icon_data: None,
        score: ScoreKey { tier: 0, primary: 0, frec_inv: 0, len: 0, path_len: 0 },
    }
}

// ---------------------------------------------------------------------------
// Folders skipped while walking a drive
// ---------------------------------------------------------------------------
/// Whether a folder or file name is skipped: hidden (leading `.`) or on the
/// exclusion list, compared in lowercase.
pub open spec fn skipped(name: Seq<char>, skip_dirs: Seq<Seq<char>>) -> bool {
    let l = str_to_lowercase(name);
    (l.len() > 0 && l[0] == '.') || skip_dirs.contains(l)
}

/// Whether the walk skips this name (see `skipped`).
pub fn is_skipped_name(name: &str, skip_dirs: &Vec<String>) -> (r: bool)
    ensures
        r == skipped(name@, texts(skip_dirs@)),
{
    let lower = to_lowercase(name);
    let l = chars_of(lower.as_str());
    if l.len() > 0 && l[0] == '.' {
        return true;
    }
    let mut i: usize = 0;
    while i < skip_dirs.len()
        invariant
            i <= skip_dirs@.len(),
            l@ == lower@,
            lower@ == str_to_lowercase(name@),
            forall|k: int| 0 <= k < i ==> texts(skip_dirs@)[k] != l@,
        decreases skip_dirs@.len() - i,
    {
        let s = chars_of(skip_dirs[i].as_str());
        if chars_eq(s.as_slice(), l.as_slice()) {
            proof {
                assert(texts(skip_dirs@)[i as int] == l@);
                assert(texts(skip_dirs@).contains(l@));
            }
            return true;
        }
        i = i + 1;
    }
    false
}

/// Files with the extensions `exe`, `msi` are of kind application.
pub proof fn law_application_extensions()
    ensures
        kind_for_ext("exe"@) == KIND_APP,
        kind_for_ext("msi"@) == KIND_APP,
{
    reveal_strlit("exe");
    assert("exe"@.len() == 3);
    reveal_strlit("msi");
    assert("msi"@.len() == 3);
}

/// Files with the extensions `lnk`, `url` are of kind shortcut.
pub proof fn law_shortcut_extensions()
    ensures
        kind_for_ext("lnk"@) == KIND_SHORTCUT,
        kind_for_ext("url"@) == KIND_SHORTCUT,
{
    reveal_strlit("exe");
    assert("exe"@.len() == 3);
    reveal_strlit("msi");
    assert("msi"@.len() == 3);
    reveal_strlit("lnk");
    assert("lnk"@.len() == 3);
    reveal_strlit("url");
    assert("url"@.len() == 3);
    {
        assert("lnk"@[0] != "exe"@[0]);
        assert("lnk"@[0] != "msi"@[0]);
    }
    {
        assert("url"@[0] != "exe"@[0]);
        assert("url"@[0] != "msi"@[0]);
    }
}

/// Files with the extensions `txt`, `log`, `md`, `ini`, `cfg`, `pdf`, `doc`, `docx`, `xls`, `xlsx`, `ppt`, `pptx` are of kind document.
pub proof fn law_document_extensions()
    ensures
        kind_for_ext("txt"@) == KIND_DOCUMENT,
        kind_for_ext("log"@) == KIND_DOCUMENT,
        kind_for_ext("md"@) == KIND_DOCUMENT,
        kind_for_ext("ini"@) == KIND_DOCUMENT,
        kind_for_ext("cfg"@) == KIND_DOCUMENT,
        kind_for_ext("pdf"@) == KIND_DOCUMENT,
        kind_for_ext("doc"@) == KIND_DOCUMENT,
        kind_for_ext("docx"@) == KIND_DOCUMENT,
        kind_for_ext("xls"@) == KIND_DOCUMENT,
        kind_for_ext("xlsx"@) == KIND_DOCUMENT,
        kind_for_ext("ppt"@) == KIND_DOCUMENT,
        kind_for_ext("pptx"@) == KIND_DOCUMENT,
{
    reveal_strlit("exe");
    assert("exe"@.len() == 3);
    reveal_strlit("msi");
    assert("msi"@.len() == 3);
    reveal_strlit("lnk");
    assert("lnk"@.len() == 3);
    reveal_strlit("url");
    assert("url"@.len() == 3);
    reveal_strlit("txt");
    assert("txt"@.len() == 3);
    reveal_strlit("log");
    assert("log"@.len() == 3);
    reveal_strlit("md");
    assert("md"@.len() == 2);
    reveal_strlit("ini");
    assert("ini"@.len() == 3);
    reveal_strlit("cfg");
    assert("cfg"@.len() == 3);
    reveal_strlit("pdf");
    assert("pdf"@.len() == 3);
    reveal_strlit("doc");
    assert("doc"@.len() == 3);
    reveal_strlit("docx");
    assert("docx"@.len() == 4);
    reveal_strlit("xls");
    assert("xls"@.len() == 3);
    reveal_strlit("xlsx");
    assert("xlsx"@.len() == 4);
    reveal_strlit("ppt");
    assert("ppt"@.len() == 3);
    reveal_strlit("pptx");
    assert("pptx"@.len() == 4);
    {
        assert("txt"@[0] != "exe"@[0]);
        assert("txt"@[0] != "msi"@[0]);
        assert("txt"@[0] != "lnk"@[0]);
        assert("txt"@[0] != "url"@[0]);
    }
    {
        assert("log"@[0] != "exe"@[0]);
        assert("log"@[0] != "msi"@[0]);
        assert("log"@[1] != "lnk"@[1]);
        assert("log"@[0] != "url"@[0]);
    }
    {
        assert("ini"@[0] != "exe"@[0]);
        assert("ini"@[0] != "msi"@[0]);
        assert("ini"@[0] != "lnk"@[0]);
        assert("ini"@[0] != "url"@[0]);
    }
    {
        assert("cfg"@[0] != "exe"@[0]);
        assert("cfg"@[0] != "msi"@[0]);
        assert("cfg"@[0] != "lnk"@[0]);
        assert("cfg"@[0] != "url"@[0]);
    }
    {
        assert("pdf"@[0] != "exe"@[0]);
        assert("pdf"@[0] != "msi"@[0]);
        assert("pdf"@[0] != "lnk"@[0]);
        assert("pdf"@[0] != "url"@[0]);
    }
    {
        assert("doc"@[0] != "exe"@[0]);
        assert("doc"@[0] != "msi"@[0]);
        assert("doc"@[0] != "lnk"@[0]);
        assert("doc"@[0] != "url"@[0]);
    }
    {
        assert("xls"@[0] != "exe"@[0]);
        assert("xls"@[0] != "msi"@[0]);
        assert("xls"@[0] != "lnk"@[0]);
        assert("xls"@[0] != "url"@[0]);
    }
    {
        assert("ppt"@[0] != "exe"@[0]);
        assert("ppt"@[0] != "msi"@[0]);
        assert("ppt"@[0] != "lnk"@[0]);
        assert("ppt"@[0] != "url"@[0]);
    }
}

/// Files with the extensions `jpg`, `jpeg`, `png`, `gif`, `bmp`, `webp`, `svg`, `ico` are of kind image.
pub proof fn law_image_extensions()
    ensures
        kind_for_ext("jpg"@) == KIND_IMAGE,
        kind_for_ext("jpeg"@) == KIND_IMAGE,
        kind_for_ext("png"@) == KIND_IMAGE,
        kind_for_ext("gif"@) == KIND_IMAGE,
        kind_for_ext("bmp"@) == KIND_IMAGE,
        kind_for_ext("webp"@) == KIND_IMAGE,
        kind_for_ext("svg"@) == KIND_IMAGE,
        kind_for_ext("ico"@) == KIND_IMAGE,
{
    reveal_strlit("exe");
    assert("exe"@.len() == 3);
    reveal_strlit("msi");
    assert("msi"@.len() == 3);
    reveal_strlit("lnk");
    assert("lnk"@.len() == 3);
    reveal_strlit("url");
    assert("url"@.len() == 3);
    reveal_strlit("txt");
    assert("txt"@.len() == 3);
    reveal_strlit("log");
    assert("log"@.len() == 3);
    reveal_strlit("md");
    assert("md"@.len() == 2);
    reveal_strlit("ini");
    assert("ini"@.len() == 3);
    reveal_strlit("cfg");
    assert("cfg"@.len() == 3);
    reveal_strlit("pdf");
    assert("pdf"@.len() == 3);
    reveal_strlit("doc");
    assert("doc"@.len() == 3);
    reveal_strlit("docx");
    assert("docx"@.len() == 4);
    reveal_strlit("xls");
    assert("xls"@.len() == 3);
    reveal_strlit("xlsx");
    assert("xlsx"@.len() == 4);
    reveal_strlit("ppt");
    assert("ppt"@.len() == 3);
    reveal_strlit("pptx");
    assert("pptx"@.len() == 4);
    reveal_strlit("jpg");
    assert("jpg"@.len() == 3);
    reveal_strlit("jpeg");
    assert("jpeg"@.len() == 4);
    reveal_strlit("png");
    assert("png"@.len() == 3);
    reveal_strlit("gif");
    assert("gif"@.len() == 3);
    reveal_strlit("bmp");
    assert("bmp"@.len() == 3);
    reveal_strlit("webp");
    assert("webp"@.len() == 4);
    reveal_strlit("svg");
    assert("svg"@.len() == 3);
    reveal_strlit("ico");
    assert("ico"@.len() == 3);
    {
        assert("jpg"@[0] != "exe"@[0]);
        assert("jpg"@[0] != "msi"@[0]);
        assert("jpg"@[0] != "lnk"@[0]);
        assert("jpg"@[0] != "url"@[0]);
        assert("jpg"@[0] != "txt"@[0]);
        assert("jpg"@[0] != "log"@[0]);
        assert("jpg"@[0] != "ini"@[0]);
        assert("jpg"@[0] != "cfg"@[0]);
        assert("jpg"@[0] != "pdf"@[0]);
        assert("jpg"@[0] != "doc"@[0]);
        assert("jpg"@[0] != "xls"@[0]);
        assert("jpg"@[0] != "ppt"@[0]);
    }
    {
        assert("jpeg"@[0] != "docx"@[0]);
        assert("jpeg"@[0] != "xlsx"@[0]);
        assert("jpeg"@[0] != "pptx"@[0]);
    }
    {
        assert("png"@[0] != "exe"@[0]);
        assert("png"@[0] != "msi"@[0]);
        assert("png"@[0] != "lnk"@[0]);
        assert("png"@[0] != "url"@[0]);
        assert("png"@[0] != "txt"@[0]);
        assert("png"@[0] != "log"@[0]);
        assert("png"@[0] != "ini"@[0]);
        assert("png"@[0] != "cfg"@[0]);
        assert("png"@[1] != "pdf"@[1]);
        assert("png"@[0] != "doc"@[0]);
        assert("png"@[0] != "xls"@[0]);
        assert("png"@[1] != "ppt"@[1]);
    }
    {
        assert("gif"@[0] != "exe"@[0]);
        assert("gif"@[0] != "msi"@[0]);
        assert("gif"@[0] != "lnk"@[0]);
        assert("gif"@[0] != "url"@[0]);
        assert("gif"@[0] != "txt"@[0]);
        assert("gif"@[0] != "log"@[0]);
        assert("gif"@[0] != "ini"@[0]);
        assert("gif"@[0] != "cfg"@[0]);
        assert("gif"@[0] != "pdf"@[0]);
        assert("gif"@[0] != "doc"@[0]);
        assert("gif"@[0] != "xls"@[0]);
        assert("gif"@[0] != "ppt"@[0]);
    }
    {
        assert("bmp"@[0] != "exe"@[0]);
        assert("bmp"@[0] != "msi"@[0]);
        assert("bmp"@[0] != "lnk"@[0]);
        assert("bmp"@[0] != "url"@[0]);
        assert("bmp"@[0] != "txt"@[0]);
        assert("bmp"@[0] != "log"@[0]);
        assert("bmp"@[0] != "ini"@[0]);
        assert("bmp"@[0] != "cfg"@[0]);
        assert("bmp"@[0] != "pdf"@[0]);
        assert("bmp"@[0] != "doc"@[0]);
        assert("bmp"@[0] != "xls"@[0]);
        assert("bmp"@[0] != "ppt"@[0]);
    }
    {
        assert("webp"@[0] != "docx"@[0]);
        assert("webp"@[0] != "xlsx"@[0]);
        assert("webp"@[0] != "pptx"@[0]);
    }
    {
        assert("svg"@[0] != "exe"@[0]);
        assert("svg"@[0] != "msi"@[0]);
        assert("svg"@[0] != "lnk"@[0]);
        assert("svg"@[0] != "url"@[0]);
        assert("svg"@[0] != "txt"@[0]);
        assert("svg"@[0] != "log"@[0]);
        assert("svg"@[0] != "ini"@[0]);
        assert("svg"@[0] != "cfg"@[0]);
        assert("svg"@[0] != "pdf"@[0]);
        assert("svg"@[0] != "doc"@[0]);
        assert("svg"@[0] != "xls"@[0]);
        assert("svg"@[0] != "ppt"@[0]);
    }
    {
        assert("ico"@[0] != "exe"@[0]);
        assert("ico"@[0] != "msi"@[0]);
        assert("ico"@[0] != "lnk"@[0]);
        assert("ico"@[0] != "url"@[0]);
        assert("ico"@[0] != "txt"@[0]);
        assert("ico"@[0] != "log"@[0]);
        assert("ico"@[1] != "ini"@[1]);
        assert("ico"@[0] != "cfg"@[0]);
        assert("ico"@[0] != "pdf"@[0]);
        assert("ico"@[0] != "doc"@[0]);
        assert("ico"@[0] != "xls"@[0]);
        assert("ico"@[0] != "ppt"@[0]);
    }
}

/// Files with the extensions `mp3`, `wav`, `flac`, `ogg`, `m4a`, `aac` are of kind audio.
pub proof fn law_audio_extensions()
    ensures
        kind_for_ext("mp3"@) == KIND_AUDIO,
        kind_for_ext("wav"@) == KIND_AUDIO,
        kind_for_ext("flac"@) == KIND_AUDIO,
        kind_for_ext("ogg"@) == KIND_AUDIO,
        kind_for_ext("m4a"@) == KIND_AUDIO,
        kind_for_ext("aac"@) == KIND_AUDIO,
{
    reveal_strlit("exe");
    assert("exe"@.len() == 3);
    reveal_strlit("msi");
    assert("msi"@.len() == 3);
    reveal_strlit("lnk");
    assert("lnk"@.len() == 3);
    reveal_strlit("url");
    assert("url"@.len() == 3);
    reveal_strlit("txt");
    assert("txt"@.len() == 3);
    reveal_strlit("log");
    assert("log"@.len() == 3);
    reveal_strlit("md");
    assert("md"@.len() == 2);
    reveal_strlit("ini");
    assert("ini"@.len() == 3);
    reveal_strlit("cfg");
    assert("cfg"@.len() == 3);
    reveal_strlit("pdf");
    assert("pdf"@.len() == 3);
    reveal_strlit("doc");
    assert("doc"@.len() == 3);
    reveal_strlit("docx");
    assert("docx"@.len() == 4);
    reveal_strlit("xls");
    assert("xls"@.len() == 3);
    reveal_strlit("xlsx");
    assert("xlsx"@.len() == 4);
    reveal_strlit("ppt");
    assert("ppt"@.len() == 3);
    reveal_strlit("pptx");
    assert("pptx"@.len() == 4);
    reveal_strlit("jpg");
    assert("jpg"@.len() == 3);
    reveal_strlit("jpeg");
    assert("jpeg"@.len() == 4);
    reveal_strlit("png");
    assert("png"@.len() == 3);
    reveal_strlit("gif");
    assert("gif"@.len() == 3);
    reveal_strlit("bmp");
    assert("bmp"@.len() == 3);
    reveal_strlit("webp");
    assert("webp"@.len() == 4);
    reveal_strlit("svg");
    assert("svg"@.len() == 3);
    reveal_strlit("ico");
    assert("ico"@.len() == 3);
    reveal_strlit("mp3");
    assert("mp3"@.len() == 3);
    reveal_strlit("wav");
    assert("wav"@.len() == 3);
    reveal_strlit("flac");
    assert("flac"@.len() == 4);
    reveal_strlit("ogg");
    assert("ogg"@.len() == 3);
    reveal_strlit("m4a");
    assert("m4a"@.len() == 3);
    reveal_strlit("aac");
    assert("aac"@.len() == 3);
    {
        assert("mp3"@[0] != "exe"@[0]);
        assert("mp3"@[1] != "msi"@[1]);
        assert("mp3"@[0] != "lnk"@[0]);
        assert("mp3"@[0] != "url"@[0]);
        assert("mp3"@[0] != "txt"@[0]);
        assert("mp3"@[0] != "log"@[0]);
        assert("mp3"@[0] != "ini"@[0]);
        assert("mp3"@[0] != "cfg"@[0]);
        assert("mp3"@[0] != "pdf"@[0]);
        assert("mp3"@[0] != "doc"@[0]);
        assert("mp3"@[0] != "xls"@[0]);
        assert("mp3"@[0] != "ppt"@[0]);
        assert("mp3"@[0] != "jpg"@[0]);
        assert("mp3"@[0] != "png"@[0]);
        assert("mp3"@[0] != "gif"@[0]);
        assert("mp3"@[0] != "bmp"@[0]);
        assert("mp3"@[0] != "svg"@[0]);
        assert("mp3"@[0] != "ico"@[0]);
    }
    {
        assert("wav"@[0] != "exe"@[0]);
        assert("wav"@[0] != "msi"@[0]);
        assert("wav"@[0] != "lnk"@[0]);
        assert("wav"@[0] != "url"@[0]);
        assert("wav"@[0] != "txt"@[0]);
        assert("wav"@[0] != "log"@[0]);
        assert("wav"@[0] != "ini"@[0]);
        assert("wav"@[0] != "cfg"@[0]);
        assert("wav"@[0] != "pdf"@[0]);
        assert("wav"@[0] != "doc"@[0]);
        assert("wav"@[0] != "xls"@[0]);
        assert("wav"@[0] != "ppt"@[0]);
        assert("wav"@[0] != "jpg"@[0]);
        assert("wav"@[0] != "png"@[0]);
        assert("wav"@[0] != "gif"@[0]);
        assert("wav"@[0] != "bmp"@[0]);
        assert("wav"@[0] != "svg"@[0]);
        assert("wav"@[0] != "ico"@[0]);
    }
    {
        assert("flac"@[0] != "docx"@[0]);
        assert("flac"@[0] != "xlsx"@[0]);
        assert("flac"@[0] != "pptx"@[0]);
        assert("flac"@[0] != "jpeg"@[0]);
        assert("flac"@[0] != "webp"@[0]);
    }
    {
        assert("ogg"@[0] != "exe"@[0]);
        assert("ogg"@[0] != "msi"@[0]);
        assert("ogg"@[0] != "lnk"@[0]);
        assert("ogg"@[0] != "url"@[0]);
        assert("ogg"@[0] != "txt"@[0]);
        assert("ogg"@[0] != "log"@[0]);
        assert("ogg"@[0] != "ini"@[0]);
        assert("ogg"@[0] != "cfg"@[0]);
        assert("ogg"@[0] != "pdf"@[0]);
        assert("ogg"@[0] != "doc"@[0]);
        assert("ogg"@[0] != "xls"@[0]);
        assert("ogg"@[0] != "ppt"@[0]);
        assert("ogg"@[0] != "jpg"@[0]);
        assert("ogg"@[0] != "png"@[0]);
        assert("ogg"@[0] != "gif"@[0]);
        assert("ogg"@[0] != "bmp"@[0]);
        assert("ogg"@[0] != "svg"@[0]);
        assert("ogg"@[0] != "ico"@[0]);
    }
    {
        assert("m4a"@[0] != "exe"@[0]);
        assert("m4a"@[1] != "msi"@[1]);
        assert("m4a"@[0] != "lnk"@[0]);
        assert("m4a"@[0] != "url"@[0]);
        assert("m4a"@[0] != "txt"@[0]);
        assert("m4a"@[0] != "log"@[0]);
        assert("m4a"@[0] != "ini"@[0]);
        assert("m4a"@[0] != "cfg"@[0]);
        assert("m4a"@[0] != "pdf"@[0]);
        assert("m4a"@[0] != "doc"@[0]);
        assert("m4a"@[0] != "xls"@[0]);
        assert("m4a"@[0] != "ppt"@[0]);
        assert("m4a"@[0] != "jpg"@[0]);
        assert("m4a"@[0] != "png"@[0]);
        assert("m4a"@[0] != "gif"@[0]);
        assert("m4a"@[0] != "bmp"@[0]);
        assert("m4a"@[0] != "svg"@[0]);
        assert("m4a"@[0] != "ico"@[0]);
    }
    {
        assert("aac"@[0] != "exe"@[0]);
        assert("aac"@[0] != "msi"@[0]);
        assert("aac"@[0] != "lnk"@[0]);
        assert("aac"@[0] != "url"@[0]);
        assert("aac"@[0] != "txt"@[0]);
        assert("aac"@[0] != "log"@[0]);
        assert("aac"@[0] != "ini"@[0]);
        assert("aac"@[0] != "cfg"@[0]);
        assert("aac"@[0] != "pdf"@[0]);
        assert("aac"@[0] != "doc"@[0]);
        assert("aac"@[0] != "xls"@[0]);
        assert("aac"@[0] != "ppt"@[0]);
        assert("aac"@[0] != "jpg"@[0]);
        assert("aac"@[0] != "png"@[0]);
        assert("aac"@[0] != "gif"@[0]);
        assert("aac"@[0] != "bmp"@[0]);
        assert("aac"@[0] != "svg"@[0]);
        assert("aac"@[0] != "ico"@[0]);
    }
}

/// Files with the extensions `mp4`, `avi`, `mkv`, `mov`, `wmv`, `webm` are of kind video.
pub proof fn law_video_extensions()
    ensures
        kind_for_ext("mp4"@) == KIND_VIDEO,
        kind_for_ext("avi"@) == KIND_VIDEO,
        kind_for_ext("mkv"@) == KIND_VIDEO,
        kind_for_ext("mov"@) == KIND_VIDEO,
        kind_for_ext("wmv"@) == KIND_VIDEO,
        kind_for_ext("webm"@) == KIND_VIDEO,
{
    reveal_strlit("exe");
    assert("exe"@.len() == 3);
    reveal_strlit("msi");
    assert("msi"@.len() == 3);
    reveal_strlit("lnk");
    assert("lnk"@.len() == 3);
    reveal_strlit("url");
    assert("url"@.len() == 3);
    reveal_strlit("txt");
    assert("txt"@.len() == 3);
    reveal_strlit("log");
    assert("log"@.len() == 3);
    reveal_strlit("md");
    assert("md"@.len() == 2);
    reveal_strlit("ini");
    assert("ini"@.len() == 3);
    reveal_strlit("cfg");
    assert("cfg"@.len() == 3);
    reveal_strlit("pdf");
    assert("pdf"@.len() == 3);
    reveal_strlit("doc");
    assert("doc"@.len() == 3);
    reveal_strlit("docx");
    assert("docx"@.len() == 4);
    reveal_strlit("xls");
    assert("xls"@.len() == 3);
    reveal_strlit("xlsx");
    assert("xlsx"@.len() == 4);
    reveal_strlit("ppt");
    assert("ppt"@.len() == 3);
    reveal_strlit("pptx");
    assert("pptx"@.len() == 4);
    reveal_strlit("jpg");
    assert("jpg"@.len() == 3);
    reveal_strlit("jpeg");
    assert("jpeg"@.len() == 4);
    reveal_strlit("png");
    assert("png"@.len() == 3);
    reveal_strlit("gif");
    assert("gif"@.len() == 3);
    reveal_strlit("bmp");
    assert("bmp"@.len() == 3);
    reveal_strlit("webp");
    assert("webp"@.len() == 4);
    reveal_strlit("svg");
    assert("svg"@.len() == 3);
    reveal_strlit("ico");
    assert("ico"@.len() == 3);
    reveal_strlit("mp3");
    assert("mp3"@.len() == 3);
    reveal_strlit("wav");
    assert("wav"@.len() == 3);
    reveal_strlit("flac");
    assert("flac"@.len() == 4);
    reveal_strlit("ogg");
    assert("ogg"@.len() == 3);
    reveal_strlit("m4a");
    assert("m4a"@.len() == 3);
    reveal_strlit("aac");
    assert("aac"@.len() == 3);
    reveal_strlit("mp4");
    assert("mp4"@.len() == 3);
    reveal_strlit("avi");
    assert("avi"@.len() == 3);
    reveal_strlit("mkv");
    assert("mkv"@.len() == 3);
    reveal_strlit("mov");
    assert("mov"@.len() == 3);
    reveal_strlit("wmv");
    assert("wmv"@.len() == 3);
    reveal_strlit("webm");
    assert("webm"@.len() == 4);
    {
        assert("mp4"@[0] != "exe"@[0]);
        assert("mp4"@[1] != "msi"@[1]);
        assert("mp4"@[0] != "lnk"@[0]);
        assert("mp4"@[0] != "url"@[0]);
        assert("mp4"@[0] != "txt"@[0]);
        assert("mp4"@[0] != "log"@[0]);
        assert("mp4"@[0] != "ini"@[0]);
        assert("mp4"@[0] != "cfg"@[0]);
        assert("mp4"@[0] != "pdf"@[0]);
        assert("mp4"@[0] != "doc"@[0]);
        assert("mp4"@[0] != "xls"@[0]);
        assert("mp4"@[0] != "ppt"@[0]);
        assert("mp4"@[0] != "jpg"@[0]);
        assert("mp4"@[0] != "png"@[0]);
        assert("mp4"@[0] != "gif"@[0]);
        assert("mp4"@[0] != "bmp"@[0]);
        assert("mp4"@[0] != "svg"@[0]);
        assert("mp4"@[0] != "ico"@[0]);
        assert("mp4"@[2] != "mp3"@[2]);
        assert("mp4"@[0] != "wav"@[0]);
        assert("mp4"@[0] != "ogg"@[0]);
        assert("mp4"@[1] != "m4a"@[1]);
        assert("mp4"@[0] != "aac"@[0]);
    }
    {
        assert("avi"@[0] != "exe"@[0]);
        assert("avi"@[0] != "msi"@[0]);
        assert("avi"@[0] != "lnk"@[0]);
        assert("avi"@[0] != "url"@[0]);
        assert("avi"@[0] != "txt"@[0]);
        assert("avi"@[0] != "log"@[0]);
        assert("avi"@[0] != "ini"@[0]);
        assert("avi"@[0] != "cfg"@[0]);
        assert("avi"@[0] != "pdf"@[0]);
        assert("avi"@[0] != "doc"@[0]);
        assert("avi"@[0] != "xls"@[0]);
        assert("avi"@[0] != "ppt"@[0]);
        assert("avi"@[0] != "jpg"@[0]);
        assert("avi"@[0] != "png"@[0]);
        assert("avi"@[0] != "gif"@[0]);
        assert("avi"@[0] != "bmp"@[0]);
        assert("avi"@[0] != "svg"@[0]);
        assert("avi"@[0] != "ico"@[0]);
        assert("avi"@[0] != "mp3"@[0]);
        assert("avi"@[0] != "wav"@[0]);
        assert("avi"@[0] != "ogg"@[0]);
        assert("avi"@[0] != "m4a"@[0]);
        assert("avi"@[1] != "aac"@[1]);
    }
    {
        assert("mkv"@[0] != "exe"@[0]);
        assert("mkv"@[1] != "msi"@[1]);
        assert("mkv"@[0] != "lnk"@[0]);
        assert("mkv"@[0] != "url"@[0]);
        assert("mkv"@[0] != "txt"@[0]);
        assert("mkv"@[0] != "log"@[0]);
        assert("mkv"@[0] != "ini"@[0]);
        assert("mkv"@[0] != "cfg"@[0]);
        assert("mkv"@[0] != "pdf"@[0]);
        assert("mkv"@[0] != "doc"@[0]);
        assert("mkv"@[0] != "xls"@[0]);
        assert("mkv"@[0] != "ppt"@[0]);
        assert("mkv"@[0] != "jpg"@[0]);
        assert("mkv"@[0] != "png"@[0]);
        assert("mkv"@[0] != "gif"@[0]);
        assert("mkv"@[0] != "bmp"@[0]);
        assert("mkv"@[0] != "svg"@[0]);
        assert("mkv"@[0] != "ico"@[0]);
        assert("mkv"@[1] != "mp3"@[1]);
        assert("mkv"@[0] != "wav"@[0]);
        assert("mkv"@[0] != "ogg"@[0]);
        assert("mkv"@[1] != "m4a"@[1]);
        assert("mkv"@[0] != "aac"@[0]);
    }
    {
        assert("mov"@[0] != "exe"@[0]);
        assert("mov"@[1] != "msi"@[1]);
        assert("mov"@[0] != "lnk"@[0]);
        assert("mov"@[0] != "url"@[0]);
        assert("mov"@[0] != "txt"@[0]);
        assert("mov"@[0] != "log"@[0]);
        assert("mov"@[0] != "ini"@[0]);
        assert("mov"@[0] != "cfg"@[0]);
        assert("mov"@[0] != "pdf"@[0]);
        assert("mov"@[0] != "doc"@[0]);
        assert("mov"@[0] != "xls"@[0]);
        assert("mov"@[0] != "ppt"@[0]);
        assert("mov"@[0] != "jpg"@[0]);
        assert("mov"@[0] != "png"@[0]);
        assert("mov"@[0] != "gif"@[0]);
        assert("mov"@[0] != "bmp"@[0]);
        assert("mov"@[0] != "svg"@[0]);
        assert("mov"@[0] != "ico"@[0]);
        assert("mov"@[1] != "mp3"@[1]);
        assert("mov"@[0] != "wav"@[0]);
        assert("mov"@[0] != "ogg"@[0]);
        assert("mov"@[1] != "m4a"@[1]);
        assert("mov"@[0] != "aac"@[0]);
    }
    {
        assert("wmv"@[0] != "exe"@[0]);
        assert("wmv"@[0] != "msi"@[0]);
        assert("wmv"@[0] != "lnk"@[0]);
        assert("wmv"@[0] != "url"@[0]);
        assert("wmv"@[0] != "txt"@[0]);
        assert("wmv"@[0] != "log"@[0]);
        assert("wmv"@[0] != "ini"@[0]);
        assert("wmv"@[0] != "cfg"@[0]);
        assert("wmv"@[0] != "pdf"@[0]);
        assert("wmv"@[0] != "doc"@[0]);
        assert("wmv"@[0] != "xls"@[0]);
        assert("wmv"@[0] != "ppt"@[0]);
        assert("wmv"@[0] != "jpg"@[0]);
        assert("wmv"@[0] != "png"@[0]);
        assert("wmv"@[0] != "gif"@[0]);
        assert("wmv"@[0] != "bmp"@[0]);
        assert("wmv"@[0] != "svg"@[0]);
        assert("wmv"@[0] != "ico"@[0]);
        assert("wmv"@[0] != "mp3"@[0]);
        assert("wmv"@[1] != "wav"@[1]);
        assert("wmv"@[0] != "ogg"@[0]);
        assert("wmv"@[0] != "m4a"@[0]);
        assert("wmv"@[0] != "aac"@[0]);
    }
    {
        assert("webm"@[0] != "docx"@[0]);
        assert("webm"@[0] != "xlsx"@[0]);
        assert("webm"@[0] != "pptx"@[0]);
        assert("webm"@[0] != "jpeg"@[0]);
        assert("webm"@[3] != "webp"@[3]);
        assert("webm"@[0] != "flac"@[0]);
    }
}

/// Files with the extensions `zip`, `rar`, `7z`, `tar`, `gz`, `bz2` are of kind archive.
pub proof fn law_archive_extensions()
    ensures
        kind_for_ext("zip"@) == KIND_ARCHIVE,
        kind_for_ext("rar"@) == KIND_ARCHIVE,
        kind_for_ext("7z"@) == KIND_ARCHIVE,
        kind_for_ext("tar"@) == KIND_ARCHIVE,
        kind_for_ext("gz"@) == KIND_ARCHIVE,
        kind_for_ext("bz2"@) == KIND_ARCHIVE,
{
    reveal_strlit("exe");
    assert("exe"@.len() == 3);
    reveal_strlit("msi");
    assert("msi"@.len() == 3);
    reveal_strlit("lnk");
    assert("lnk"@.len() == 3);
    reveal_strlit("url");
    assert("url"@.len() == 3);
    reveal_strlit("txt");
    assert("txt"@.len() == 3);
    reveal_strlit("log");
    assert("log"@.len() == 3);
    reveal_strlit("md");
    assert("md"@.len() == 2);
    reveal_strlit("ini");
    assert("ini"@.len() == 3);
    reveal_strlit("cfg");
    assert("cfg"@.len() == 3);
    reveal_strlit("pdf");
    assert("pdf"@.len() == 3);
    reveal_strlit("doc");
    assert("doc"@.len() == 3);
    reveal_strlit("docx");
    assert("docx"@.len() == 4);
    reveal_strlit("xls");
    assert("xls"@.len() == 3);
    reveal_strlit("xlsx");
    assert("xlsx"@.len() == 4);
    reveal_strlit("ppt");
    assert("ppt"@.len() == 3);
    reveal_strlit("pptx");
    assert("pptx"@.len() == 4);
    reveal_strlit("jpg");
    assert("jpg"@.len() == 3);
    reveal_strlit("jpeg");
    assert("jpeg"@.len() == 4);
    reveal_strlit("png");
    assert("png"@.len() == 3);
    reveal_strlit("gif");
    assert("gif"@.len() == 3);
    reveal_strlit("bmp");
    assert("bmp"@.len() == 3);
    reveal_strlit("webp");
    assert("webp"@.len() == 4);
    reveal_strlit("svg");
    assert("svg"@.len() == 3);
    reveal_strlit("ico");
    assert("ico"@.len() == 3);
    reveal_strlit("mp3");
    assert("mp3"@.len() == 3);
    reveal_strlit("wav");
    assert("wav"@.len() == 3);
    reveal_strlit("flac");
    assert("flac"@.len() == 4);
    reveal_strlit("ogg");
    assert("ogg"@.len() == 3);
    reveal_strlit("m4a");
    assert("m4a"@.len() == 3);
    reveal_strlit("aac");
    assert("aac"@.len() == 3);
    reveal_strlit("mp4");
    assert("mp4"@.len() == 3);
    reveal_strlit("avi");
    assert("avi"@.len() == 3);
    reveal_strlit("mkv");
    assert("mkv"@.len() == 3);
    reveal_strlit("mov");
    assert("mov"@.len() == 3);
    reveal_strlit("wmv");
    assert("wmv"@.len() == 3);
    reveal_strlit("webm");
    assert("webm"@.len() == 4);
    reveal_strlit("zip");
    assert("zip"@.len() == 3);
    reveal_strlit("rar");
    assert("rar"@.len() == 3);
    reveal_strlit("7z");
    assert("7z"@.len() == 2);
    reveal_strlit("tar");
    assert("tar"@.len() == 3);
    reveal_strlit("gz");
    assert("gz"@.len() == 2);
    reveal_strlit("bz2");
    assert("bz2"@.len() == 3);
    {
        assert("zip"@[0] != "exe"@[0]);
        assert("zip"@[0] != "msi"@[0]);
        assert("zip"@[0] != "lnk"@[0]);
        assert("zip"@[0] != "url"@[0]);
        assert("zip"@[0] != "txt"@[0]);
        assert("zip"@[0] != "log"@[0]);
        assert("zip"@[0] != "ini"@[0]);
        assert("zip"@[0] != "cfg"@[0]);
        assert("zip"@[0] != "pdf"@[0]);
        assert("zip"@[0] != "doc"@[0]);
        assert("zip"@[0] != "xls"@[0]);
        assert("zip"@[0] != "ppt"@[0]);
        assert("zip"@[0] != "jpg"@[0]);
        assert("zip"@[0] != "png"@[0]);
        assert("zip"@[0] != "gif"@[0]);
        assert("zip"@[0] != "bmp"@[0]);
        assert("zip"@[0] != "svg"@[0]);
        assert("zip"@[0] != "ico"@[0]);
        assert("zip"@[0] != "mp3"@[0]);
        assert("zip"@[0] != "wav"@[0]);
        assert("zip"@[0] != "ogg"@[0]);
        assert("zip"@[0] != "m4a"@[0]);
        assert("zip"@[0] != "aac"@[0]);
        assert("zip"@[0] != "mp4"@[0]);
        assert("zip"@[0] != "avi"@[0]);
        assert("zip"@[0] != "mkv"@[0]);
        assert("zip"@[0] != "mov"@[0]);
        assert("zip"@[0] != "wmv"@[0]);
    }
    {
        assert("rar"@[0] != "exe"@[0]);
        assert("rar"@[0] != "msi"@[0]);
        assert("rar"@[0] != "lnk"@[0]);
        assert("rar"@[0] != "url"@[0]);
        assert("rar"@[0] != "txt"@[0]);
        assert("rar"@[0] != "log"@[0]);
        assert("rar"@[0] != "ini"@[0]);
        assert("rar"@[0] != "cfg"@[0]);
        assert("rar"@[0] != "pdf"@[0]);
        assert("rar"@[0] != "doc"@[0]);
        assert("rar"@[0] != "xls"@[0]);
        assert("rar"@[0] != "ppt"@[0]);
        assert("rar"@[0] != "jpg"@[0]);
        assert("rar"@[0] != "png"@[0]);
        assert("rar"@[0] != "gif"@[0]);
        assert("rar"@[0] != "bmp"@[0]);
        assert("rar"@[0] != "svg"@[0]);
        assert("rar"@[0] != "ico"@[0]);
        assert("rar"@[0] != "mp3"@[0]);
        assert("rar"@[0] != "wav"@[0]);
        assert("rar"@[0] != "ogg"@[0]);
        assert("rar"@[0] != "m4a"@[0]);
        assert("rar"@[0] != "aac"@[0]);
        assert("rar"@[0] != "mp4"@[0]);
        assert("rar"@[0] != "avi"@[0]);
        assert("rar"@[0] != "mkv"@[0]);
        assert("rar"@[0] != "mov"@[0]);
        assert("rar"@[0] != "wmv"@[0]);
    }
    {
        assert("7z"@[0] != "md"@[0]);
    }
    {
        assert("tar"@[0] != "exe"@[0]);
        assert("tar"@[0] != "msi"@[0]);
        assert("tar"@[0] != "lnk"@[0]);
        assert("tar"@[0] != "url"@[0]);
        assert("tar"@[1] != "txt"@[1]);
        assert("tar"@[0] != "log"@[0]);
        assert("tar"@[0] != "ini"@[0]);
        assert("tar"@[0] != "cfg"@[0]);
        assert("tar"@[0] != "pdf"@[0]);
        assert("tar"@[0] != "doc"@[0]);
        assert("tar"@[0] != "xls"@[0]);
        assert("tar"@[0] != "ppt"@[0]);
        assert("tar"@[0] != "jpg"@[0]);
        assert("tar"@[0] != "png"@[0]);
        assert("tar"@[0] != "gif"@[0]);
        assert("tar"@[0] != "bmp"@[0]);
        assert("tar"@[0] != "svg"@[0]);
        assert("tar"@[0] != "ico"@[0]);
        assert("tar"@[0] != "mp3"@[0]);
        assert("tar"@[0] != "wav"@[0]);
        assert("tar"@[0] != "ogg"@[0]);
        assert("tar"@[0] != "m4a"@[0]);
        assert("tar"@[0] != "aac"@[0]);
        assert("tar"@[0] != "mp4"@[0]);
        assert("tar"@[0] != "avi"@[0]);
        assert("tar"@[0] != "mkv"@[0]);
        assert("tar"@[0] != "mov"@[0]);
        assert("tar"@[0] != "wmv"@[0]);
    }
    {
        assert("gz"@[0] != "md"@[0]);
    }
    {
        assert("bz2"@[0] != "exe"@[0]);
        assert("bz2"@[0] != "msi"@[0]);
        assert("bz2"@[0] != "lnk"@[0]);
        assert("bz2"@[0] != "url"@[0]);
        assert("bz2"@[0] != "txt"@[0]);
        assert("bz2"@[0] != "log"@[0]);
        assert("bz2"@[0] != "ini"@[0]);
        assert("bz2"@[0] != "cfg"@[0]);
        assert("bz2"@[0] != "pdf"@[0]);
        assert("bz2"@[0] != "doc"@[0]);
        assert("bz2"@[0] != "xls"@[0]);
        assert("bz2"@[0] != "ppt"@[0]);
        assert("bz2"@[0] != "jpg"@[0]);
        assert("bz2"@[0] != "png"@[0]);
        assert("bz2"@[0] != "gif"@[0]);
        assert("bz2"@[1] != "bmp"@[1]);
        assert("bz2"@[0] != "svg"@[0]);
        assert("bz2"@[0] != "ico"@[0]);
        assert("bz2"@[0] != "mp3"@[0]);
        assert("bz2"@[0] != "wav"@[0]);
        assert("bz2"@[0] != "ogg"@[0]);
        assert("bz2"@[0] != "m4a"@[0]);
        assert("bz2"@[0] != "aac"@[0]);
        assert("bz2"@[0] != "mp4"@[0]);
        assert("bz2"@[0] != "avi"@[0]);
        assert("bz2"@[0] != "mkv"@[0]);
        assert("bz2"@[0] != "mov"@[0]);
        assert("bz2"@[0] != "wmv"@[0]);
    }
}

/// Files with the extensions `js`, `ts`, `py`, `rs`, `c`, `cpp`, `h`, `java`, `go`, `html`, `css`, `json`, `xml`, `yaml`, `toml` are of kind code.
pub proof fn law_code_extensions()
    ensures
        kind_for_ext("js"@) == KIND_CODE,
        kind_for_ext("ts"@) == KIND_CODE,
        kind_for_ext("py"@) == KIND_CODE,
        kind_for_ext("rs"@) == KIND_CODE,
        kind_for_ext("c"@) == KIND_CODE,
        kind_for_ext("cpp"@) == KIND_CODE,
        kind_for_ext("h"@) == KIND_CODE,
        kind_for_ext("java"@) == KIND_CODE,
        kind_for_ext("go"@) == KIND_CODE,
        kind_for_ext("html"@) == KIND_CODE,
        kind_for_ext("css"@) == KIND_CODE,
        kind_for_ext("json"@) == KIND_CODE,
        kind_for_ext("xml"@) == KIND_CODE,
        kind_for_ext("yaml"@) == KIND_CODE,
        kind_for_ext("toml"@) == KIND_CODE,
{
    reveal_strlit("exe");
    assert("exe"@.len() == 3);
    reveal_strlit("msi");
    assert("msi"@.len() == 3);
    reveal_strlit("lnk");
    assert("lnk"@.len() == 3);
    reveal_strlit("url");
    assert("url"@.len() == 3);
    reveal_strlit("txt");
    assert("txt"@.len() == 3);
    reveal_strlit("log");
    assert("log"@.len() == 3);
    reveal_strlit("md");
    assert("md"@.len() == 2);
    reveal_strlit("ini");
    assert("ini"@.len() == 3);
    reveal_strlit("cfg");
    assert("cfg"@.len() == 3);
    reveal_strlit("pdf");
    assert("pdf"@.len() == 3);
    reveal_strlit("doc");
    assert("doc"@.len() == 3);
    reveal_strlit("docx");
    assert("docx"@.len() == 4);
    reveal_strlit("xls");
    assert("xls"@.len() == 3);
    reveal_strlit("xlsx");
    assert("xlsx"@.len() == 4);
    reveal_strlit("ppt");
    assert("ppt"@.len() == 3);
    reveal_strlit("pptx");
    assert("pptx"@.len() == 4);
    reveal_strlit("jpg");
    assert("jpg"@.len() == 3);
    reveal_strlit("jpeg");
    assert("jpeg"@.len() == 4);
    reveal_strlit("png");
    assert("png"@.len() == 3);
    reveal_strlit("gif");
    assert("gif"@.len() == 3);
    reveal_strlit("bmp");
    assert("bmp"@.len() == 3);
    reveal_strlit("webp");
    assert("webp"@.len() == 4);
    reveal_strlit("svg");
    assert("svg"@.len() == 3);
    reveal_strlit("ico");
    assert("ico"@.len() == 3);
    reveal_strlit("mp3");
    assert("mp3"@.len() == 3);
    reveal_strlit("wav");
    assert("wav"@.len() == 3);
    reveal_strlit("flac");
    assert("flac"@.len() == 4);
    reveal_strlit("ogg");
    assert("ogg"@.len() == 3);
    reveal_strlit("m4a");
    assert("m4a"@.len() == 3);
    reveal_strlit("aac");
    assert("aac"@.len() == 3);
    reveal_strlit("mp4");
    assert("mp4"@.len() == 3);
    reveal_strlit("avi");
    assert("avi"@.len() == 3);
    reveal_strlit("mkv");
    assert("mkv"@.len() == 3);
    reveal_strlit("mov");
    assert("mov"@.len() == 3);
    reveal_strlit("wmv");
    assert("wmv"@.len() == 3);
    reveal_strlit("webm");
    assert("webm"@.len() == 4);
    reveal_strlit("zip");
    assert("zip"@.len() == 3);
    reveal_strlit("rar");
    assert("rar"@.len() == 3);
    reveal_strlit("7z");
    assert("7z"@.len() == 2);
    reveal_strlit("tar");
    assert("tar"@.len() == 3);
    reveal_strlit("gz");
    assert("gz"@.len() == 2);
    reveal_strlit("bz2");
    assert("bz2"@.len() == 3);
    reveal_strlit("js");
    assert("js"@.len() == 2);
    reveal_strlit("ts");
    assert("ts"@.len() == 2);
    reveal_strlit("py");
    assert("py"@.len() == 2);
    reveal_strlit("rs");
    assert("rs"@.len() == 2);
    reveal_strlit("c");
    assert("c"@.len() == 1);
    reveal_strlit("cpp");
    assert("cpp"@.len() == 3);
    reveal_strlit("h");
    assert("h"@.len() == 1);
    reveal_strlit("java");
    assert("java"@.len() == 4);
    reveal_strlit("go");
    assert("go"@.len() == 2);
    reveal_strlit("html");
    assert("html"@.len() == 4);
    reveal_strlit("css");
    assert("css"@.len() == 3);
    reveal_strlit("json");
    assert("json"@.len() == 4);
    reveal_strlit("xml");
    assert("xml"@.len() == 3);
    reveal_strlit("yaml");
    assert("yaml"@.len() == 4);
    reveal_strlit("toml");
    assert("toml"@.len() == 4);
    {
        assert("js"@[0] != "md"@[0]);
        assert("js"@[0] != "7z"@[0]);
        assert("js"@[0] != "gz"@[0]);
    }
    {
        assert("ts"@[0] != "md"@[0]);
        assert("ts"@[0] != "7z"@[0]);
        assert("ts"@[0] != "gz"@[0]);
    }
    {
        assert("py"@[0] != "md"@[0]);
        assert("py"@[0] != "7z"@[0]);
        assert("py"@[0] != "gz"@[0]);
    }
    {
        assert("rs"@[0] != "md"@[0]);
        assert("rs"@[0] != "7z"@[0]);
        assert("rs"@[0] != "gz"@[0]);
    }
    {
        assert("cpp"@[0] != "exe"@[0]);
        assert("cpp"@[0] != "msi"@[0]);
        assert("cpp"@[0] != "lnk"@[0]);
        assert("cpp"@[0] != "url"@[0]);
        assert("cpp"@[0] != "txt"@[0]);
        assert("cpp"@[0] != "log"@[0]);
        assert("cpp"@[0] != "ini"@[0]);
        assert("cpp"@[1] != "cfg"@[1]);
        assert("cpp"@[0] != "pdf"@[0]);
        assert("cpp"@[0] != "doc"@[0]);
        assert("cpp"@[0] != "xls"@[0]);
        assert("cpp"@[0] != "ppt"@[0]);
        assert("cpp"@[0] != "jpg"@[0]);
        assert("cpp"@[0] != "png"@[0]);
        assert("cpp"@[0] != "gif"@[0]);
        assert("cpp"@[0] != "bmp"@[0]);
        assert("cpp"@[0] != "svg"@[0]);
        assert("cpp"@[0] != "ico"@[0]);
        assert("cpp"@[0] != "mp3"@[0]);
        assert("cpp"@[0] != "wav"@[0]);
        assert("cpp"@[0] != "ogg"@[0]);
        assert("cpp"@[0] != "m4a"@[0]);
        assert("cpp"@[0] != "aac"@[0]);
        assert("cpp"@[0] != "mp4"@[0]);
        assert("cpp"@[0] != "avi"@[0]);
        assert("cpp"@[0] != "mkv"@[0]);
        assert("cpp"@[0] != "mov"@[0]);
        assert("cpp"@[0] != "wmv"@[0]);
        assert("cpp"@[0] != "zip"@[0]);
        assert("cpp"@[0] != "rar"@[0]);
        assert("cpp"@[0] != "tar"@[0]);
        assert("cpp"@[0] != "bz2"@[0]);
    }
    {
        assert("java"@[0] != "docx"@[0]);
        assert("java"@[0] != "xlsx"@[0]);
        assert("java"@[0] != "pptx"@[0]);
        assert("java"@[1] != "jpeg"@[1]);
        assert("java"@[0] != "webp"@[0]);
        assert("java"@[0] != "flac"@[0]);
        assert("java"@[0] != "webm"@[0]);
    }
    {
        assert("go"@[0] != "md"@[0]);
        assert("go"@[0] != "7z"@[0]);
        assert("go"@[1] != "gz"@[1]);
    }
    {
        assert("html"@[0] != "docx"@[0]);
        assert("html"@[0] != "xlsx"@[0]);
        assert("html"@[0] != "pptx"@[0]);
        assert("html"@[0] != "jpeg"@[0]);
        assert("html"@[0] != "webp"@[0]);
        assert("html"@[0] != "flac"@[0]);
        assert("html"@[0] != "webm"@[0]);
    }
    {
        assert("css"@[0] != "exe"@[0]);
        assert("css"@[0] != "msi"@[0]);
        assert("css"@[0] != "lnk"@[0]);
        assert("css"@[0] != "url"@[0]);
        assert("css"@[0] != "txt"@[0]);
        assert("css"@[0] != "log"@[0]);
        assert("css"@[0] != "ini"@[0]);
        assert("css"@[1] != "cfg"@[1]);
        assert("css"@[0] != "pdf"@[0]);
        assert("css"@[0] != "doc"@[0]);
        assert("css"@[0] != "xls"@[0]);
        assert("css"@[0] != "ppt"@[0]);
        assert("css"@[0] != "jpg"@[0]);
        assert("css"@[0] != "png"@[0]);
        assert("css"@[0] != "gif"@[0]);
        assert("css"@[0] != "bmp"@[0]);
        assert("css"@[0] != "svg"@[0]);
        assert("css"@[0] != "ico"@[0]);
        assert("css"@[0] != "mp3"@[0]);
        assert("css"@[0] != "wav"@[0]);
        assert("css"@[0] != "ogg"@[0]);
        assert("css"@[0] != "m4a"@[0]);
        assert("css"@[0] != "aac"@[0]);
        assert("css"@[0] != "mp4"@[0]);
        assert("css"@[0] != "avi"@[0]);
        assert("css"@[0] != "mkv"@[0]);
        assert("css"@[0] != "mov"@[0]);
        assert("css"@[0] != "wmv"@[0]);
        assert("css"@[0] != "zip"@[0]);
        assert("css"@[0] != "rar"@[0]);
        assert("css"@[0] != "tar"@[0]);
        assert("css"@[0] != "bz2"@[0]);
    }
    {
        assert("json"@[0] != "docx"@[0]);
        assert("json"@[0] != "xlsx"@[0]);
        assert("json"@[0] != "pptx"@[0]);
        assert("json"@[1] != "jpeg"@[1]);
        assert("json"@[0] != "webp"@[0]);
        assert("json"@[0] != "flac"@[0]);
        assert("json"@[0] != "webm"@[0]);
    }
    {
        assert("xml"@[0] != "exe"@[0]);
        assert("xml"@[0] != "msi"@[0]);
        assert("xml"@[0] != "lnk"@[0]);
        assert("xml"@[0] != "url"@[0]);
        assert("xml"@[0] != "txt"@[0]);
        assert("xml"@[0] != "log"@[0]);
        assert("xml"@[0] != "ini"@[0]);
        assert("xml"@[0] != "cfg"@[0]);
        assert("xml"@[0] != "pdf"@[0]);
        assert("xml"@[0] != "doc"@[0]);
        assert("xml"@[1] != "xls"@[1]);
        assert("xml"@[0] != "ppt"@[0]);
        assert("xml"@[0] != "jpg"@[0]);
        assert("xml"@[0] != "png"@[0]);
        assert("xml"@[0] != "gif"@[0]);
        assert("xml"@[0] != "bmp"@[0]);
        assert("xml"@[0] != "svg"@[0]);
        assert("xml"@[0] != "ico"@[0]);
        assert("xml"@[0] != "mp3"@[0]);
        assert("xml"@[0] != "wav"@[0]);
        assert("xml"@[0] != "ogg"@[0]);
        assert("xml"@[0] != "m4a"@[0]);
        assert("xml"@[0] != "aac"@[0]);
        assert("xml"@[0] != "mp4"@[0]);
        assert("xml"@[0] != "avi"@[0]);
        assert("xml"@[0] != "mkv"@[0]);
        assert("xml"@[0] != "mov"@[0]);
        assert("xml"@[0] != "wmv"@[0]);
        assert("xml"@[0] != "zip"@[0]);
        assert("xml"@[0] != "rar"@[0]);
        assert("xml"@[0] != "tar"@[0]);
        assert("xml"@[0] != "bz2"@[0]);
    }
    {
        assert("yaml"@[0] != "docx"@[0]);
        assert("yaml"@[0] != "xlsx"@[0]);
        assert("yaml"@[0] != "pptx"@[0]);
        assert("yaml"@[0] != "jpeg"@[0]);
        assert("yaml"@[0] != "webp"@[0]);
        assert("yaml"@[0] != "flac"@[0]);
        assert("yaml"@[0] != "webm"@[0]);
    }
    {
        assert("toml"@[0] != "docx"@[0]);
        assert("toml"@[0] != "xlsx"@[0]);
        assert("toml"@[0] != "pptx"@[0]);
        assert("toml"@[0] != "jpeg"@[0]);
        assert("toml"@[0] != "webp"@[0]);
        assert("toml"@[0] != "flac"@[0]);
        assert("toml"@[0] != "webm"@[0]);
    }
}

/// Files with the extensions `dll`, `sys`, `so`, `dylib`, `lib`, `a`, `pdb`, `bin`, `dat`, `db`, `sqlite` are of kind system.
pub proof fn law_system_extensions()
    ensures
        kind_for_ext("dll"@) == KIND_SYSTEM,
        kind_for_ext("sys"@) == KIND_SYSTEM,
        kind_for_ext("so"@) == KIND_SYSTEM,
        kind_for_ext("dylib"@) == KIND_SYSTEM,
        kind_for_ext("lib"@) == KIND_SYSTEM,
        kind_for_ext("a"@) == KIND_SYSTEM,
        kind_for_ext("pdb"@) == KIND_SYSTEM,
        kind_for_ext("bin"@) == KIND_SYSTEM,
        kind_for_ext("dat"@) == KIND_SYSTEM,
        kind_for_ext("db"@) == KIND_SYSTEM,
        kind_for_ext("sqlite"@) == KIND_SYSTEM,
        kind_for_ext(Seq::<char>::empty()) == KIND_SYSTEM,
{
    reveal_strlit("exe");
    assert("exe"@.len() == 3);
    reveal_strlit("msi");
    assert("msi"@.len() == 3);
    reveal_strlit("lnk");
    assert("lnk"@.len() == 3);
    reveal_strlit("url");
    assert("url"@.len() == 3);
    reveal_strlit("txt");
    assert("txt"@.len() == 3);
    reveal_strlit("log");
    assert("log"@.len() == 3);
    reveal_strlit("md");
    assert("md"@.len() == 2);
    reveal_strlit("ini");
    assert("ini"@.len() == 3);
    reveal_strlit("cfg");
    assert("cfg"@.len() == 3);
    reveal_strlit("pdf");
    assert("pdf"@.len() == 3);
    reveal_strlit("doc");
    assert("doc"@.len() == 3);
    reveal_strlit("docx");
    assert("docx"@.len() == 4);
    reveal_strlit("xls");
    assert("xls"@.len() == 3);
    reveal_strlit("xlsx");
    assert("xlsx"@.len() == 4);
    reveal_strlit("ppt");
    assert("ppt"@.len() == 3);
    reveal_strlit("pptx");
    assert("pptx"@.len() == 4);
    reveal_strlit("jpg");
    assert("jpg"@.len() == 3);
    reveal_strlit("jpeg");
    assert("jpeg"@.len() == 4);
    reveal_strlit("png");
    assert("png"@.len() == 3);
    reveal_strlit("gif");
    assert("gif"@.len() == 3);
    reveal_strlit("bmp");
    assert("bmp"@.len() == 3);
    reveal_strlit("webp");
    assert("webp"@.len() == 4);
    reveal_strlit("svg");
    assert("svg"@.len() == 3);
    reveal_strlit("ico");
    assert("ico"@.len() == 3);
    reveal_strlit("mp3");
    assert("mp3"@.len() == 3);
    reveal_strlit("wav");
    assert("wav"@.len() == 3);
    reveal_strlit("flac");
    assert("flac"@.len() == 4);
    reveal_strlit("ogg");
    assert("ogg"@.len() == 3);
    reveal_strlit("m4a");
    assert("m4a"@.len() == 3);
    reveal_strlit("aac");
    assert("aac"@.len() == 3);
    reveal_strlit("mp4");
    assert("mp4"@.len() == 3);
    reveal_strlit("avi");
    assert("avi"@.len() == 3);
    reveal_strlit("mkv");
    assert("mkv"@.len() == 3);
    reveal_strlit("mov");
    assert("mov"@.len() == 3);
    reveal_strlit("wmv");
    assert("wmv"@.len() == 3);
    reveal_strlit("webm");
    assert("webm"@.len() == 4);
    reveal_strlit("zip");
    assert("zip"@.len() == 3);
    reveal_strlit("rar");
    assert("rar"@.len() == 3);
    reveal_strlit("7z");
    assert("7z"@.len() == 2);
    reveal_strlit("tar");
    assert("tar"@.len() == 3);
    reveal_strlit("gz");
    assert("gz"@.len() == 2);
    reveal_strlit("bz2");
    assert("bz2"@.len() == 3);
    reveal_strlit("js");
    assert("js"@.len() == 2);
    reveal_strlit("ts");
    assert("ts"@.len() == 2);
    reveal_strlit("py");
    assert("py"@.len() == 2);
    reveal_strlit("rs");
    assert("rs"@.len() == 2);
    reveal_strlit("c");
    assert("c"@.len() == 1);
    reveal_strlit("cpp");
    assert("cpp"@.len() == 3);
    reveal_strlit("h");
    assert("h"@.len() == 1);
    reveal_strlit("java");
    assert("java"@.len() == 4);
    reveal_strlit("go");
    assert("go"@.len() == 2);
    reveal_strlit("html");
    assert("html"@.len() == 4);
    reveal_strlit("css");
    assert("css"@.len() == 3);
    reveal_strlit("json");
    assert("json"@.len() == 4);
    reveal_strlit("xml");
    assert("xml"@.len() == 3);
    reveal_strlit("yaml");
    assert("yaml"@.len() == 4);
    reveal_strlit("toml");
    assert("toml"@.len() == 4);
    reveal_strlit("dll");
    assert("dll"@.len() == 3);
    reveal_strlit("sys");
    assert("sys"@.len() == 3);
    reveal_strlit("so");
    assert("so"@.len() == 2);
    reveal_strlit("dylib");
    assert("dylib"@.len() == 5);
    reveal_strlit("lib");
    assert("lib"@.len() == 3);
    reveal_strlit("a");
    assert("a"@.len() == 1);
    reveal_strlit("pdb");
    assert("pdb"@.len() == 3);
    reveal_strlit("bin");
    assert("bin"@.len() == 3);
    reveal_strlit("dat");
    assert("dat"@.len() == 3);
    reveal_strlit("db");
    assert("db"@.len() == 2);
    reveal_strlit("sqlite");
    assert("sqlite"@.len() == 6);
    {
        assert("dll"@[0] != "exe"@[0]);
        assert("dll"@[0] != "msi"@[0]);
        assert("dll"@[0] != "lnk"@[0]);
        assert("dll"@[0] != "url"@[0]);
        assert("dll"@[0] != "txt"@[0]);
        assert("dll"@[0] != "log"@[0]);
        assert("dll"@[0] != "ini"@[0]);
        assert("dll"@[0] != "cfg"@[0]);
        assert("dll"@[0] != "pdf"@[0]);
        assert("dll"@[1] != "doc"@[1]);
        assert("dll"@[0] != "xls"@[0]);
        assert("dll"@[0] != "ppt"@[0]);
        assert("dll"@[0] != "jpg"@[0]);
        assert("dll"@[0] != "png"@[0]);
        assert("dll"@[0] != "gif"@[0]);
        assert("dll"@[0] != "bmp"@[0]);
        assert("dll"@[0] != "svg"@[0]);
        assert("dll"@[0] != "ico"@[0]);
        assert("dll"@[0] != "mp3"@[0]);
        assert("dll"@[0] != "wav"@[0]);
        assert("dll"@[0] != "ogg"@[0]);
        assert("dll"@[0] != "m4a"@[0]);
        assert("dll"@[0] != "aac"@[0]);
        assert("dll"@[0] != "mp4"@[0]);
        assert("dll"@[0] != "avi"@[0]);
        assert("dll"@[0] != "mkv"@[0]);
        assert("dll"@[0] != "mov"@[0]);
        assert("dll"@[0] != "wmv"@[0]);
        assert("dll"@[0] != "zip"@[0]);
        assert("dll"@[0] != "rar"@[0]);
        assert("dll"@[0] != "tar"@[0]);
        assert("dll"@[0] != "bz2"@[0]);
        assert("dll"@[0] != "cpp"@[0]);
        assert("dll"@[0] != "css"@[0]);
        assert("dll"@[0] != "xml"@[0]);
    }
    {
        assert("sys"@[0] != "exe"@[0]);
        assert("sys"@[0] != "msi"@[0]);
        assert("sys"@[0] != "lnk"@[0]);
        assert("sys"@[0] != "url"@[0]);
        assert("sys"@[0] != "txt"@[0]);
        assert("sys"@[0] != "log"@[0]);
        assert("sys"@[0] != "ini"@[0]);
        assert("sys"@[0] != "cfg"@[0]);
        assert("sys"@[0] != "pdf"@[0]);
        assert("sys"@[0] != "doc"@[0]);
        assert("sys"@[0] != "xls"@[0]);
        assert("sys"@[0] != "ppt"@[0]);
        assert("sys"@[0] != "jpg"@[0]);
        assert("sys"@[0] != "png"@[0]);
        assert("sys"@[0] != "gif"@[0]);
        assert("sys"@[0] != "bmp"@[0]);
        assert("sys"@[1] != "svg"@[1]);
        assert("sys"@[0] != "ico"@[0]);
        assert("sys"@[0] != "mp3"@[0]);
        assert("sys"@[0] != "wav"@[0]);
        assert("sys"@[0] != "ogg"@[0]);
        assert("sys"@[0] != "m4a"@[0]);
        assert("sys"@[0] != "aac"@[0]);
        assert("sys"@[0] != "mp4"@[0]);
        assert("sys"@[0] != "avi"@[0]);
        assert("sys"@[0] != "mkv"@[0]);
        assert("sys"@[0] != "mov"@[0]);
        assert("sys"@[0] != "wmv"@[0]);
        assert("sys"@[0] != "zip"@[0]);
        assert("sys"@[0] != "rar"@[0]);
        assert("sys"@[0] != "tar"@[0]);
        assert("sys"@[0] != "bz2"@[0]);
        assert("sys"@[0] != "cpp"@[0]);
        assert("sys"@[0] != "css"@[0]);
        assert("sys"@[0] != "xml"@[0]);
    }
    {
        assert("so"@[0] != "md"@[0]);
        assert("so"@[0] != "7z"@[0]);
        assert("so"@[0] != "gz"@[0]);
        assert("so"@[0] != "js"@[0]);
        assert("so"@[0] != "ts"@[0]);
        assert("so"@[0] != "py"@[0]);
        assert("so"@[0] != "rs"@[0]);
        assert("so"@[0] != "go"@[0]);
    }
    {
        assert("lib"@[0] != "exe"@[0]);
        assert("lib"@[0] != "msi"@[0]);
        assert("lib"@[1] != "lnk"@[1]);
        assert("lib"@[0] != "url"@[0]);
        assert("lib"@[0] != "txt"@[0]);
        assert("lib"@[1] != "log"@[1]);
        assert("lib"@[0] != "ini"@[0]);
        assert("lib"@[0] != "cfg"@[0]);
        assert("lib"@[0] != "pdf"@[0]);
        assert("lib"@[0] != "doc"@[0]);
        assert("lib"@[0] != "xls"@[0]);
        assert("lib"@[0] != "ppt"@[0]);
        assert("lib"@[0] != "jpg"@[0]);
        assert("lib"@[0] != "png"@[0]);
        assert("lib"@[0] != "gif"@[0]);
        assert("lib"@[0] != "bmp"@[0]);
        assert("lib"@[0] != "svg"@[0]);
        assert("lib"@[0] != "ico"@[0]);
        assert("lib"@[0] != "mp3"@[0]);
        assert("lib"@[0] != "wav"@[0]);
        assert("lib"@[0] != "ogg"@[0]);
        assert("lib"@[0] != "m4a"@[0]);
        assert("lib"@[0] != "aac"@[0]);
        assert("lib"@[0] != "mp4"@[0]);
        assert("lib"@[0] != "avi"@[0]);
        assert("lib"@[0] != "mkv"@[0]);
        assert("lib"@[0] != "mov"@[0]);
        assert("lib"@[0] != "wmv"@[0]);
        assert("lib"@[0] != "zip"@[0]);
        assert("lib"@[0] != "rar"@[0]);
        assert("lib"@[0] != "tar"@[0]);
        assert("lib"@[0] != "bz2"@[0]);
        assert("lib"@[0] != "cpp"@[0]);
        assert("lib"@[0] != "css"@[0]);
        assert("lib"@[0] != "xml"@[0]);
    }
    {
        assert("a"@[0] != "c"@[0]);
        assert("a"@[0] != "h"@[0]);
    }
    {
        assert("pdb"@[0] != "exe"@[0]);
        assert("pdb"@[0] != "msi"@[0]);
        assert("pdb"@[0] != "lnk"@[0]);
        assert("pdb"@[0] != "url"@[0]);
        assert("pdb"@[0] != "txt"@[0]);
        assert("pdb"@[0] != "log"@[0]);
        assert("pdb"@[0] != "ini"@[0]);
        assert("pdb"@[0] != "cfg"@[0]);
        assert("pdb"@[2] != "pdf"@[2]);
        assert("pdb"@[0] != "doc"@[0]);
        assert("pdb"@[0] != "xls"@[0]);
        assert("pdb"@[1] != "ppt"@[1]);
        assert("pdb"@[0] != "jpg"@[0]);
        assert("pdb"@[1] != "png"@[1]);
        assert("pdb"@[0] != "gif"@[0]);
        assert("pdb"@[0] != "bmp"@[0]);
        assert("pdb"@[0] != "svg"@[0]);
        assert("pdb"@[0] != "ico"@[0]);
        assert("pdb"@[0] != "mp3"@[0]);
        assert("pdb"@[0] != "wav"@[0]);
        assert("pdb"@[0] != "ogg"@[0]);
        assert("pdb"@[0] != "m4a"@[0]);
        assert("pdb"@[0] != "aac"@[0]);
        assert("pdb"@[0] != "mp4"@[0]);
        assert("pdb"@[0] != "avi"@[0]);
        assert("pdb"@[0] != "mkv"@[0]);
        assert("pdb"@[0] != "mov"@[0]);
        assert("pdb"@[0] != "wmv"@[0]);
        assert("pdb"@[0] != "zip"@[0]);
        assert("pdb"@[0] != "rar"@[0]);
        assert("pdb"@[0] != "tar"@[0]);
        assert("pdb"@[0] != "bz2"@[0]);
        assert("pdb"@[0] != "cpp"@[0]);
        assert("pdb"@[0] != "css"@[0]);
        assert("pdb"@[0] != "xml"@[0]);
    }
    {
        assert("bin"@[0] != "exe"@[0]);
        assert("bin"@[0] != "msi"@[0]);
        assert("bin"@[0] != "lnk"@[0]);
        assert("bin"@[0] != "url"@[0]);
        assert("bin"@[0] != "txt"@[0]);
        assert("bin"@[0] != "log"@[0]);
        assert("bin"@[0] != "ini"@[0]);
        assert("bin"@[0] != "cfg"@[0]);
        assert("bin"@[0] != "pdf"@[0]);
        assert("bin"@[0] != "doc"@[0]);
        assert("bin"@[0] != "xls"@[0]);
        assert("bin"@[0] != "ppt"@[0]);
        assert("bin"@[0] != "jpg"@[0]);
        assert("bin"@[0] != "png"@[0]);
        assert("bin"@[0] != "gif"@[0]);
        assert("bin"@[1] != "bmp"@[1]);
        assert("bin"@[0] != "svg"@[0]);
        assert("bin"@[0] != "ico"@[0]);
        assert("bin"@[0] != "mp3"@[0]);
        assert("bin"@[0] != "wav"@[0]);
        assert("bin"@[0] != "ogg"@[0]);
        assert("bin"@[0] != "m4a"@[0]);
        assert("bin"@[0] != "aac"@[0]);
        assert("bin"@[0] != "mp4"@[0]);
        assert("bin"@[0] != "avi"@[0]);
        assert("bin"@[0] != "mkv"@[0]);
        assert("bin"@[0] != "mov"@[0]);
        assert("bin"@[0] != "wmv"@[0]);
        assert("bin"@[0] != "zip"@[0]);
        assert("bin"@[0] != "rar"@[0]);
        assert("bin"@[0] != "tar"@[0]);
        assert("bin"@[1] != "bz2"@[1]);
        assert("bin"@[0] != "cpp"@[0]);
        assert("bin"@[0] != "css"@[0]);
        assert("bin"@[0] != "xml"@[0]);
    }
    {
        assert("dat"@[0] != "exe"@[0]);
        assert("dat"@[0] != "msi"@[0]);
        assert("dat"@[0] != "lnk"@[0]);
        assert("dat"@[0] != "url"@[0]);
        assert("dat"@[0] != "txt"@[0]);
        assert("dat"@[0] != "log"@[0]);
        assert("dat"@[0] != "ini"@[0]);
        assert("dat"@[0] != "cfg"@[0]);
        assert("dat"@[0] != "pdf"@[0]);
        assert("dat"@[1] != "doc"@[1]);
        assert("dat"@[0] != "xls"@[0]);
        assert("dat"@[0] != "ppt"@[0]);
        assert("dat"@[0] != "jpg"@[0]);
        assert("dat"@[0] != "png"@[0]);
        assert("dat"@[0] != "gif"@[0]);
        assert("dat"@[0] != "bmp"@[0]);
        assert("dat"@[0] != "svg"@[0]);
        assert("dat"@[0] != "ico"@[0]);
        assert("dat"@[0] != "mp3"@[0]);
        assert("dat"@[0] != "wav"@[0]);
        assert("dat"@[0] != "ogg"@[0]);
        assert("dat"@[0] != "m4a"@[0]);
        assert("dat"@[0] != "aac"@[0]);
        assert("dat"@[0] != "mp4"@[0]);
        assert("dat"@[0] != "avi"@[0]);
        assert("dat"@[0] != "mkv"@[0]);
        assert("dat"@[0] != "mov"@[0]);
        assert("dat"@[0] != "wmv"@[0]);
        assert("dat"@[0] != "zip"@[0]);
        assert("dat"@[0] != "rar"@[0]);
        assert("dat"@[0] != "tar"@[0]);
        assert("dat"@[0] != "bz2"@[0]);
        assert("dat"@[0] != "cpp"@[0]);
        assert("dat"@[0] != "css"@[0]);
        assert("dat"@[0] != "xml"@[0]);
    }
    {
        assert("db"@[0] != "md"@[0]);
        assert("db"@[0] != "7z"@[0]);
        assert("db"@[0] != "gz"@[0]);
        assert("db"@[0] != "js"@[0]);
        assert("db"@[0] != "ts"@[0]);
        assert("db"@[0] != "py"@[0]);
        assert("db"@[0] != "rs"@[0]);
        assert("db"@[0] != "go"@[0]);
    }
}

} // verus!
