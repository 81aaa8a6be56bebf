//! Building the index: which files become entries and under what name, which
//! folders and drives are walked, how registry values are turned into
//! program paths, and how a fresh scan is merged into the index.
//!
//! Walking folders, reading the registry and the environment, and asking
//! whether a path exists are done by the caller; their answers are handed in.
use vstd::prelude::*;
use vstd::hash_set::StringHashSet;

use crate::index::{
    derive_display_name, display_name_of, display_spec, extension_lower, extension_of,
    extension_spec, file_name_of, file_name_or_empty, kind_for_ext, kind_from_file, lower_ext,
    KIND_APP, KIND_SHORTCUT, SearchEntry,
};
use crate::text::{
    chars_contains, chars_eq, chars_of, chars_starts_with, copy_string, occurs_at, seq_contains,
    seq_starts_with, str_eq, str_to_lowercase, str_to_uppercase, str_trim, string_of, texts,
    to_lowercase, to_uppercase, trim,
};

verus! {

// ---------------------------------------------------------------------------
// Entries for files found while walking
// ---------------------------------------------------------------------------
/// Whether a Start Menu file is a shortcut: its extension, lowercased, is
/// `lnk` or `url`.
pub open spec fn is_shortcut_file(file_name: Seq<char>) -> bool {
    lower_ext(extension_spec(file_name)) == "lnk"@ || lower_ext(extension_spec(file_name))
        == "url"@
}

/// The entry for a Start Menu file found at `path`: only shortcuts get one,
/// named by the file name without its extension, as an application.
pub fn start_menu_entry(file_name: &str, path: String) -> (r: Option<SearchEntry>)
    ensures
        match r {
            Some(e) => is_shortcut_file(file_name@) && e.name_lower@ == str_to_lowercase(
                display_spec(file_name@, KIND_APP),
            ) && e.path@ == path@ && e.kind == KIND_APP,
            None => !is_shortcut_file(file_name@),
        },
{
    let ext = extension_lower(file_name);
    if !str_eq(ext.as_str(), "lnk") && !str_eq(ext.as_str(), "url") {
        return None;
    }
    let f = chars_of(file_name);
    let display = display_name_of(f.as_slice(), KIND_APP);
    Some(SearchEntry { name_lower: to_lowercase(display.as_str()), path, kind: KIND_APP })
}

/// The entry for a file or folder met while walking a drive: classified by
/// its file name, named as `derive_display_name` names it, in lowercase.
pub fn file_entry(file_name: &str, path: String, is_dir: bool) -> (r: SearchEntry)
    ensures
        r.kind == (if is_dir {
            crate::index::KIND_FOLDER
        } else {
            kind_for_ext(lower_ext(extension_spec(file_name@)))
        }),
        r.name_lower@ == str_to_lowercase(display_spec(file_name_or_empty(path@), r.kind)),
        r.path@ == path@,
{
    let kind = kind_from_file(file_name, is_dir);
    let display = derive_display_name(path.as_str(), kind);
    SearchEntry { name_lower: to_lowercase(display.as_str()), path, kind }
}

/// The entry for a program found at `path`: an application named by its
/// file name without the extension, in lowercase.
pub fn exe_entry(path: String) -> (r: SearchEntry)
    ensures
        r.kind == KIND_APP,
        r.name_lower@ == str_to_lowercase(display_spec(file_name_or_empty(path@), KIND_APP)),
        r.path@ == path@,
{
    let display = derive_display_name(path.as_str(), KIND_APP);
    SearchEntry { name_lower: to_lowercase(display.as_str()), path, kind: KIND_APP }
}

/// Whether a file name's extension is `exe` in any ASCII case.
pub open spec fn exe_extension(file_name: Seq<char>) -> bool {
    match extension_spec(file_name) {
        Some(e) => e.len() == 3 && (e[0] == 'e' || e[0] == 'E') && (e[1] == 'x' || e[1] == 'X')
            && (e[2] == 'e' || e[2] == 'E'),
        None => false,
    }
}

/// Whether a file name's extension is `exe`, ignoring ASCII case.
pub fn has_exe_extension(file_name: &str) -> (r: bool)
    ensures
        r == exe_extension(file_name@),
{
    let f = chars_of(file_name);
    match extension_of(f.as_slice()) {
        Some(e) => e.len() == 3 && (e[0] == 'e' || e[0] == 'E') && (e[1] == 'x' || e[1] == 'X')
            && (e[2] == 'e' || e[2] == 'E'),
        None => false,
    }
}

// ---------------------------------------------------------------------------
// Drives and program folders
// ---------------------------------------------------------------------------
/// Whether `dir` lies on one of the turned-off drives: in uppercase, it
/// starts with one of them in uppercase.
pub open spec fn under_disabled_drive(dir: Seq<char>, disabled: Seq<Seq<char>>) -> bool {
    exists|i: int|
        0 <= i < disabled.len() && seq_starts_with(
            str_to_uppercase(dir),
            str_to_uppercase(#[trigger] disabled[i]),
        )
}

/// Whether `dir` lies on a turned-off drive (see `under_disabled_drive`).
pub fn on_disabled_drive(dir: &str, disabled: &Vec<String>) -> (r: bool)
    ensures
        r == under_disabled_drive(dir@, texts(disabled@)),
{
    let d = to_uppercase(dir);
    let dc = chars_of(d.as_str());
    let mut i: usize = 0;
    while i < disabled.len()
        invariant
            i <= disabled@.len(),
            dc@ == str_to_uppercase(dir@),
            forall|k: int|
                0 <= k < i ==> !seq_starts_with(
                    str_to_uppercase(dir@),
                    str_to_uppercase(#[trigger] texts(disabled@)[k]),
                ),
        decreases disabled@.len() - i,
    {
        let u = to_uppercase(disabled[i].as_str());
        let uc = chars_of(u.as_str());
        proof {
            assert(texts(disabled@)[i as int] == disabled@[i as int]@);
        }
        if chars_starts_with(dc.as_slice(), uc.as_slice()) {
            return true;
        }
        i = i + 1;
    }
    false
}

/// Whether `drive` is one of the turned-off drives, compared in uppercase.
pub open spec fn drive_disabled(drive: Seq<char>, disabled: Seq<Seq<char>>) -> bool {
    exists|i: int|
        0 <= i < disabled.len() && str_to_uppercase(drive) == str_to_uppercase(
            #[trigger] disabled[i],
        )
}

/// Whether `drive` is walked (it is not turned off).
pub fn drive_enabled(drive: &str, disabled: &Vec<String>) -> (r: bool)
    ensures
        r == !drive_disabled(drive@, texts(disabled@)),
{
    let d = to_uppercase(drive);
    let dc = chars_of(d.as_str());
    let mut i: usize = 0;
    while i < disabled.len()
        invariant
            i <= disabled@.len(),
            dc@ == str_to_uppercase(drive@),
            forall|k: int|
                0 <= k < i ==> str_to_uppercase(drive@) != str_to_uppercase(
                    #[trigger] texts(disabled@)[k],
                ),
        decreases disabled@.len() - i,
    {
        let u = to_uppercase(disabled[i].as_str());
        let uc = chars_of(u.as_str());
        proof {
            assert(texts(disabled@)[i as int] == disabled@[i as int]@);
        }
        if chars_eq(dc.as_slice(), uc.as_slice()) {
            return false;
        }
        i = i + 1;
    }
    true
}

/// The drives of `drives` that are not turned off, in order.
pub open spec fn enabled_drives_spec(drives: Seq<Seq<char>>, disabled: Seq<Seq<char>>) -> Seq<
    Seq<char>,
> {
    drives.filter(|d: Seq<char>| !drive_disabled(d, disabled))
}

/// The drives that are walked, in order.
pub fn enabled_drives(drives: &Vec<String>, disabled: &Vec<String>) -> (r: Vec<String>)
    ensures
        texts(r@) == enabled_drives_spec(texts(drives@), texts(disabled@)),
{
    let ghost ds = texts(drives@);
    let ghost dis = texts(disabled@);
    let mut r: Vec<String> = Vec::new();
    let mut i: usize = 0;
    while i < drives.len()
        invariant
            i <= drives@.len(),
            ds == texts(drives@),
            dis == texts(disabled@),
            texts(r@) == ds.take(i as int).filter(|d: Seq<char>| !drive_disabled(d, dis)),
        decreases drives@.len() - i,
    {
        proof {
            assert(ds.take(i + 1).drop_last() =~= ds.take(i as int));
            assert(ds[i as int] == drives@[i as int]@);
        }
        if drive_enabled(drives[i].as_str(), disabled) {
            let ghost r0 = r@;
            r.push(copy_string(&drives[i]));
            proof {
                assert(texts(r@) =~= texts(r0).push(ds[i as int]));
            }
        }
        proof {
            assert(ds.take(i + 1).last() == ds[i as int]);
            reveal(Seq::filter);
        }
        i = i + 1;
    }
    proof {
        assert(ds.take(i as int) =~= ds);
    }
    r
}

/// Whether the text at position `i` of `keys` appeared before it.
pub open spec fn seen_before(keys: Seq<Seq<char>>, i: int) -> bool {
    keys.take(i).contains(keys[i])
}

/// The positions of `keys` below `n` whose text appears there first.
pub open spec fn first_positions(keys: Seq<Seq<char>>, n: int) -> Seq<int>
    decreases n,
{
    if n <= 0 {
        Seq::empty()
    } else if seen_before(keys, n - 1) {
        first_positions(keys, n - 1)
    } else {
        first_positions(keys, n - 1).push(n - 1)
    }
}

/// The program folders without repeats: a folder whose path, lowercased,
/// was listed before is dropped; the walk depth stays with each folder.
pub fn unique_dirs(dirs: &Vec<(String, Option<usize>)>) -> (r: Vec<(String, Option<usize>)>)
    ensures
        r@.len() == first_positions(
            dirs@.map_values(|d: (String, Option<usize>)| str_to_lowercase(d.0@)),
            dirs@.len() as int,
        ).len(),
        forall|k: int|
            0 <= k < r@.len() ==> {
                let at = first_positions(
                    dirs@.map_values(|d: (String, Option<usize>)| str_to_lowercase(d.0@)),
                    dirs@.len() as int,
                )[k];
                (#[trigger] r@[k]).0@ == dirs@[at].0@ && r@[k].1 == dirs@[at].1
            },
{
    let ghost keys = dirs@.map_values(|d: (String, Option<usize>)| str_to_lowercase(d.0@));
    let mut seen: Vec<String> = Vec::new();
    let mut r: Vec<(String, Option<usize>)> = Vec::new();
    let mut i: usize = 0;
    while i < dirs.len()
        invariant
            i <= dirs@.len(),
            keys == dirs@.map_values(|d: (String, Option<usize>)| str_to_lowercase(d.0@)),
            texts(seen@) == keys.take(i as int),
            r@.len() == first_positions(keys, i as int).len(),
            forall|k: int|
                0 <= k < r@.len() ==> {
                    let at = first_positions(keys, i as int)[k];
                    (#[trigger] r@[k]).0@ == dirs@[at].0@ && r@[k].1 == dirs@[at].1
                },
            forall|k: int|
                0 <= k < first_positions(keys, i as int).len() ==> 0 <= #[trigger] first_positions(
                    keys,
                    i as int,
                )[k] < i,
        decreases dirs@.len() - i,
    {
        let key = to_lowercase(dirs[i].0.as_str());
        proof {
            assert(keys[i as int] == key@);
            assert(keys.take(i + 1).drop_last() =~= keys.take(i as int));
        }
        let mut found = false;
        let mut j: usize = 0;
        while j < seen.len()
            invariant
                j <= seen@.len(),
                found == exists|m: int| 0 <= m < j && #[trigger] texts(seen@)[m] == key@,
            decreases seen@.len() - j,
        {
            if str_eq(seen[j].as_str(), key.as_str()) {
                proof {
                    assert(texts(seen@)[j as int] == key@);
                }
                found = true;
            }
            j = j + 1;
        }
        proof {
            assert(found == keys.take(i as int).contains(key@)) by {
                if found {
                    let m = choose|m: int| 0 <= m < seen@.len() && #[trigger] texts(seen@)[m] == key@;
                    assert(keys.take(i as int)[m] == key@);
                }
                if keys.take(i as int).contains(key@) {
                    let m = choose|m: int| 0 <= m < i && keys.take(i as int)[m] == key@;
                    assert(texts(seen@)[m] == key@);
                }
            }
            assert(seen_before(keys, i as int) == found);
        }
        let ghost s0 = seen@;
        if !found {
            let ghost r0 = r@;
            r.push((copy_string(&dirs[i].0), dirs[i].1));
            proof {
                assert forall|k: int| 0 <= k < r@.len() implies {
                    let at = first_positions(keys, i + 1)[k];
                    (#[trigger] r@[k]).0@ == dirs@[at].0@ && r@[k].1 == dirs@[at].1
                } by {
                    if k < r0.len() {
                        assert(r@[k] == r0[k]);
                        assert(first_positions(keys, i + 1)[k] == first_positions(keys, i as int)[k]);
                    }
                }
            }
        }
        seen.push(key);
        proof {
            assert(texts(seen@) =~= texts(s0).push(keys[i as int]));
            assert(keys.take(i + 1) =~= keys.take(i as int).push(keys[i as int]));
        }
        i = i + 1;
    }
    proof {
        assert(keys.len() == dirs@.len());
    }
    r
}


// ---------------------------------------------------------------------------
// Searching in texts
// ---------------------------------------------------------------------------
/// The first position at or after `i` where `c` stands.
pub open spec fn find_char(v: Seq<char>, c: char, i: int) -> Option<int>
    decreases v.len() - i,
{
    if i < 0 || i >= v.len() {
        None
    } else if v[i] == c {
        Some(i)
    } else {
        find_char(v, c, i + 1)
    }
}

/// The first position at or after `i` where `needle` occurs.
pub open spec fn find_sub(v: Seq<char>, needle: Seq<char>, i: int) -> Option<int>
    decreases v.len() + 1 - i,
{
    if i < 0 || i + needle.len() > v.len() {
        None
    } else if occurs_at(v, needle, i) {
        Some(i)
    } else {
        find_sub(v, needle, i + 1)
    }
}

/// The last position where `c` stands.
pub open spec fn rfind_char(v: Seq<char>, c: char) -> Option<int>
    decreases v.len(),
{
    if v.len() == 0 {
        None
    } else if v.last() == c {
        Some(v.len() - 1)
    } else {
        rfind_char(v.drop_last(), c)
    }
}

proof fn lemma_find_char(v: Seq<char>, c: char, i: int)
    ensures
        match find_char(v, c, i) {
            Some(j) => i <= j < v.len() && 0 <= j && v[j] == c && forall|k: int|
                i <= k < j ==> #[trigger] v[k] != c,
            None => forall|k: int| 0 <= i <= k < v.len() ==> #[trigger] v[k] != c,
        },
    decreases v.len() - i,
{
    if 0 <= i < v.len() && v[i] != c {
        lemma_find_char(v, c, i + 1);
    }
}

proof fn lemma_rfind_char(v: Seq<char>, c: char)
    ensures
        match rfind_char(v, c) {
            Some(j) => 0 <= j < v.len() && v[j] == c,
            None => true,
        },
    decreases v.len(),
{
    if v.len() > 0 && v.last() != c {
        lemma_rfind_char(v.drop_last(), c);
    }
}

/// The first position at or after `from` holding `c`.
fn find_char_exec(v: &[char], c: char, from: usize) -> (r: Option<usize>)
    ensures
        r == match find_char(v@, c, from as int) {
            Some(j) => Some(j as usize),
            None => None::<usize>,
        },
{
    proof {
        lemma_find_char(v@, c, from as int);
    }
    let mut i = from;
    while i < v.len()
        invariant
            from <= i,
            find_char(v@, c, i as int) == find_char(v@, c, from as int),
        decreases v@.len() - i,
    {
        if v[i] == c {
            return Some(i);
        }
        i = i + 1;
    }
    None
}

/// The first position where `needle` occurs in `v`.
fn find_sub_exec(v: &[char], needle: &[char]) -> (r: Option<usize>)
    ensures
        r == match find_sub(v@, needle@, 0) {
            Some(j) => Some(j as usize),
            None => None::<usize>,
        },
{
    if needle.len() > v.len() {
        proof {
            assert(find_sub(v@, needle@, 0) is None);
        }
        return None;
    }
    let last = v.len() - needle.len();
    let mut i: usize = 0;
    loop
        invariant
            i <= last,
            last + needle@.len() == v@.len(),
            find_sub(v@, needle@, i as int) == find_sub(v@, needle@, 0),
        decreases last - i,
    {
        if crate::text::chars_occur_at(v, needle, i) {
            return Some(i);
        }
        if i == last {
            proof {
                assert(find_sub(v@, needle@, i + 1) is None);
            }
            return None;
        }
        i = i + 1;
    }
}

/// The last position holding `c`.
fn rfind_char_exec(v: &[char], c: char) -> (r: Option<usize>)
    ensures
        r == match rfind_char(v@, c) {
            Some(j) => Some(j as usize),
            None => None::<usize>,
        },
{
    let mut n: usize = v.len();
    proof {
        assert(v@.take(n as int) =~= v@);
    }
    while n > 0
        invariant
            n <= v@.len(),
            rfind_char(v@.take(n as int), c) == rfind_char(v@, c),
        decreases n,
    {
        proof {
            assert(v@.take(n as int).drop_last() =~= v@.take(n - 1));
            assert(v@.take(n as int).last() == v@[n - 1]);
        }
        if v[n - 1] == c {
            return Some(n - 1);
        }
        n = n - 1;
    }
    None
}

fn take_chars(v: &[char], n: usize) -> (r: Vec<char>)
    requires
        n <= v@.len(),
    ensures
        r@ == v@.take(n as int),
{
    let mut r: Vec<char> = Vec::new();
    let mut i: usize = 0;
    while i < n
        invariant
            i <= n <= v@.len(),
            r@ == v@.take(i as int),
        decreases n - i,
    {
        r.push(v[i]);
        proof {
            assert(r@ =~= v@.take(i + 1));
        }
        i = i + 1;
    }
    r
}

fn range_chars(v: &[char], from: usize, to: usize) -> (r: Vec<char>)
    requires
        from <= to <= v@.len(),
    ensures
        r@ == v@.subrange(from as int, to as int),
{
    let mut r: Vec<char> = Vec::new();
    let mut i: usize = from;
    while i < to
        invariant
            from <= i <= to <= v@.len(),
            r@ == v@.subrange(from as int, i as int),
        decreases to - i,
    {
        r.push(v[i]);
        proof {
            assert(r@ =~= v@.subrange(from as int, i + 1));
        }
        i = i + 1;
    }
    r
}

// ---------------------------------------------------------------------------
// UTF-8 lengths (byte offsets, as `str` methods count them)
// ---------------------------------------------------------------------------
/// The number of bytes of `c` in UTF-8.
pub open spec fn char_width(c: char) -> nat {
    if (c as u32) < 0x80 {
        1
    } else if (c as u32) < 0x800 {
        2
    } else if (c as u32) < 0x10000 {
        3
    } else {
        4
    }
}

/// The number of bytes of `s` in UTF-8.
pub open spec fn utf8_len(s: Seq<char>) -> nat
    decreases s.len(),
{
    if s.len() == 0 {
        0
    } else {
        utf8_len(s.drop_last()) + char_width(s.last())
    }
}

fn char_width_exec(c: char) -> (r: usize)
    ensures
        r == char_width(c),
{
    let u = c as u32;
    if u < 0x80 {
        1
    } else if u < 0x800 {
        2
    } else if u < 0x10000 {
        3
    } else {
        4
    }
}

proof fn lemma_utf8_len_mono(s: Seq<char>, a: int, b: int)
    requires
        0 <= a < b <= s.len(),
    ensures
        utf8_len(s.take(a)) < utf8_len(s.take(b)),
    decreases b - a,
{
    assert(s.take(b).drop_last() =~= s.take(b - 1));
    if a < b - 1 {
        lemma_utf8_len_mono(s, a, b - 1);
    }
}

/// The number of characters of `s` that take exactly `b` bytes, if some
/// prefix does (that is, when `b` falls on a character boundary).
pub open spec fn prefix_at_byte(s: Seq<char>, b: int) -> Option<int> {
    if exists|c: int| 0 <= c <= s.len() && utf8_len(#[trigger] s.take(c)) == b {
        Some(choose|c: int| 0 <= c <= s.len() && utf8_len(#[trigger] s.take(c)) == b)
    } else {
        None
    }
}

/// Finds the prefix of `s` that takes exactly `b` bytes (see
/// `prefix_at_byte`).
fn prefix_at_byte_exec(s: &[char], b: u128) -> (r: Option<usize>)
    ensures
        r == match prefix_at_byte(s@, b as int) {
            Some(c) => Some(c as usize),
            None => None::<usize>,
        },
{
    let mut c: usize = 0;
    let mut rem: u128 = b;
    proof {
        assert(s@.take(0) =~= Seq::<char>::empty());
    }
    while rem > 0
        invariant
            c <= s@.len(),
            utf8_len(s@.take(c as int)) + rem == b,
        decreases rem,
    {
        if c == s.len() {
            proof {
                assert forall|k: int| 0 <= k <= s@.len() implies utf8_len(#[trigger] s@.take(k))
                    != b by {
                    if k < c {
                        lemma_utf8_len_mono(s@, k, c as int);
                    }
                }
            }
            return None;
        }
        let w = char_width_exec(s[c]) as u128;
        proof {
            assert(s@.take(c + 1).drop_last() =~= s@.take(c as int));
            assert(s@.take(c + 1).last() == s@[c as int]);
        }
        if w > rem {
            proof {
                assert forall|k: int| 0 <= k <= s@.len() implies utf8_len(#[trigger] s@.take(k))
                    != b by {
                    if k < c {
                        lemma_utf8_len_mono(s@, k, c as int);
                    } else if k > c + 1 {
                        lemma_utf8_len_mono(s@, c + 1, k);
                    }
                }
            }
            return None;
        }
        rem = rem - w;
        c = c + 1;
    }
    proof {
        let w = choose|k: int| 0 <= k <= s@.len() && utf8_len(#[trigger] s@.take(k)) == b;
        if w < c {
            lemma_utf8_len_mono(s@, w, c as int);
        } else if w > c {
            lemma_utf8_len_mono(s@, c as int, w);
        }
    }
    Some(c)
}

/// Sums the UTF-8 widths of the first `n` characters.
fn utf8_len_exec(s: &[char], n: usize) -> (r: u128)
    requires
        n <= s@.len(),
    ensures
        r == utf8_len(s@.take(n as int)),
        r <= 4 * n,
{
    let mut acc: u128 = 0;
    let mut i: usize = 0;
    proof {
        assert(s@.take(0) =~= Seq::<char>::empty());
    }
    while i < n
        invariant
            i <= n <= s@.len(),
            acc == utf8_len(s@.take(i as int)),
            acc <= 4 * i,
        decreases n - i,
    {
        proof {
            assert(s@.take(i + 1).drop_last() =~= s@.take(i as int));
            assert(s@.take(i + 1).last() == s@[i as int]);
        }
        acc = acc + char_width_exec(s[i]) as u128;
        i = i + 1;
    }
    acc
}

// ---------------------------------------------------------------------------
// Program paths from registry values
// ---------------------------------------------------------------------------
/// The byte length, in the trimmed value `t`, up to the end of the first
/// extension among `.exe`, `.ico`, `.lnk` (tried in that order) found in
/// `t` lowercased; none when none is found.
pub open spec fn ext_cut(t: Seq<char>) -> Option<int> {
    let l = str_to_lowercase(t);
    match find_sub(l, ".exe"@, 0) {
        Some(m) => Some(utf8_len(l.take(m)) + 4int),
        None => match find_sub(l, ".ico"@, 0) {
            Some(m) => Some(utf8_len(l.take(m)) + 4int),
            None => match find_sub(l, ".lnk"@, 0) {
                Some(m) => Some(utf8_len(l.take(m)) + 4int),
                None => None,
            },
        },
    }
}

/// Whether a registry value can be cut where its extension ends: the cut
/// (a byte offset found in the lowercased text) falls on a character
/// boundary of the value itself.  It does unless lowercasing changed the
/// byte length of the text before the extension.
pub open spec fn registry_cut_ok(val: Seq<char>) -> bool {
    let t = str_trim(val);
    t.len() == 0 || t[0] == '"' || match ext_cut(t) {
        Some(b) => prefix_at_byte(t, b) is Some,
        None => true,
    }
}

/// The path a trimmed registry value names, before any existence check on
/// its parts: inside leading quotes; else up to the end of a known
/// extension; else, when `whole_exists` is false, up to the first space.
pub open spec fn registry_candidate(t: Seq<char>, whole_exists: bool) -> Seq<char> {
    if t[0] == '"' {
        match find_char(t, '"', 1) {
            Some(k) => t.subrange(1, k),
            None => t,
        }
    } else {
        match ext_cut(t) {
            Some(b) => match prefix_at_byte(t, b) {
                Some(c) => t.take(c),
                None => t,
            },
            None => if whole_exists {
                t
            } else {
                match find_char(t, ' ', 0) {
                    Some(k) => t.take(k),
                    None => t,
                }
            },
        }
    }
}

/// Whether the existence of the whole trimmed value is asked.
pub open spec fn asks_whole(t: Seq<char>) -> bool {
    t.len() > 0 && t[0] != '"' && ext_cut(t) is None
}

/// The program path for a registry value, given the existence answers:
/// `whole_exists` for the trimmed value (see `asks_whole`),
/// `before_exists` for the candidate up to its last comma (asked when it
/// has one) and `cand_exists` for the candidate itself.  The part before a
/// comma (an icon index follows it) is preferred when it exists.
pub open spec fn registry_path(
    val: Seq<char>,
    whole_exists: bool,
    before_exists: bool,
    cand_exists: bool,
) -> Option<Seq<char>> {
    let t = str_trim(val);
    if t.len() == 0 {
        None
    } else {
        let p = registry_candidate(t, whole_exists);
        match rfind_char(p, ',') {
            Some(k) => if before_exists {
                Some(p.take(k))
            } else if cand_exists {
                Some(p)
            } else {
                None
            },
            None => if cand_exists {
                Some(p)
            } else {
                None
            },
        }
    }
}

/// `f` may answer `answer` when asked about a text `text`.
pub open spec fn answers<F: Fn(&str) -> bool>(f: F, text: Seq<char>, answer: bool) -> bool {
    exists|s: &str| s@ == text && #[trigger] f.ensures((s,), answer)
}

fn ask<F: Fn(&str) -> bool>(path_exists: &F, text: &[char]) -> (r: bool)
    requires
        forall|s: &str| path_exists.requires((s,)),
    ensures
        answers(*path_exists, text@, r),
{
    let s = string_of(text);
    let st = s.as_str();
    let r = path_exists(st);
    proof {
        assert(path_exists.ensures((st,), r));
    }
    r
}

/// Whether `r` is the outcome of cleaning `val` for some answers of
/// `path_exists` about the texts it asks about (see `registry_path`).
pub open spec fn registry_result<F: Fn(&str) -> bool>(
    path_exists: F,
    val: Seq<char>,
    r: Option<String>,
) -> bool {
    let t = str_trim(val);
    exists|w: bool, b: bool, c: bool|
        {
            &&& (asks_whole(t) ==> answers(path_exists, t, w))
            &&& ((t.len() > 0 && rfind_char(registry_candidate(t, w), ',') is Some) ==> answers(
                path_exists,
                registry_candidate(t, w).take(rfind_char(registry_candidate(t, w), ',')->0),
                b,
            ))
            &&& ((t.len() > 0 && !(rfind_char(registry_candidate(t, w), ',') is Some && b))
                ==> answers(path_exists, registry_candidate(t, w), c))
            &&& match r {
                Some(p) => registry_path(val, w, b, c) == Some(p@),
                None => registry_path(val, w, b, c) is None,
            }
        }
}

/// A path cleaned from a registry value is one that `path_exists` said
/// exists, and a blank value gives none.
pub proof fn law_registry_path_exists<F: Fn(&str) -> bool>(
    path_exists: F,
    val: Seq<char>,
    r: Option<String>,
)
    requires
        registry_result(path_exists, val, r),
    ensures
        str_trim(val).len() == 0 ==> r is None,
        r matches Some(p) ==> answers(path_exists, p@, true),
{
    let t = str_trim(val);
    let (w, b, c) = choose|w: bool, b: bool, c: bool|
        {
            &&& (asks_whole(t) ==> answers(path_exists, t, w))
            &&& ((t.len() > 0 && rfind_char(registry_candidate(t, w), ',') is Some) ==> answers(
                path_exists,
                registry_candidate(t, w).take(rfind_char(registry_candidate(t, w), ',')->0),
                b,
            ))
            &&& ((t.len() > 0 && !(rfind_char(registry_candidate(t, w), ',') is Some && b))
                ==> answers(path_exists, registry_candidate(t, w), c))
            &&& match r {
                Some(p) => registry_path(val, w, b, c) == Some(p@),
                None => registry_path(val, w, b, c) is None,
            }
        };
}

/// The program path named by a registry value (an icon or uninstall
/// entry), as `registry_path` gives it for answers of `path_exists` about
/// the texts it asks about.
pub fn clean_registry_path<F: Fn(&str) -> bool>(val: &str, path_exists: &F) -> (r: Option<String>)
    requires
        registry_cut_ok(val@),
        forall|s: &str| path_exists.requires((s,)),
    ensures
        registry_result(*path_exists, val@, r),
{
    let tr = trim(val);
    let t = chars_of(tr);
    if t.len() == 0 {
        proof {
            assert(registry_path(val@, false, false, false) is None);
        }
        return None;
    }
    let ghost mut w: bool = false;
    let path: Vec<char>;
    if t[0] == '"' {
        match find_char_exec(t.as_slice(), '"', 1) {
            Some(k) => {
                proof {
                    lemma_find_char(t@, '"', 1);
                }
                path = range_chars(t.as_slice(), 1, k);
            },
            None => {
                path = t;
            },
        }
    } else {
        match ext_cut_exec(tr) {
            Some(b) => {
                match prefix_at_byte_exec(t.as_slice(), b) {
                    Some(c) => {
                        path = take_chars(t.as_slice(), c);
                    },
                    None => {
                        path = t;
                    },
                }
                proof {
                    assert(path@ == registry_candidate(tr@, w));
                }
            },
            None => {
                let whole = ask(path_exists, t.as_slice());
                proof {
                    w = whole;
                }
                if !whole {
                    match find_char_exec(t.as_slice(), ' ', 0) {
                        Some(k) => {
                            proof {
                                lemma_find_char(t@, ' ', 0);
                            }
                            path = take_chars(t.as_slice(), k);
                        },
                        None => {
                            path = t;
                        },
                    }
                } else {
                    path = t;
                }
                proof {
                    assert(path@ == registry_candidate(tr@, w));
                }
            },
        }
    }
    let ghost p = registry_candidate(tr@, w);
    assert(path@ == p);
    let ghost mut b: bool = false;
    match rfind_char_exec(path.as_slice(), ',') {
        Some(k) => {
            proof {
                lemma_rfind_char(path@, ',');
            }
            let before = take_chars(path.as_slice(), k);
            let ok = ask(path_exists, before.as_slice());
            proof {
                b = ok;
            }
            if ok {
                proof {
                    assert(registry_path(val@, w, b, false) == Some(before@));
                }
                return Some(string_of(before.as_slice()));
            }
        },
        None => {},
    }
    let found = ask(path_exists, path.as_slice());
    proof {
        assert(registry_path(val@, w, b, found) == (if found {
            Some(path@)
        } else {
            None
        }));
    }
    if found {
        Some(string_of(path.as_slice()))
    } else {
        None
    }
}

/// Whether `val` can be cleaned (see `registry_cut_ok`).
pub fn registry_cut_checks(val: &str) -> (r: bool)
    ensures
        r == registry_cut_ok(val@),
{
    let tr = trim(val);
    let t = chars_of(tr);
    if t.len() == 0 || t[0] == '"' {
        return true;
    }
    match ext_cut_exec(tr) {
        Some(b) => prefix_at_byte_exec(t.as_slice(), b).is_some(),
        None => true,
    }
}

/// The cut offset of a trimmed value (see `ext_cut`).
fn ext_cut_exec(tr: &str) -> (r: Option<u128>)
    ensures
        match ext_cut(tr@) {
            Some(b) => r == Some(b as u128) && 0 <= b <= u128::MAX,
            None => r is None,
        },
{
    let lower = to_lowercase(tr);
    let l = chars_of(lower.as_str());
    let exe = chars_of(".exe");
    let ico = chars_of(".ico");
    let lnk = chars_of(".lnk");
    proof {
        reveal_strlit(".exe");
        reveal_strlit(".ico");
        reveal_strlit(".lnk");
        lemma_find_sub_bound(l@, exe@);
        lemma_find_sub_bound(l@, ico@);
        lemma_find_sub_bound(l@, lnk@);
    }
    let ghost lv = str_to_lowercase(tr@);
    let ln = l.len();
    assert(l@ == lv && ln == lv.len());
    let m = match find_sub_exec(l.as_slice(), exe.as_slice()) {
        Some(m) => {
            assert(find_sub(lv, ".exe"@, 0) == Some(m as int));
            Some(m)
        },
        None => {
            assert(find_sub(lv, ".exe"@, 0) is None);
            match find_sub_exec(l.as_slice(), ico.as_slice()) {
                Some(m) => {
                    assert(find_sub(lv, ".ico"@, 0) == Some(m as int));
                    Some(m)
                },
                None => {
                    assert(find_sub(lv, ".ico"@, 0) is None);
                    let m = find_sub_exec(l.as_slice(), lnk.as_slice());
                    assert(match find_sub(lv, ".lnk"@, 0) {
                        Some(j) => m == Some(j as usize) && 0 <= j,
                        None => m is None,
                    });
                    m
                },
            }
        },
    };
    match m {
        Some(m) => {
            let n = utf8_len_exec(l.as_slice(), m);
            assert(ext_cut(tr@) == Some(utf8_len(lv.take(m as int)) + 4int));
            Some(n + 4)
        },
        None => {
            assert(ext_cut(tr@) is None);
            None
        },
    }
}

/// Cleans a registry value where `clean_registry_path` can (see
/// `registry_cut_ok`); `None` for the values it cannot cut, on which the
/// launcher's byte slicing would fail.
pub fn checked_clean_registry_path<F: Fn(&str) -> bool>(val: &str, path_exists: &F) -> (r: Option<
    Option<String>,
>)
    requires
        forall|s: &str| path_exists.requires((s,)),
    ensures
        r is None <==> !registry_cut_ok(val@),
        match r {
            Some(x) => registry_result(*path_exists, val@, x),
            None => true,
        },
{
    if registry_cut_checks(val) {
        Some(clean_registry_path(val, path_exists))
    } else {
        None
    }
}

proof fn lemma_find_sub_bound(v: Seq<char>, needle: Seq<char>)
    ensures
        match find_sub(v, needle, 0) {
            Some(m) => 0 <= m && m + needle.len() <= v.len(),
            None => true,
        },
{
    lemma_find_sub_from(v, needle, 0);
}

proof fn lemma_find_sub_from(v: Seq<char>, needle: Seq<char>, i: int)
    ensures
        match find_sub(v, needle, i) {
            Some(m) => i <= m && 0 <= m && m + needle.len() <= v.len(),
            None => true,
        },
    decreases v.len() + 1 - i,
{
    if 0 <= i && i + needle.len() <= v.len() && !occurs_at(v, needle, i) {
        lemma_find_sub_from(v, needle, i + 1);
    }
}

/// A text of `n` characters takes at most `4 n` bytes.
proof fn lemma_utf8_len_bound(s: Seq<char>, n: int)
    requires
        0 <= n <= s.len(),
    ensures
        utf8_len(s.take(n)) <= 4 * n,
    decreases n,
{
    if n > 0 {
        assert(s.take(n).drop_last() =~= s.take(n - 1));
        lemma_utf8_len_bound(s, n - 1);
    }
}

// ---------------------------------------------------------------------------
// Guessing an application's program in its folder
// ---------------------------------------------------------------------------
/// `s` without its trailing backslashes.
pub open spec fn trim_backslashes(s: Seq<char>) -> Seq<char>
    decreases s.len(),
{
    if s.len() > 0 && s.last() == '\u{005C}' {
        trim_backslashes(s.drop_last())
    } else {
        s
    }
}

/// Whether `dir` is the Windows folder `root` or lies inside it, compared in
/// lowercase with the root's trailing backslashes ignored.
pub open spec fn inside_root(dir: Seq<char>, root: Seq<char>) -> bool {
    let r = str_to_lowercase(trim_backslashes(root));
    let d = str_to_lowercase(dir);
    d == r || seq_starts_with(d, r.push('\u{005C}'))
}

/// Whether `dir` lies in the Windows folder (`system_root`, when it is
/// known); programs are never guessed there.
pub fn is_inside_system_root(dir: &str, system_root: Option<&str>) -> (r: bool)
    ensures
        r == match system_root {
            Some(root) => inside_root(dir@, root@),
            None => false,
        },
{
    let root = match system_root {
        Some(root) => root,
        None => {
            return false;
        },
    };
    let rc = chars_of(root);
    let mut n: usize = rc.len();
    proof {
        assert(rc@.take(n as int) =~= rc@);
    }
    while n > 0 && rc[n - 1] == '\u{005C}'
        invariant
            n <= rc@.len(),
            trim_backslashes(rc@.take(n as int)) == trim_backslashes(rc@),
        decreases n,
    {
        proof {
            assert(rc@.take(n as int).drop_last() =~= rc@.take(n - 1));
        }
        n = n - 1;
    }
    proof {
        if n > 0 {
            assert(rc@.take(n as int).last() == rc@[n - 1]);
        }
        assert(trim_backslashes(rc@.take(n as int)) == rc@.take(n as int));
    }
    let trimmed = string_of(take_chars(rc.as_slice(), n).as_slice());
    let r = to_lowercase(trimmed.as_str());
    let d = to_lowercase(dir);
    let rl = chars_of(r.as_str());
    let dl = chars_of(d.as_str());
    if chars_eq(dl.as_slice(), rl.as_slice()) {
        return true;
    }
    let mut rs = rl;
    rs.push('\u{005C}');
    chars_starts_with(dl.as_slice(), rs.as_slice())
}

/// `s` with every occurrence of `pat` removed, scanning from the left
/// without overlaps (as `str::replace(pat, "")` does).
pub open spec fn remove_all(s: Seq<char>, pat: Seq<char>) -> Seq<char>
    decreases s.len(),
{
    if s.len() == 0 {
        s
    } else if pat.len() > 0 && seq_starts_with(s, pat) {
        remove_all(s.skip(pat.len() as int), pat)
    } else {
        seq![s[0]] + remove_all(s.skip(1), pat)
    }
}

fn remove_all_exec(s: &[char], pat: &[char]) -> (r: Vec<char>)
    ensures
        r@ == remove_all(s@, pat@),
{
    let mut out: Vec<char> = Vec::new();
    let mut i: usize = 0;
    proof {
        assert(s@.skip(0) =~= s@);
        assert(out@ + remove_all(s@, pat@) =~= remove_all(s@, pat@));
    }
    while i < s.len()
        invariant
            i <= s@.len(),
            out@ + remove_all(s@.skip(i as int), pat@) == remove_all(s@, pat@),
        decreases s@.len() - i,
    {
        let rest = range_chars(s, i, s.len());
        proof {
            assert(rest@ =~= s@.skip(i as int));
        }
        if pat.len() > 0 && crate::text::chars_starts_with(rest.as_slice(), pat) {
            proof {
                assert(s@.skip(i as int).skip(pat@.len() as int) =~= s@.skip(i + pat@.len()));
            }
            i = i + pat.len();
        } else {
            let ghost o0 = out@;
            out.push(s[i]);
            proof {
                assert(s@.skip(i as int).skip(1) =~= s@.skip(i + 1));
                assert(s@.skip(i as int)[0] == s@[i as int]);
                assert(out@ + remove_all(s@.skip(i + 1), pat@) =~= o0 + (seq![s@[i as int]]
                    + remove_all(s@.skip(i + 1), pat@)));
            }
            i = i + 1;
        }
    }
    proof {
        assert(s@.skip(i as int).len() == 0);
        assert(out@ + remove_all(s@.skip(i as int), pat@) =~= out@);
    }
    out
}

/// Whether the file at `path` has the extension `exe`, exactly.
pub open spec fn plain_exe(path: Seq<char>) -> bool {
    extension_spec(path) == Some("exe"@)
}

/// Whether the program at `path` looks like the application `app_name`:
/// in lowercase, its file name contains the name, or the name contains the
/// file name with `.exe` removed.
pub open spec fn exe_matches(app_name: Seq<char>, path: Seq<char>) -> bool {
    let f = str_to_lowercase(file_name_or_empty(path));
    let a = str_to_lowercase(app_name);
    seq_contains(f, a) || seq_contains(a, remove_all(f, ".exe"@))
}

/// The first of the first `n` files that is a program looking like the
/// application.
pub open spec fn first_matching_exe(app_name: Seq<char>, files: Seq<Seq<char>>, n: int) -> Option<
    int,
>
    decreases n,
{
    if n <= 0 {
        None
    } else {
        match first_matching_exe(app_name, files, n - 1) {
            Some(i) => Some(i),
            None => if plain_exe(files[n - 1]) && exe_matches(app_name, files[n - 1]) {
                Some(n - 1)
            } else {
                None
            },
        }
    }
}

/// The programs among the first `n` files.
pub open spec fn exes_among(files: Seq<Seq<char>>, n: int) -> Seq<Seq<char>>
    decreases n,
{
    if n <= 0 {
        Seq::empty()
    } else if plain_exe(files[n - 1]) {
        exes_among(files, n - 1).push(files[n - 1])
    } else {
        exes_among(files, n - 1)
    }
}

/// The program guessed for an application among the files of its folder:
/// the first that looks like it; else the only program there, if there is
/// exactly one.
pub open spec fn guessed_exe(app_name: Seq<char>, files: Seq<Seq<char>>) -> Option<Seq<char>> {
    match first_matching_exe(app_name, files, files.len() as int) {
        Some(i) => Some(files[i]),
        None => if exes_among(files, files.len() as int).len() == 1 {
            Some(exes_among(files, files.len() as int)[0])
        } else {
            None
        },
    }
}

/// Guesses the program of an application from the files of its folder, in
/// the order the folder lists them (see `guessed_exe`).
pub fn pick_app_exe(app_name: &str, files: &Vec<String>) -> (r: Option<String>)
    ensures
        match r {
            Some(p) => guessed_exe(app_name@, texts(files@)) == Some(p@),
            None => guessed_exe(app_name@, texts(files@)) is None,
        },
{
    let ghost fs = texts(files@);
    let a = to_lowercase(app_name);
    let ac = chars_of(a.as_str());
    let dot_exe = chars_of(".exe");
    proof {
        reveal_strlit(".exe");
        reveal_strlit("exe");
    }
    let mut exes: Vec<usize> = Vec::new();
    let mut i: usize = 0;
    while i < files.len()
        invariant
            i <= files@.len(),
            fs == texts(files@),
            ac@ == str_to_lowercase(app_name@),
            dot_exe@ == ".exe"@,
            first_matching_exe(app_name@, fs, i as int) is None,
            exes@.len() == exes_among(fs, i as int).len(),
            forall|k: int| 0 <= k < exes@.len() ==> #[trigger] exes@[k] < files@.len() && fs[exes@[k] as int] == exes_among(fs, i as int)[k],
        decreases files@.len() - i,
    {
        let path = files[i].as_str();
        proof {
            assert(fs[i as int] == path@);
            reveal_strlit("exe");
        }
        let pc = chars_of(path);
        let ext = extension_of(pc.as_slice());
        let is_exe = match &ext {
            Some(e) => e.len() == 3 && e[0] == 'e' && e[1] == 'x' && e[2] == 'e',
            None => false,
        };
        proof {
            if is_exe {
                assert(ext.unwrap()@ =~= "exe"@);
            } else {
                if ext is Some {
                    assert(ext.unwrap()@ != "exe"@);
                }
            }
            assert(is_exe == plain_exe(path@));
        }
        if is_exe {
            let name = match file_name_of(pc.as_slice()) {
                Some(f) => f,
                None => Vec::new(),
            };
            let fl = to_lowercase(string_of(name.as_slice()).as_str());
            let flc = chars_of(fl.as_str());
            let stripped = remove_all_exec(flc.as_slice(), dot_exe.as_slice());
            if chars_contains(flc.as_slice(), ac.as_slice()) || chars_contains(
                ac.as_slice(),
                stripped.as_slice(),
            ) {
                proof {
                    assert(exe_matches(app_name@, path@));
                    assert(first_matching_exe(app_name@, fs, i + 1) == Some(i as int));
                    lemma_first_match_stays(app_name@, fs, i + 1, fs.len() as int);
                }
                return Some(copy_string(&files[i]));
            }
            proof {
                assert(!exe_matches(app_name@, path@));
            }
            let ghost e0 = exes@;
            exes.push(i);
            proof {
                assert forall|k: int| 0 <= k < exes@.len() implies #[trigger] exes@[k] < files@.len()
                    && fs[exes@[k] as int] == exes_among(fs, i + 1)[k] by {
                    if k < e0.len() {
                        assert(exes@[k] == e0[k]);
                    }
                }
            }
        }
        i = i + 1;
    }
    proof {
        assert(fs.len() == files@.len());
    }
    if exes.len() == 1 {
        Some(copy_string(&files[exes[0]]))
    } else {
        None
    }
}

/// Guesses the program of an application installed in `dir`: none when
/// `dir` is not a folder (`is_dir`) or lies in the Windows folder, which is
/// then never listed; else `pick_app_exe` over the files that `list_files`
/// gives for `dir`.
pub fn find_exe_in_dir<F: Fn(&str) -> Vec<String>>(
    dir: &str,
    app_name: &str,
    system_root: Option<&str>,
    is_dir: bool,
    list_files: &F,
) -> (r: Option<String>)
    requires
        forall|d: &str| list_files.requires((d,)),
    ensures
        !is_dir ==> r is None,
        (system_root matches Some(root) && inside_root(dir@, root@)) ==> r is None,
        is_dir && !(system_root matches Some(root) && inside_root(dir@, root@)) ==> exists|
            files: Vec<String>,
        |
            #[trigger] list_files.ensures((dir,), files) && match r {
                Some(p) => guessed_exe(app_name@, texts(files@)) == Some(p@),
                None => guessed_exe(app_name@, texts(files@)) is None,
            },
{
    if !is_dir || is_inside_system_root(dir, system_root) {
        return None;
    }
    let files = list_files(dir);
    pick_app_exe(app_name, &files)
}

proof fn lemma_first_match_stays(app_name: Seq<char>, files: Seq<Seq<char>>, n: int, m: int)
    requires
        0 < n <= m,
        first_matching_exe(app_name, files, n) is Some,
    ensures
        first_matching_exe(app_name, files, m) == first_matching_exe(app_name, files, n),
    decreases m - n,
{
    if m > n {
        lemma_first_match_stays(app_name, files, n, m - 1);
    }
}

// ---------------------------------------------------------------------------
// Environment variables in registry values
// ---------------------------------------------------------------------------
/// The `%NAME%` references of `v` from position `i` on: each `%` opens a
/// reference that the next `%` closes; a `%` with no partner is text.
pub open spec fn env_refs_from(v: Seq<char>, i: int) -> Seq<Seq<char>>
    decreases v.len() - i,
{
    if i < 0 || i > v.len() {
        Seq::empty()
    } else {
        match find_char(v, '%', i) {
            None => Seq::empty(),
            Some(s) => match find_char(v, '%', s + 1) {
                None => Seq::empty(),
                Some(e) => if s < i || e <= s || e >= v.len() {
                    Seq::empty()
                } else {
                    seq![v.subrange(s + 1, e)] + env_refs_from(v, e + 1)
                },
            },
        }
    }
}

/// What a reference is replaced by: the variable's value when the name is
/// not empty and the variable is set; else the reference as written.
pub open spec fn env_replacement(name: Seq<char>, value: Option<Seq<char>>) -> Seq<char> {
    if name.len() > 0 && value is Some {
        value->0
    } else {
        seq!['%'] + name + seq!['%']
    }
}

/// `v` from position `i` on with its references replaced, `values[k]`
/// being the value looked up for the `k`-th of them.
pub open spec fn expand_from(v: Seq<char>, i: int, values: Seq<Option<Seq<char>>>, k: int) -> Seq<
    char,
>
    decreases v.len() - i,
{
    if i < 0 || i > v.len() {
        Seq::empty()
    } else {
        match find_char(v, '%', i) {
            None => v.subrange(i, v.len() as int),
            Some(s) => match find_char(v, '%', s + 1) {
                None => v.subrange(i, v.len() as int),
                Some(e) => if s < i || e <= s || e >= v.len() {
                    Seq::empty()
                } else {
                    v.subrange(i, s) + env_replacement(v.subrange(s + 1, e), values[k])
                        + expand_from(v, e + 1, values, k + 1)
                },
            },
        }
    }
}

pub open spec fn opt_texts(v: Seq<Option<String>>) -> Seq<Option<Seq<char>>> {
    v.map_values(
        |o: Option<String>|
            match o {
                Some(s) => Some(s@),
                None => None,
            },
    )
}

/// The names of the environment variables that `value` refers to, in
/// order (see `env_refs_from`); look each up and hand the values to
/// `expand_env_vars`.
pub fn env_var_names(value: &str) -> (r: Vec<String>)
    ensures
        texts(r@) == env_refs_from(value@, 0),
{
    let v = chars_of(value);
    let mut out: Vec<String> = Vec::new();
    let mut i: usize = 0;
    let vl = v.len();
    loop
        invariant
            i <= v@.len(),
            vl == v@.len(),
            v@ == value@,
            texts(out@) + env_refs_from(v@, i as int) == env_refs_from(v@, 0),
        decreases v@.len() - i,
    {
        proof {
            lemma_find_char(v@, '%', i as int);
        }
        match find_char_exec(v.as_slice(), '%', i) {
            None => {
                proof {
                    assert(texts(out@) + Seq::<Seq<char>>::empty() =~= texts(out@));
                }
                return out;
            },
            Some(s) => {
                proof {
                    lemma_find_char(v@, '%', s + 1);
                }
                match find_char_exec(v.as_slice(), '%', s + 1) {
                    None => {
                        proof {
                            assert(texts(out@) + Seq::<Seq<char>>::empty() =~= texts(out@));
                        }
                        return out;
                    },
                    Some(e) => {
                        let name = range_chars(v.as_slice(), s + 1, e);
                        let ghost o0 = texts(out@);
                        out.push(string_of(name.as_slice()));
                        proof {
                            assert(texts(out@) =~= o0.push(name@));
                            assert(texts(out@) + env_refs_from(v@, e + 1) =~= o0 + (seq![name@]
                                + env_refs_from(v@, e + 1)));
                        }
                        i = e + 1;
                    },
                }
            },
        }
    }
}

/// `value` with its `%NAME%` references replaced (see `expand_from`),
/// `values` holding the value looked up for each name `env_var_names`
/// gives, in the same order (`None` for a variable that is not set).
pub fn expand_env_vars(value: &str, values: &Vec<Option<String>>) -> (r: String)
    requires
        values@.len() == env_refs_from(value@, 0).len(),
    ensures
        r@ == expand_from(value@, 0, opt_texts(values@), 0),
{
    let ghost vals = opt_texts(values@);
    let v = chars_of(value);
    let mut out: Vec<char> = Vec::new();
    let mut i: usize = 0;
    let mut k: usize = 0;
    let vl = v.len();
    let nvals = values.len();
    loop
        invariant
            i <= v@.len(),
            vl == v@.len(),
            nvals == values@.len(),
            v@ == value@,
            vals == opt_texts(values@),
            values@.len() == env_refs_from(v@, 0).len(),
            out@ + expand_from(v@, i as int, vals, k as int) == expand_from(v@, 0, vals, 0),
            k + env_refs_from(v@, i as int).len() == env_refs_from(v@, 0).len(),
        decreases v@.len() - i,
    {
        proof {
            lemma_find_char(v@, '%', i as int);
        }
        match find_char_exec(v.as_slice(), '%', i) {
            None => {
                let mut tail = range_chars(v.as_slice(), i, v.len());
                let ghost o0 = out@;
                out.append(&mut tail);
                proof {
                    assert(out@ =~= expand_from(v@, 0, vals, 0));
                }
                return string_of(out.as_slice());
            },
            Some(s) => {
                proof {
                    lemma_find_char(v@, '%', s + 1);
                }
                match find_char_exec(v.as_slice(), '%', s + 1) {
                    None => {
                        let mut tail = range_chars(v.as_slice(), i, v.len());
                        let ghost o0 = out@;
                        out.append(&mut tail);
                        proof {
                            assert(out@ =~= expand_from(v@, 0, vals, 0));
                        }
                        return string_of(out.as_slice());
                    },
                    Some(e) => {
                        proof {
                            assert(env_refs_from(v@, i as int) =~= seq![v@.subrange(s + 1, e as int)]
                                + env_refs_from(v@, e + 1));
                        }
                        let mut before = range_chars(v.as_slice(), i, s);
                        let name = range_chars(v.as_slice(), s + 1, e);
                        let ghost o0 = out@;
                        let ghost b0 = before@;
                        out.append(&mut before);
                        let mut rep: Vec<char> = match &values[k] {
                            Some(val) => {
                                if name.len() > 0 {
                                    chars_of(val.as_str())
                                } else {
                                    let mut w: Vec<char> = vec!['%'];
                                    let mut n2 = name.clone();
                                    w.append(&mut n2);
                                    w.push('%');
                                    w
                                }
                            },
                            None => {
                                let mut w: Vec<char> = vec!['%'];
                                let mut n2 = name.clone();
                                w.append(&mut n2);
                                w.push('%');
                                w
                            },
                        };
                        proof {
                            assert(vals[k as int] == match values@[k as int] {
                                Some(s) => Some(s@),
                                None => None::<Seq<char>>,
                            });
                            assert(rep@ =~= env_replacement(name@, vals[k as int]));
                        }
                        let ghost r0 = rep@;
                        out.append(&mut rep);
                        proof {
                            assert(out@ =~= o0 + b0 + r0);
                            assert(out@ + expand_from(v@, e + 1, vals, k + 1) =~= o0 + (b0
                                + env_replacement(name@, vals[k as int]) + expand_from(
                                v@,
                                e + 1,
                                vals,
                                k + 1,
                            )));
                        }
                        i = e + 1;
                        k = k + 1;
                    },
                }
            },
        }
    }
}

// ---------------------------------------------------------------------------
// Keeping one entry per path; merging a fresh scan
// ---------------------------------------------------------------------------
/// An entry as texts: `(name_lower, path, kind)`.
pub open spec fn entry_view(e: SearchEntry) -> (Seq<char>, Seq<char>, u8) {
    (e.name_lower@, e.path@, e.kind)
}

/// The entries of a list, as texts.
pub open spec fn entry_views(s: Seq<SearchEntry>) -> Seq<(Seq<char>, Seq<char>, u8)> {
    s.map_values(|e: SearchEntry| entry_view(e))
}

/// The paths of a list of entries.
pub open spec fn entry_paths(s: Seq<(Seq<char>, Seq<char>, u8)>) -> Seq<Seq<char>> {
    s.map_values(|e: (Seq<char>, Seq<char>, u8)| e.1)
}

/// The first `n` entries, each kept only when no earlier entry has its
/// path.
pub open spec fn first_per_path(s: Seq<(Seq<char>, Seq<char>, u8)>, n: int) -> Seq<
    (Seq<char>, Seq<char>, u8),
>
    decreases n,
{
    if n <= 0 {
        Seq::empty()
    } else if entry_paths(s).take(n - 1).contains(s[n - 1].1) {
        first_per_path(s, n - 1)
    } else {
        first_per_path(s, n - 1).push(s[n - 1])
    }
}

fn copy_entry(e: &SearchEntry) -> (r: SearchEntry)
    ensures
        entry_view(r) == entry_view(*e),
{
    SearchEntry { name_lower: copy_string(&e.name_lower), path: copy_string(&e.path), kind: e.kind }
}

/// The entries with one per path, the first of each (earlier sources, such
/// as the Start Menu, win over the drive walk).
pub fn dedup_by_path(entries: &Vec<SearchEntry>) -> (r: Vec<SearchEntry>)
    ensures
        entry_views(r@) == first_per_path(entry_views(entries@), entries@.len() as int),
{
    let ghost s = entry_views(entries@);
    let mut seen = StringHashSet::new();
    let mut out: Vec<SearchEntry> = Vec::new();
    let mut i: usize = 0;
    while i < entries.len()
        invariant
            i <= entries@.len(),
            s == entry_views(entries@),
            seen@ == entry_paths(s).take(i as int).to_set(),
            entry_views(out@) == first_per_path(s, i as int),
        decreases entries@.len() - i,
    {
        let ghost ps = entry_paths(s);
        proof {
            assert(ps.take(i + 1) =~= ps.take(i as int).push(s[i as int].1));
            assert(ps.take(i as int).to_set().contains(s[i as int].1) == ps.take(i as int).contains(
                s[i as int].1,
            ));
        }
        let fresh = seen.insert(copy_string(&entries[i].path));
        if fresh {
            let ghost o0 = out@;
            out.push(copy_entry(&entries[i]));
            proof {
                assert(entry_views(out@) =~= entry_views(o0).push(s[i as int]));
            }
        }
        proof {
            lemma_push_to_set(ps.take(i as int), s[i as int].1);
        }
        i = i + 1;
    }
    out
}

/// The index after a fresh scan of the quick sources: entries whose path
/// the fresh scan found again, or that are known to be gone, are dropped;
/// the fresh entries follow.
pub open spec fn merged(
    index: Seq<(Seq<char>, Seq<char>, u8)>,
    fresh: Seq<(Seq<char>, Seq<char>, u8)>,
    gone: Seq<Seq<char>>,
) -> Seq<(Seq<char>, Seq<char>, u8)> {
    index.filter(
        |e: (Seq<char>, Seq<char>, u8)|
            !entry_paths(fresh).contains(e.1) && !gone.contains(e.1),
    ) + fresh
}

fn path_set(paths: &Vec<String>) -> (r: StringHashSet)
    ensures
        r@ == texts(paths@).to_set(),
{
    let mut set = StringHashSet::new();
    let mut i: usize = 0;
    while i < paths.len()
        invariant
            i <= paths@.len(),
            set@ == texts(paths@).take(i as int).to_set(),
        decreases paths@.len() - i,
    {
        proof {
            assert(texts(paths@).take(i + 1) =~= texts(paths@).take(i as int).push(paths@[i as int]@));
            lemma_push_to_set(texts(paths@).take(i as int), paths@[i as int]@);
        }
        set.insert(copy_string(&paths[i]));
        i = i + 1;
    }
    proof {
        assert(texts(paths@).take(i as int) =~= texts(paths@));
    }
    set
}

fn entry_path_set(entries: &Vec<SearchEntry>) -> (r: StringHashSet)
    ensures
        r@ == entry_paths(entry_views(entries@)).to_set(),
{
    let ghost ps = entry_paths(entry_views(entries@));
    let mut set = StringHashSet::new();
    let mut i: usize = 0;
    while i < entries.len()
        invariant
            i <= entries@.len(),
            ps == entry_paths(entry_views(entries@)),
            set@ == ps.take(i as int).to_set(),
        decreases entries@.len() - i,
    {
        proof {
            assert(ps.take(i + 1) =~= ps.take(i as int).push(entries@[i as int].path@));
            lemma_push_to_set(ps.take(i as int), entries@[i as int].path@);
        }
        set.insert(copy_string(&entries[i].path));
        i = i + 1;
    }
    proof {
        assert(ps.take(i as int) =~= ps);
    }
    set
}

/// A fast refresh runs at most once in this many seconds.
pub const FAST_REFRESH_INTERVAL_SECS: u64 = 300;

/// Whether a fast refresh is due, given the nanoseconds since the last one
/// began (none when there was none): it is once `FAST_REFRESH_INTERVAL_SECS`
/// seconds have passed.
pub fn refresh_due(since_last_ns: Option<u128>) -> (r: bool)
    ensures
        r == match since_last_ns {
            None => true,
            Some(ns) => ns >= FAST_REFRESH_INTERVAL_SECS * 1_000_000_000,
        },
{
    match since_last_ns {
        None => true,
        Some(ns) => ns >= (FAST_REFRESH_INTERVAL_SECS as u128) * 1_000_000_000,
    }
}

/// Whether an indexing run is cancelled: the run counter, as read, no longer
/// holds `run` (a newer run has started).
pub fn run_cancelled(read: u64, run: u64) -> (r: bool)
    ensures
        r == (read != run),
{
    read != run
}

/// A drive walk looks at the run counter once every this many files.
pub const CANCEL_CHECK_EVERY: usize = 2048;

/// Whether the drive walk checks for cancellation after `scanned` files.
pub fn cancel_check_due(scanned: usize) -> (r: bool)
    ensures
        r == (scanned % CANCEL_CHECK_EVERY == 0),
{
    scanned % CANCEL_CHECK_EVERY == 0
}

/// Progress of a drive walk is reported at most once every this many files
/// and this many milliseconds.
pub const EMIT_EVERY_FILES: usize = 1500;

pub const EMIT_EVERY_MS: u128 = 150;

/// Whether the drive walk reports progress after `scanned` files, given the
/// milliseconds since it last did.
pub fn progress_due(scanned: usize, since_emit_ms: u128) -> (r: bool)
    ensures
        r == (scanned % EMIT_EVERY_FILES == 0 && since_emit_ms >= EMIT_EVERY_MS),
{
    scanned % EMIT_EVERY_FILES == 0 && since_emit_ms >= EMIT_EVERY_MS
}

/// Merges a fresh scan into the index (see `merged`); `gone` lists paths
/// found missing on disk.
pub fn merge_fresh(index: &Vec<SearchEntry>, fresh: &Vec<SearchEntry>, gone: &Vec<String>) -> (r:
    Vec<SearchEntry>)
    ensures
        entry_views(r@) == merged(entry_views(index@), entry_views(fresh@), texts(gone@)),
{
    let ghost iv = entry_views(index@);
    let ghost fv = entry_views(fresh@);
    let ghost gv = texts(gone@);
    let ghost pred = |e: (Seq<char>, Seq<char>, u8)|
        !entry_paths(fv).contains(e.1) && !gv.contains(e.1);
    let fresh_set = entry_path_set(fresh);
    let gone_set = path_set(gone);
    let mut out: Vec<SearchEntry> = Vec::new();
    let mut i: usize = 0;
    while i < index.len()
        invariant
            i <= index@.len(),
            iv == entry_views(index@),
            fv == entry_views(fresh@),
            gv == texts(gone@),
            fresh_set@ == entry_paths(fv).to_set(),
            gone_set@ == gv.to_set(),
            pred == (|e: (Seq<char>, Seq<char>, u8)|
                !entry_paths(fv).contains(e.1) && !gv.contains(e.1)),
            entry_views(out@) == iv.take(i as int).filter(pred),
        decreases index@.len() - i,
    {
        proof {
            assert(iv.take(i + 1).drop_last() =~= iv.take(i as int));
            assert(iv.take(i + 1).last() == iv[i as int]);
            reveal(Seq::filter);
        }
        let p = index[i].path.as_str();
        if !fresh_set.contains(p) && !gone_set.contains(p) {
            let ghost o0 = out@;
            out.push(copy_entry(&index[i]));
            proof {
                assert(entry_views(out@) =~= entry_views(o0).push(iv[i as int]));
            }
        }
        i = i + 1;
    }
    proof {
        assert(iv.take(i as int) =~= iv);
    }
    let mut j: usize = 0;
    let ghost base = out@;
    while j < fresh.len()
        invariant
            j <= fresh@.len(),
            fv == entry_views(fresh@),
            entry_views(out@) == entry_views(base) + fv.take(j as int),
        decreases fresh@.len() - j,
    {
        let ghost o0 = out@;
        let e = copy_entry(&fresh[j]);
        out.push(e);
        proof {
            assert(out@ == o0.push(e));
            assert(entry_views(out@) =~= entry_views(o0).push(fv[j as int]));
            assert(fv.take(j + 1) =~= fv.take(j as int).push(fv[j as int]));
            assert(entry_views(out@) =~= entry_views(base) + fv.take(j + 1));
        }
        j = j + 1;
    }
    proof {
        assert(fv.take(j as int) =~= fv);
    }
    out
}

/// The paths of the application and shortcut entries of the index that a
/// fresh scan did not find again: these are checked on disk, and the
/// missing ones count as uninstalled.
pub fn unconfirmed_app_paths(index: &Vec<SearchEntry>, fresh: &Vec<SearchEntry>) -> (r: Vec<
    String,
>)
    ensures
        texts(r@) == unconfirmed_paths(entry_views(index@), entry_views(fresh@)),
{
    let ghost iv = entry_views(index@);
    let ghost fv = entry_views(fresh@);
    let ghost pred = |e: (Seq<char>, Seq<char>, u8)|
        (e.2 == KIND_APP || e.2 == KIND_SHORTCUT) && !entry_paths(fv).contains(e.1);
    let fresh_set = entry_path_set(fresh);
    let mut out: Vec<String> = Vec::new();
    let mut i: usize = 0;
    while i < index.len()
        invariant
            i <= index@.len(),
            iv == entry_views(index@),
            fv == entry_views(fresh@),
            fresh_set@ == entry_paths(fv).to_set(),
            pred == (|e: (Seq<char>, Seq<char>, u8)|
                (e.2 == KIND_APP || e.2 == KIND_SHORTCUT) && !entry_paths(fv).contains(e.1)),
            texts(out@) == entry_paths(iv.take(i as int).filter(pred)),
        decreases index@.len() - i,
    {
        proof {
            assert(iv.take(i + 1).drop_last() =~= iv.take(i as int));
            assert(iv.take(i + 1).last() == iv[i as int]);
            reveal(Seq::filter);
        }
        let e = &index[i];
        if (e.kind == KIND_APP || e.kind == KIND_SHORTCUT) && !fresh_set.contains(e.path.as_str()) {
            let ghost o0 = out@;
            out.push(copy_string(&e.path));
            proof {
                assert(texts(out@) =~= texts(o0).push(iv[i as int].1));
                assert(entry_paths(iv.take(i + 1).filter(pred)) =~= entry_paths(
                    iv.take(i as int).filter(pred),
                ).push(iv[i as int].1));
            }
        } else {
            proof {
                assert(iv.take(i + 1).filter(pred) == iv.take(i as int).filter(pred));
            }
        }
        i = i + 1;
    }
    proof {
        assert(iv.take(i as int) =~= iv);
    }
    out
}

// ---------------------------------------------------------------------------
// Applications listed in the registry
// ---------------------------------------------------------------------------
/// Collecting registry applications: the entries so far (lowercase name,
/// path), the lowercase names taken and the lowercase paths taken.
pub type RegState = (Seq<(Seq<char>, Seq<char>)>, Set<Seq<char>>, Set<Seq<char>>);

/// Whether an application listed under `name` is resolved: it has a name,
/// not taken yet in lowercase.
pub open spec fn reg_asks(st: RegState, name: Option<Seq<char>>) -> bool {
    name is Some && !st.1.contains(str_to_lowercase(name->0))
}

/// One application: when it is resolved to `(name, path)` and the path,
/// in lowercase, is not taken yet, it becomes an entry.
pub open spec fn reg_step(
    st: RegState,
    name: Option<Seq<char>>,
    out: Option<(Seq<char>, Seq<char>)>,
) -> RegState {
    if !reg_asks(st, name) {
        st
    } else {
        match out {
            None => st,
            Some(o) => if st.2.contains(str_to_lowercase(o.1)) {
                st
            } else {
                (
                    st.0.push((str_to_lowercase(o.0), o.1)),
                    st.1.insert(str_to_lowercase(name->0)),
                    st.2.insert(str_to_lowercase(o.1)),
                )
            },
        }
    }
}

/// The state after the first `n` applications, `outs` giving how each
/// resolved.
pub open spec fn reg_run(
    names: Seq<Option<Seq<char>>>,
    outs: Seq<Option<(Seq<char>, Seq<char>)>>,
    n: int,
) -> RegState
    decreases n,
{
    if n <= 0 {
        (Seq::empty(), Set::empty(), Set::empty())
    } else {
        reg_step(reg_run(names, outs, n - 1), names[n - 1], outs[n - 1])
    }
}

pub open spec fn pair_view(o: Option<(String, String)>) -> Option<(Seq<char>, Seq<char>)> {
    match o {
        Some(p) => Some((p.0@, p.1@)),
        None => None,
    }
}

/// `resolve` may answer `out` for application `i`.
pub open spec fn resolves_to<F: Fn(usize) -> Option<(String, String)>>(
    resolve: F,
    i: usize,
    out: Option<(Seq<char>, Seq<char>)>,
) -> bool {
    exists|x: Option<(String, String)>| #[trigger] resolve.ensures((i,), x) && pair_view(x) == out
}

/// The application entries from the registry's uninstall list: `names`
/// holds each application's display name; `resolve(i)` finds the name and
/// program path of application `i` (see `reg_step`).  Applications are
/// resolved in order, skipping names already taken.
pub fn registry_entries<F: Fn(usize) -> Option<(String, String)>>(
    names: &Vec<Option<String>>,
    resolve: F,
) -> (r: Vec<SearchEntry>)
    requires
        forall|i: usize| resolve.requires((i,)),
    ensures
        exists|outs: Seq<Option<(Seq<char>, Seq<char>)>>|
            {
                &&& outs.len() == names@.len()
                &&& forall|i: int|
                    0 <= i < names@.len() && reg_asks(
                        reg_run(opt_texts(names@), outs, i),
                        opt_texts(names@)[i],
                    ) ==> resolves_to(resolve, i as usize, #[trigger] outs[i])
                &&& entry_views(r@) == reg_run(opt_texts(names@), outs, names@.len() as int).0.map_values(
                    |e: (Seq<char>, Seq<char>)| (e.0, e.1, KIND_APP),
                )
            },
{
    let ghost nv = opt_texts(names@);
    let ghost mut outs: Seq<Option<(Seq<char>, Seq<char>)>> = Seq::empty();
    let mut seen = StringHashSet::new();
    let mut seen_paths = StringHashSet::new();
    let mut out: Vec<SearchEntry> = Vec::new();
    let mut i: usize = 0;
    while i < names.len()
        invariant
            i <= names@.len(),
            nv == opt_texts(names@),
            forall|i: usize| resolve.requires((i,)),
            outs.len() == i,
            forall|k: int|
                0 <= k < i && reg_asks(reg_run(nv, outs, k), nv[k]) ==> resolves_to(
                    resolve,
                    k as usize,
                    #[trigger] outs[k],
                ),
            seen@ == reg_run(nv, outs, i as int).1,
            seen_paths@ == reg_run(nv, outs, i as int).2,
            entry_views(out@) == reg_run(nv, outs, i as int).0.map_values(
                |e: (Seq<char>, Seq<char>)| (e.0, e.1, KIND_APP),
            ),
        decreases names@.len() - i,
    {
        let ghost st = reg_run(nv, outs, i as int);
        let ghost o_prev = outs;
        proof {
            assert(nv[i as int] == match names@[i as int] {
                Some(s) => Some(s@),
                None => None::<Seq<char>>,
            });
        }
        let ghost mut got: Option<(Seq<char>, Seq<char>)> = None;
        let asked: bool;
        match &names[i] {
            None => {
                asked = false;
            },
            Some(name) => {
                let key = to_lowercase(name.as_str());
                if seen.contains(key.as_str()) {
                    asked = false;
                } else {
                    asked = true;
                    let res = resolve(i);
                    proof {
                        got = pair_view(res);
                        assert(resolve.ensures((i,), res));
                        assert(resolves_to(resolve, i, got));
                    }
                    match res {
                        None => {},
                        Some((app_name, path)) => {
                            let pl = to_lowercase(path.as_str());
                            if seen_paths.insert(pl) {
                                seen.insert(key);
                                let ghost o0 = out@;
                                let e = SearchEntry {
                                    name_lower: to_lowercase(app_name.as_str()),
                                    path,
                                    kind: KIND_APP,
                                };
                                out.push(e);
                                proof {
                                    assert(entry_views(out@) =~= entry_views(o0).push(entry_view(e)));
                                }
                            }
                        },
                    }
                }
            },
        }
        proof {
            outs = outs.push(got);
            lemma_reg_run_prefix(nv, o_prev, outs, i as int);
            assert(reg_run(nv, outs, i + 1) == reg_step(st, nv[i as int], got));
            assert(asked == reg_asks(st, nv[i as int]));
            assert forall|k: int|
                0 <= k < i + 1 && reg_asks(reg_run(nv, outs, k), nv[k]) implies resolves_to(
                resolve,
                k as usize,
                #[trigger] outs[k],
            ) by {
                lemma_reg_run_prefix(nv, o_prev, outs, k);
                if k < i {
                    assert(outs[k] == o_prev[k]);
                }
            }
            assert(entry_views(out@) =~= reg_run(nv, outs, i + 1).0.map_values(
                |e: (Seq<char>, Seq<char>)| (e.0, e.1, KIND_APP),
            ));
        }
        i = i + 1;
    }
    out
}

/// Outcomes recorded after the first `n` applications do not change the
/// state after them.
proof fn lemma_reg_run_prefix(
    names: Seq<Option<Seq<char>>>,
    o1: Seq<Option<(Seq<char>, Seq<char>)>>,
    o2: Seq<Option<(Seq<char>, Seq<char>)>>,
    n: int,
)
    requires
        n <= o1.len() <= o2.len(),
        forall|k: int| 0 <= k < o1.len() ==> o1[k] == o2[k],
    ensures
        reg_run(names, o1, n) == reg_run(names, o2, n),
    decreases n,
{
    if n > 0 {
        lemma_reg_run_prefix(names, o1, o2, n - 1);
    }
}

// ---------------------------------------------------------------------------
// Resolving an uninstall entry to a program
// ---------------------------------------------------------------------------
/// An application as the registry's uninstall list describes it.
pub struct UninstallEntry {
    pub name: Option<String>,
    pub icon: Option<String>,
    pub location: Option<String>,
    pub uninstall: Option<String>,
}

/// An optional string, as its characters.
pub open spec fn opt_str(o: Option<String>) -> Option<Seq<char>> {
    match o {
        Some(s) => Some(s@),
        None => None,
    }
}

/// The install folder written in the registry: trimmed, quotes removed.
pub open spec fn install_dir(loc: Seq<char>) -> Seq<char> {
    str_trim(loc).filter(|c: char| c != '"')
}

/// Whether an application name is long enough (two bytes or more).
pub open spec fn name_ok(name: Option<Seq<char>>) -> bool {
    name matches Some(n) && utf8_len(n) >= 2
}

/// The program path found from the install folder, when the icon gave
/// none: the folder must be given, not empty, and exist.
pub open spec fn from_location(
    r1: Option<Seq<char>>,
    loc: Option<Seq<char>>,
    dir_exists: bool,
    dir_exe: Option<Seq<char>>,
) -> Option<Seq<char>> {
    if r1 is Some {
        r1
    } else {
        match loc {
            Some(l) => if install_dir(l).len() > 0 && dir_exists {
                dir_exe
            } else {
                None
            },
            None => None,
        }
    }
}

/// The program path found next to the uninstaller, when nothing was found
/// before: the uninstaller's folder must exist.
pub open spec fn from_uninstaller(
    r2: Option<Seq<char>>,
    uninstaller: Option<Seq<char>>,
    parent: Option<Seq<char>>,
    parent_exists: bool,
    parent_exe: Option<Seq<char>>,
) -> Option<Seq<char>> {
    if r2 is Some {
        r2
    } else if uninstaller is Some && parent is Some && parent_exists {
        parent_exe
    } else {
        None
    }
}

/// `f` may answer `out` when asked for the folder of `path`.
pub open spec fn parent_answers<P: Fn(&str) -> Option<String>>(
    f: P,
    path: Seq<char>,
    out: Option<Seq<char>>,
) -> bool {
    exists|s: &str, o: Option<String>| s@ == path && #[trigger] f.ensures((s,), o) && opt_str(o) == out
}

/// `f` may answer `out` when asked for the program of application `name`
/// in folder `dir`.
pub open spec fn exe_answers<D: Fn(&str, &str) -> Option<String>>(
    f: D,
    dir: Seq<char>,
    name: Seq<char>,
    out: Option<Seq<char>>,
) -> bool {
    exists|d: &str, n: &str, o: Option<String>|
        d@ == dir && n@ == name && #[trigger] f.ensures((d, n), o) && opt_str(o) == out
}

/// `r` is how `app` resolves for some answers of the questions asked about
/// the file system: the icon value cleaned (`c1`); whether the install
/// folder exists (`a2`) and the program found there (`f2`); the uninstaller
/// value cleaned (`c3`), its folder (`p3`), whether that exists (`a3`) and
/// the program found there (`f3`); whether the path found is a file (`b`).
pub open spec fn resolves_as<
    E: Fn(&str) -> bool,
    G: Fn(&str) -> bool,
    P: Fn(&str) -> Option<String>,
    D: Fn(&str, &str) -> Option<String>,
>(
    app: UninstallEntry,
    path_exists: E,
    is_file: G,
    parent_of: P,
    find_exe: D,
    c1: Option<String>,
    a2: bool,
    f2: Option<Seq<char>>,
    c3: Option<String>,
    p3: Option<Seq<char>>,
    a3: bool,
    f3: Option<Seq<char>>,
    b: bool,
    r: Option<(Seq<char>, Seq<char>)>,
) -> bool {
    let name = opt_str(app.name);
    if !name_ok(name) {
        r is None
    } else {
        let n = name->0;
        let r1 = opt_str(c1);
        let loc = opt_str(app.location);
        let r2 = from_location(r1, loc, a2, f2);
        let un = opt_str(c3);
        let r3 = from_uninstaller(r2, un, p3, a3, f3);
        &&& (app.icon matches Some(i) ==> registry_result(path_exists, i@, c1))
        &&& (app.icon is None ==> c1 is None)
        &&& ((r1 is None && loc is Some && install_dir(loc->0).len() > 0) ==> answers(
            path_exists,
            install_dir(loc->0),
            a2,
        ))
        &&& ((r1 is None && loc is Some && install_dir(loc->0).len() > 0 && a2) ==> exe_answers(
            find_exe,
            install_dir(loc->0),
            n,
            f2,
        ))
        &&& ((r2 is None && app.uninstall is Some) ==> registry_result(
            path_exists,
            app.uninstall->0@,
            c3,
        ))
        &&& ((r2 is None && app.uninstall is None) ==> c3 is None)
        &&& ((r2 is None && un is Some) ==> parent_answers(parent_of, un->0, p3))
        &&& ((r2 is None && un is Some && p3 is Some) ==> answers(path_exists, p3->0, a3))
        &&& ((r2 is None && un is Some && p3 is Some && a3) ==> exe_answers(
            find_exe,
            p3->0,
            n,
            f3,
        ))
        &&& (r3 is Some ==> answers(is_file, r3->0, b))
        &&& r == match r3 {
            Some(p) => if b {
                Some((n, p))
            } else {
                None
            },
            None => None,
        }
    }
}

/// The install folder of a registry value (see `install_dir`).
fn install_dir_exec(loc: &str) -> (r: String)
    ensures
        r@ == install_dir(loc@),
{
    let t = chars_of(trim(loc));
    let ghost tv = t@;
    let mut out: Vec<char> = Vec::new();
    let mut i: usize = 0;
    while i < t.len()
        invariant
            i <= t@.len(),
            tv == t@,
            out@ == tv.take(i as int).filter(|c: char| c != '"'),
        decreases t@.len() - i,
    {
        proof {
            assert(tv.take(i + 1).drop_last() =~= tv.take(i as int));
            assert(tv.take(i + 1).last() == tv[i as int]);
            reveal(Seq::filter);
        }
        if t[i] != '"' {
            out.push(t[i]);
        }
        i = i + 1;
    }
    proof {
        assert(tv.take(i as int) =~= tv);
    }
    string_of(out.as_slice())
}

fn ask_parent<P: Fn(&str) -> Option<String>>(parent_of: &P, path: &str) -> (r: Option<String>)
    requires
        forall|s: &str| parent_of.requires((s,)),
    ensures
        parent_answers(*parent_of, path@, opt_str(r)),
{
    let r = parent_of(path);
    proof {
        assert(parent_of.ensures((path,), r));
    }
    r
}

fn ask_exe<D: Fn(&str, &str) -> Option<String>>(find_exe: &D, dir: &str, name: &str) -> (r: Option<
    String,
>)
    requires
        forall|d: &str, n: &str| find_exe.requires((d, n)),
    ensures
        exe_answers(*find_exe, dir@, name@, opt_str(r)),
{
    let r = find_exe(dir, name);
    proof {
        assert(find_exe.ensures((dir, name), r));
    }
    r
}

fn ask_str<E: Fn(&str) -> bool>(f: &E, text: &str) -> (r: bool)
    requires
        forall|s: &str| f.requires((s,)),
    ensures
        answers(*f, text@, r),
{
    let r = f(text);
    proof {
        assert(f.ensures((text,), r));
    }
    r
}

/// The name and program path of an application from its uninstall entry
/// (see `resolves_as`): the icon value, else a program in the install
/// folder, else one next to the uninstaller; the path must be a file.  The
/// file-system questions go to `path_exists`, `is_file`, `parent_of` (a
/// path's folder) and `find_exe` (a program for the application in a
/// folder).
pub fn resolve_uninstall_entry<
    E: Fn(&str) -> bool,
    G: Fn(&str) -> bool,
    P: Fn(&str) -> Option<String>,
    D: Fn(&str, &str) -> Option<String>,
>(app: &UninstallEntry, path_exists: &E, is_file: &G, parent_of: &P, find_exe: &D) -> (r: Option<
    (String, String),
>)
    requires
        app.icon matches Some(i) ==> registry_cut_ok(i@),
        app.uninstall matches Some(u) ==> registry_cut_ok(u@),
        forall|s: &str| path_exists.requires((s,)),
        forall|s: &str| is_file.requires((s,)),
        forall|s: &str| parent_of.requires((s,)),
        forall|d: &str, n: &str| find_exe.requires((d, n)),
    ensures
        exists|
            c1: Option<String>,
            a2: bool,
            f2: Option<Seq<char>>,
            c3: Option<String>,
            p3: Option<Seq<char>>,
            a3: bool,
            f3: Option<Seq<char>>,
            b: bool,
        |
            #[trigger] resolves_as(
                *app,
                *path_exists,
                *is_file,
                *parent_of,
                *find_exe,
                c1,
                a2,
                f2,
                c3,
                p3,
                a3,
                f3,
                b,
                pair_view(r),
            ),
{
    let ghost mut c1: Option<String> = None;
    let ghost mut a2: bool = false;
    let ghost mut f2: Option<Seq<char>> = None;
    let ghost mut c3: Option<String> = None;
    let ghost mut p3: Option<Seq<char>> = None;
    let ghost mut a3: bool = false;
    let ghost mut f3: Option<Seq<char>> = None;
    let ghost mut b: bool = false;
    let app_name = match &app.name {
        Some(n) => n,
        None => {
            proof {
                assert(resolves_as(*app, *path_exists, *is_file, *parent_of, *find_exe, c1, a2, f2, c3, p3, a3, f3, b, None));
            }
            return None;
        },
    };
    let nc = chars_of(app_name.as_str());
    if utf8_len_exec(nc.as_slice(), nc.len()) < 2 {
        proof {
            assert(nc@.take(nc@.len() as int) =~= nc@);
            assert(resolves_as(*app, *path_exists, *is_file, *parent_of, *find_exe, c1, a2, f2, c3, p3, a3, f3, b, None));
        }
        return None;
    }
    proof {
        assert(nc@.take(nc@.len() as int) =~= nc@);
    }
    let mut resolved: Option<String> = match &app.icon {
        Some(icon) => {
            let c = clean_registry_path(icon.as_str(), path_exists);
            proof {
                c1 = c;
            }
            c
        },
        None => None,
    };
    proof {
        if app.icon is None {
            c1 = None;
        }
    }
    if resolved.is_none() {
        match &app.location {
            Some(loc) => {
                let dir = install_dir_exec(loc.as_str());
                if dir.as_str().len() > 0 {
                    proof {
                        assert(dir@.len() > 0) by {
                            if dir@.len() == 0 {
                                assert(dir@ =~= Seq::<char>::empty());
                            }
                        }
                    }
                }
                let nonempty = chars_of(dir.as_str()).len() > 0;
                if nonempty {
                    let e = ask_str(path_exists, dir.as_str());
                    proof {
                        a2 = e;
                    }
                    if e {
                        let found = ask_exe(find_exe, dir.as_str(), app_name.as_str());
                        proof {
                            f2 = opt_str(found);
                        }
                        resolved = found;
                    }
                }
            },
            None => {},
        }
    }
    let ghost r2 = opt_str(resolved);
    assert(r2 == from_location(opt_str(c1), opt_str(app.location), a2, f2));
    if resolved.is_none() {
        match &app.uninstall {
            Some(un) => {
                let cleaned = clean_registry_path(un.as_str(), path_exists);
                proof {
                    c3 = cleaned;
                }
                match &cleaned {
                    Some(cl) => {
                        let parent = ask_parent(parent_of, cl.as_str());
                        proof {
                            p3 = opt_str(parent);
                        }
                        match &parent {
                            Some(pd) => {
                                let e = ask_str(path_exists, pd.as_str());
                                proof {
                                    a3 = e;
                                }
                                if e {
                                    let found = ask_exe(find_exe, pd.as_str(), app_name.as_str());
                                    proof {
                                        f3 = opt_str(found);
                                    }
                                    resolved = found;
                                }
                            },
                            None => {},
                        }
                    },
                    None => {},
                }
            },
            None => {},
        }
    }
    let ghost r3 = opt_str(resolved);
    assert(r3 == from_uninstaller(r2, opt_str(c3), p3, a3, f3));
    match resolved {
        Some(path) => {
            let ok = ask_str(is_file, path.as_str());
            proof {
                b = ok;
            }
            if ok {
                let r = Some((string_of(nc.as_slice()), path));
                proof {
                    assert(resolves_as(*app, *path_exists, *is_file, *parent_of, *find_exe, c1, a2, f2, c3, p3, a3, f3, b, Some((app_name@, r3->0))));
                }
                r
            } else {
                proof {
                    assert(resolves_as(*app, *path_exists, *is_file, *parent_of, *find_exe, c1, a2, f2, c3, p3, a3, f3, b, None));
                }
                None
            }
        },
        None => {
            proof {
                assert(resolves_as(*app, *path_exists, *is_file, *parent_of, *find_exe, c1, a2, f2, c3, p3, a3, f3, b, None));
            }
            None
        },
    }
}

/// Resolves an uninstall entry (see `resolve_uninstall_entry`) when its
/// registry values can be cut (see `registry_cut_ok`); `None` when one of
/// them cannot, on which the launcher's byte slicing could fail.
pub fn checked_resolve_uninstall_entry<
    E: Fn(&str) -> bool,
    G: Fn(&str) -> bool,
    P: Fn(&str) -> Option<String>,
    D: Fn(&str, &str) -> Option<String>,
>(app: &UninstallEntry, path_exists: &E, is_file: &G, parent_of: &P, find_exe: &D) -> (r: Option<
    Option<(String, String)>,
>)
    requires
        forall|s: &str| path_exists.requires((s,)),
        forall|s: &str| is_file.requires((s,)),
        forall|s: &str| parent_of.requires((s,)),
        forall|d: &str, n: &str| find_exe.requires((d, n)),
    ensures
        r is None <==> ((app.icon matches Some(i) && !registry_cut_ok(i@)) || (
        app.uninstall matches Some(u) && !registry_cut_ok(u@))),
        r matches Some(x) ==> exists|
            c1: Option<String>,
            a2: bool,
            f2: Option<Seq<char>>,
            c3: Option<String>,
            p3: Option<Seq<char>>,
            a3: bool,
            f3: Option<Seq<char>>,
            b: bool,
        |
            #[trigger] resolves_as(
                *app,
                *path_exists,
                *is_file,
                *parent_of,
                *find_exe,
                c1,
                a2,
                f2,
                c3,
                p3,
                a3,
                f3,
                b,
                pair_view(x),
            ),
{
    let icon_ok = match &app.icon {
        Some(i) => registry_cut_checks(i.as_str()),
        None => true,
    };
    let un_ok = match &app.uninstall {
        Some(u) => registry_cut_checks(u.as_str()),
        None => true,
    };
    if icon_ok && un_ok {
        Some(resolve_uninstall_entry(app, path_exists, is_file, parent_of, find_exe))
    } else {
        None
    }
}

// ---------------------------------------------------------------------------
// Laws of the index
// ---------------------------------------------------------------------------
/// Every entry kept is one of the first `n`.
proof fn lemma_first_per_path_from(s: Seq<(Seq<char>, Seq<char>, u8)>, n: int)
    requires
        0 <= n <= s.len(),
    ensures
        forall|k: int|
            0 <= k < first_per_path(s, n).len() ==> exists|j: int|
                0 <= j < n && s[j] == #[trigger] first_per_path(s, n)[k],
    decreases n,
{
    if n > 0 {
        lemma_first_per_path_from(s, n - 1);
        let prev = first_per_path(s, n - 1);
        let r = first_per_path(s, n);
        assert forall|k: int| 0 <= k < r.len() implies exists|j: int| 0 <= j < n && s[j] == #[trigger] r[k] by {
            if k < prev.len() {
                assert(r[k] == prev[k]);
                let j = choose|j: int| 0 <= j < n - 1 && s[j] == prev[k];
                assert(s[j] == r[k]);
            } else {
                assert(r[k] == s[n - 1]);
            }
        }
    }
}

/// After keeping one entry per path, no two entries share a path.
proof fn lemma_first_per_path_distinct(s: Seq<(Seq<char>, Seq<char>, u8)>, n: int)
    requires
        0 <= n <= s.len(),
    ensures
        forall|i: int, j: int|
            0 <= i < j < first_per_path(s, n).len() ==> (#[trigger] first_per_path(s, n)[i]).1
                != (#[trigger] first_per_path(s, n)[j]).1,
    decreases n,
{
    if n > 0 {
        lemma_first_per_path_distinct(s, n - 1);
        lemma_first_per_path_from(s, n - 1);
        let prev = first_per_path(s, n - 1);
        let r = first_per_path(s, n);
        let ps = entry_paths(s);
        if !ps.take(n - 1).contains(s[n - 1].1) {
            assert(r == prev.push(s[n - 1]));
            assert forall|i: int, j: int| 0 <= i < j < r.len() implies (#[trigger] r[i]).1 != (
            #[trigger] r[j]).1 by {
                assert(r[i] == prev[i]);
                if j == r.len() - 1 {
                    let m = choose|m: int| 0 <= m < n - 1 && s[m] == #[trigger] prev[i];
                    assert(ps.take(n - 1)[m] == s[m].1);
                } else {
                    assert(r[j] == prev[j]);
                }
            }
        }
    }
}

/// An entry whose path no earlier entry has is kept.
proof fn lemma_first_per_path_keeps_first(s: Seq<(Seq<char>, Seq<char>, u8)>, n: int)
    requires
        0 <= n <= s.len(),
    ensures
        forall|k: int|
            0 <= k < n && !entry_paths(s).take(k).contains(s[k].1) ==> first_per_path(
                s,
                n,
            ).contains(#[trigger] s[k]),
    decreases n,
{
    if n > 0 {
        lemma_first_per_path_keeps_first(s, n - 1);
        let prev = first_per_path(s, n - 1);
        let r = first_per_path(s, n);
        let ps = entry_paths(s);
        let seen = ps.take(n - 1).contains(s[n - 1].1);
        assert forall|k: int|
            0 <= k < n && !entry_paths(s).take(k).contains(s[k].1) implies r.contains(
            #[trigger] s[k],
        ) by {
            if k < n - 1 {
                let m = choose|m: int| 0 <= m < prev.len() && prev[m] == s[k];
                if !seen {
                    assert(r[m] == prev[m]);
                }
            } else {
                assert(ps.take(k) =~= ps.take(n - 1));
                assert(r[r.len() - 1] == s[k]);
            }
        }
    }
}

/// Every path of the first `n` entries keeps an entry.
proof fn lemma_first_per_path_covers(s: Seq<(Seq<char>, Seq<char>, u8)>, n: int)
    requires
        0 <= n <= s.len(),
    ensures
        forall|k: int|
            0 <= k < n ==> entry_paths(first_per_path(s, n)).contains(#[trigger] s[k].1),
    decreases n,
{
    if n > 0 {
        lemma_first_per_path_covers(s, n - 1);
        let prev = first_per_path(s, n - 1);
        let r = first_per_path(s, n);
        let ps = entry_paths(s);
        let seen = ps.take(n - 1).contains(s[n - 1].1);
        assert forall|k: int| 0 <= k < n implies entry_paths(r).contains(#[trigger] s[k].1) by {
            if k < n - 1 {
                let m = choose|m: int|
                    0 <= m < entry_paths(prev).len() && #[trigger] entry_paths(prev)[m] == s[k].1;
                if !seen {
                    assert(entry_paths(r)[m] == entry_paths(prev)[m]);
                }
            } else {
                if seen {
                    let m = choose|m: int| 0 <= m < n - 1 && #[trigger] ps.take(n - 1)[m] == s[k].1;
                    assert(s[m].1 == s[k].1);
                    let w = choose|w: int|
                        0 <= w < entry_paths(prev).len() && #[trigger] entry_paths(prev)[w] == s[m].1;
                    assert(entry_paths(r)[w] == s[k].1);
                } else {
                    assert(entry_paths(r)[r.len() - 1] == s[k].1);
                }
            }
        }
    }
}

/// After keeping one entry per path, no two entries share a path, and
/// every path of the index is still there, with its first entry.
pub proof fn law_one_entry_per_path(s: Seq<(Seq<char>, Seq<char>, u8)>)
    ensures
        forall|i: int, j: int|
            0 <= i < j < first_per_path(s, s.len() as int).len() ==> (#[trigger] first_per_path(
                s,
                s.len() as int,
            )[i]).1 != (#[trigger] first_per_path(s, s.len() as int)[j]).1,
        forall|k: int|
            0 <= k < s.len() && !entry_paths(s).take(k).contains(s[k].1) ==> first_per_path(
                s,
                s.len() as int,
            ).contains(#[trigger] s[k]),
        forall|k: int|
            0 <= k < s.len() ==> entry_paths(first_per_path(s, s.len() as int)).contains(
                #[trigger] s[k].1,
            ),
{
    lemma_first_per_path_distinct(s, s.len() as int);
    lemma_first_per_path_keeps_first(s, s.len() as int);
    lemma_first_per_path_covers(s, s.len() as int);
}

/// After merging a fresh scan: the fresh entries come last, in order; no
/// earlier entry has a path the fresh scan found or one that is gone; and
/// every other entry of the index is kept.
pub proof fn law_merge_replaces_and_drops(
    index: Seq<(Seq<char>, Seq<char>, u8)>,
    fresh: Seq<(Seq<char>, Seq<char>, u8)>,
    gone: Seq<Seq<char>>,
)
    ensures
        ({
            let m = merged(index, fresh, gone);
            &&& m.skip(m.len() - fresh.len()) == fresh
            &&& forall|k: int|
                0 <= k < m.len() - fresh.len() ==> !entry_paths(fresh).contains((#[trigger] m[k]).1)
                    && !gone.contains(m[k].1)
            &&& forall|k: int|
                0 <= k < index.len() && !entry_paths(fresh).contains(index[k].1) && !gone.contains(
                    index[k].1,
                ) ==> m.contains(#[trigger] index[k])
        }),
{
    let pred = |e: (Seq<char>, Seq<char>, u8)|
        !entry_paths(fresh).contains(e.1) && !gone.contains(e.1);
    let kept = index.filter(pred);
    let m = merged(index, fresh, gone);
    assert(m == kept + fresh);
    assert(m.skip(m.len() - fresh.len()) =~= fresh);
    assert forall|k: int| 0 <= k < m.len() - fresh.len() implies !entry_paths(fresh).contains(
        (#[trigger] m[k]).1,
    ) && !gone.contains(m[k].1) by {
        assert(m[k] == kept[k]);
        index.lemma_filter_pred(pred, k);
    }
    assert forall|k: int|
        0 <= k < index.len() && !entry_paths(fresh).contains(index[k].1) && !gone.contains(
            index[k].1,
        ) implies m.contains(#[trigger] index[k]) by {
        index.lemma_filter_contains(pred, k);
        let w = choose|w: int| 0 <= w < kept.len() && kept[w] == index[k];
        assert(m[w] == kept[w]);
    }
}

/// The paths of the application and shortcut entries of `index` that the
/// fresh scan did not find again (see `unconfirmed_app_paths`).
pub open spec fn unconfirmed_paths(
    index: Seq<(Seq<char>, Seq<char>, u8)>,
    fresh: Seq<(Seq<char>, Seq<char>, u8)>,
) -> Seq<Seq<char>> {
    entry_paths(
        index.filter(
            |e: (Seq<char>, Seq<char>, u8)|
                (e.2 == KIND_APP || e.2 == KIND_SHORTCUT) && !entry_paths(fresh).contains(e.1),
        ),
    )
}

/// A fast refresh, which merges a fresh scan with the unconfirmed paths
/// that are missing on disk as gone, drops an entry only when the scan
/// found its path again or when its path is that of an unconfirmed
/// application or shortcut missing on disk; every other entry stays, and
/// the fresh entries follow.
pub proof fn law_refresh_drops_only_missing_apps(
    index: Seq<(Seq<char>, Seq<char>, u8)>,
    fresh: Seq<(Seq<char>, Seq<char>, u8)>,
    exists_on_disk: spec_fn(Seq<char>) -> bool,
)
    ensures
        merged(
            index,
            fresh,
            unconfirmed_paths(index, fresh).filter(|p: Seq<char>| !exists_on_disk(p)),
        ) == index.filter(
            |e: (Seq<char>, Seq<char>, u8)|
                !entry_paths(fresh).contains(e.1) && !(unconfirmed_paths(index, fresh).contains(
                    e.1,
                ) && !exists_on_disk(e.1)),
        ) + fresh,
{
    let u = unconfirmed_paths(index, fresh);
    let missing = |p: Seq<char>| !exists_on_disk(p);
    let gone = u.filter(missing);
    assert forall|p: Seq<char>| gone.contains(p) <==> (u.contains(p) && !exists_on_disk(p)) by {
        if gone.contains(p) {
            u.lemma_filter_contains_rev(missing, p);
            let i = choose|i: int| 0 <= i < gone.len() && gone[i] == p;
            u.lemma_filter_pred(missing, i);
        }
        if u.contains(p) && !exists_on_disk(p) {
            let i = choose|i: int| 0 <= i < u.len() && u[i] == p;
            u.lemma_filter_contains(missing, i);
        }
    }
    let p1 = |e: (Seq<char>, Seq<char>, u8)| !entry_paths(fresh).contains(e.1) && !gone.contains(e.1);
    let p2 = |e: (Seq<char>, Seq<char>, u8)|
        !entry_paths(fresh).contains(e.1) && !(u.contains(e.1) && !exists_on_disk(e.1));
    assert(p1 =~= p2);
}

/// A value without `%` comes back unchanged, and refers to no variable.
pub proof fn law_plain_value_unchanged(v: Seq<char>, values: Seq<Option<Seq<char>>>)
    requires
        !v.contains('%'),
    ensures
        expand_from(v, 0, values, 0) == v,
        env_refs_from(v, 0).len() == 0,
{
    lemma_find_char(v, '%', 0);
    if find_char(v, '%', 0) is Some {
        let j = find_char(v, '%', 0)->0;
        assert(v[j] == '%');
    }
    assert(v.subrange(0, v.len() as int) =~= v);
}

/// Each reference to a variable that is set (with a non-empty name) is
/// replaced by its value: for a value made of a reference alone.
pub proof fn law_reference_replaced(name: Seq<char>, value: Seq<char>)
    requires
        name.len() > 0,
        !name.contains('%'),
    ensures
        ({
            let v = seq!['%'] + name + seq!['%'];
            &&& env_refs_from(v, 0) == seq![name]
            &&& expand_from(v, 0, seq![Some(value)], 0) == value
        }),
{
    let v = seq!['%'] + name + seq!['%'];
    let e: int = name.len() + 1int;
    assert(v[0] == '%');
    assert(find_char(v, '%', 0) == Some(0int));
    assert forall|k: int| 1 <= k < e implies #[trigger] v[k] != '%' by {
        assert(v[k] == name[k - 1]);
        if name[k - 1] == '%' {
            assert(name.contains('%'));
        }
    }
    lemma_find_char(v, '%', 1);
    assert(v[e] == '%');
    assert(find_char(v, '%', 1) == Some(e));
    assert(v.subrange(1, e) =~= name);
    assert(find_char(v, '%', e + 1) is None);
    assert(v.subrange(e + 1, v.len() as int) =~= Seq::<char>::empty());
    assert(v.subrange(0, 0) =~= Seq::<char>::empty());
    assert(env_refs_from(v, e + 1) =~= Seq::<Seq<char>>::empty());
    let vals = seq![Some(value)];
    assert(v.len() == e + 1);
    assert(env_refs_from(v, 0) == seq![v.subrange(1, e)] + env_refs_from(v, e + 1));
    assert(seq![name] + Seq::<Seq<char>>::empty() =~= seq![name]);
    assert(expand_from(v, e + 1, vals, 1) == v.subrange(e + 1, v.len() as int));
    assert(env_replacement(name, vals[0]) == value);
    assert(expand_from(v, 0, vals, 0) == v.subrange(0, 0) + env_replacement(v.subrange(1, e), vals[0])
        + expand_from(v, e + 1, vals, 1));
    assert(Seq::<char>::empty() + value + Seq::<char>::empty() =~= value);
}

/// Adding one item at the end of a sequence adds it to its set.
proof fn lemma_push_to_set<A>(s: Seq<A>, x: A)
    ensures
        s.push(x).to_set() == s.to_set().insert(x),
{
    assert forall|a: A| #[trigger] s.push(x).to_set().contains(a) == s.to_set().insert(x).contains(a) by {
        if s.push(x).contains(a) {
            let i = choose|i: int| 0 <= i < s.push(x).len() && s.push(x)[i] == a;
            if i < s.len() {
                assert(s[i] == a);
            }
        }
        if s.contains(a) {
            let i = choose|i: int| 0 <= i < s.len() && s[i] == a;
            assert(s.push(x)[i] == a);
        }
        if a == x {
            assert(s.push(x)[s.len() as int] == x);
        }
    }
    assert(s.push(x).to_set() =~= s.to_set().insert(x));
}

} // verus!
