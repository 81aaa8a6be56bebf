//! Icons for results: a bounded cache of rendered icons with
//! least-recently-used eviction, the choice of which files get an icon, and
//! the conversion of a rendered bitmap into PNG bytes.
//!
//! Drawing the icon with the system's shell and GDI calls, and resolving a
//! shortcut's target, are done by the caller and handed in.
use vstd::prelude::*;

use crate::index::{
    extension_lower, extension_spec, lower_ext,
};
use crate::text::{
    chars_of, seq_ends_with, str_eq, str_to_lowercase, string_of, to_lowercase,
};

verus! {

/// How many icons the cache keeps.
pub const MAX_ICON_CACHE_SIZE: usize = 100;

/// Width and height of a rendered icon, in pixels.
pub const ICON_SIZE: u32 = 64;

// ---------------------------------------------------------------------------
// The cache
// ---------------------------------------------------------------------------
/// Rendered icons by path, most recently used first.
pub struct IconCache {
    entries: Vec<(String, Vec<u8>)>,
}

/// The cache as `(path, png bytes)` pairs, most recently used first.
pub type CacheView = Seq<(Seq<char>, Seq<u8>)>;

impl View for IconCache {
    type V = CacheView;

    closed spec fn view(&self) -> CacheView {
        self.entries@.map_values(|e: (String, Vec<u8>)| (e.0@, e.1@))
    }
}

/// A well-formed cache: no path twice, at most `MAX_ICON_CACHE_SIZE` icons.
pub open spec fn cache_ok(v: CacheView) -> bool {
    &&& v.len() <= MAX_ICON_CACHE_SIZE
    &&& forall|i: int, j: int| 0 <= i < j < v.len() ==> #[trigger] v[i].0 != #[trigger] v[j].0
}

/// Whether the cache holds an icon for `key`.
pub open spec fn has_key(v: CacheView, key: Seq<char>) -> bool {
    exists|i: int| 0 <= i < v.len() && #[trigger] v[i].0 == key
}

/// The position of `key` in the cache (meaningful when `has_key`).
pub open spec fn key_pos(v: CacheView, key: Seq<char>) -> int {
    choose|i: int| 0 <= i < v.len() && #[trigger] v[i].0 == key
}

/// The icon cached for `key`, if any.
pub open spec fn lookup(v: CacheView, key: Seq<char>) -> Option<Seq<u8>> {
    if has_key(v, key) {
        Some(v[key_pos(v, key)].1)
    } else {
        None
    }
}

/// The cache after `key` was used: its entry moved to the front.
pub open spec fn touched(v: CacheView, key: Seq<char>) -> CacheView {
    if has_key(v, key) {
        seq![v[key_pos(v, key)]] + v.remove(key_pos(v, key))
    } else {
        v
    }
}

/// The cache after storing `value` for `key`: the new entry goes to the
/// front; an older entry for the same key is dropped, and otherwise, when
/// the cache is full, the least recently used entry (the last) is evicted.
pub open spec fn cache_insert(v: CacheView, key: Seq<char>, value: Seq<u8>) -> CacheView {
    if has_key(v, key) {
        seq![(key, value)] + v.remove(key_pos(v, key))
    } else if v.len() >= MAX_ICON_CACHE_SIZE {
        seq![(key, value)] + v.drop_last()
    } else {
        seq![(key, value)] + v
    }
}

fn copy_bytes(b: &Vec<u8>) -> (r: Vec<u8>)
    ensures
        r@ == b@,
{
    let mut r: Vec<u8> = Vec::new();
    let mut i: usize = 0;
    while i < b.len()
        invariant
            i <= b@.len(),
            r@ == b@.take(i as int),
        decreases b@.len() - i,
    {
        r.push(b[i]);
        proof {
            assert(r@ =~= b@.take(i + 1));
        }
        i = i + 1;
    }
    proof {
        assert(b@.take(i as int) =~= b@);
    }
    r
}

/// With distinct keys, the position of a key found at `i` is `i`.
proof fn lemma_key_pos(v: CacheView, key: Seq<char>, i: int)
    requires
        cache_ok(v),
        0 <= i < v.len(),
        v[i].0 == key,
    ensures
        has_key(v, key),
        key_pos(v, key) == i,
{
    assert(has_key(v, key));
    let j = key_pos(v, key);
    if j != i {
        if j < i {
            assert(v[j].0 != v[i].0);
        } else {
            assert(v[i].0 != v[j].0);
        }
    }
}

/// Moving one entry to the front keeps the keys distinct.
proof fn lemma_front_ok(v: CacheView, e: (Seq<char>, Seq<u8>), rest: CacheView)
    requires
        forall|i: int, j: int| 0 <= i < j < rest.len() ==> #[trigger] rest[i].0 != #[trigger] rest[j].0,
        forall|i: int| 0 <= i < rest.len() ==> #[trigger] rest[i].0 != e.0,
        rest.len() < MAX_ICON_CACHE_SIZE,
        v == seq![e] + rest,
    ensures
        cache_ok(v),
{
    assert forall|i: int, j: int| 0 <= i < j < v.len() implies #[trigger] v[i].0 != #[trigger] v[j].0 by {
        if i == 0 {
            assert(v[j] == rest[j - 1]);
        } else {
            assert(v[i] == rest[i - 1]);
            assert(v[j] == rest[j - 1]);
        }
    }
}

impl IconCache {
    /// An empty cache.
    pub fn new() -> (r: Self)
        ensures
            r@ == Seq::<(Seq<char>, Seq<u8>)>::empty(),
            cache_ok(r@),
    {
        let r = IconCache { entries: Vec::new() };
        proof {
            assert(r@ =~= Seq::<(Seq<char>, Seq<u8>)>::empty());
        }
        r
    }

    /// The position of `key`, if cached.
    fn find(&self, key: &str) -> (r: Option<usize>)
        requires
            cache_ok(self@),
        ensures
            match r {
                Some(i) => i < self@.len() && has_key(self@, key@) && key_pos(self@, key@) == i,
                None => !has_key(self@, key@),
            },
    {
        let mut i: usize = 0;
        while i < self.entries.len()
            invariant
                i <= self.entries@.len(),
                cache_ok(self@),
                self@.len() == self.entries@.len(),
                forall|k: int| 0 <= k < i ==> #[trigger] self@[k].0 != key@,
            decreases self.entries@.len() - i,
        {
            if str_eq(self.entries[i].0.as_str(), key) {
                proof {
                    assert(self@[i as int].0 == key@);
                    lemma_key_pos(self@, key@, i as int);
                }
                return Some(i);
            }
            proof {
                assert(self@[i as int].0 == self.entries@[i as int].0@);
            }
            i = i + 1;
        }
        None
    }

    /// The cached icon for `key`, marking it as just used.
    pub fn get(&mut self, key: &str) -> (r: Option<Vec<u8>>)
        requires
            cache_ok(old(self)@),
        ensures
            cache_ok(final(self)@),
            match r {
                Some(b) => lookup(old(self)@, key@) == Some(b@),
                None => lookup(old(self)@, key@) is None,
            },
            final(self)@ == touched(old(self)@, key@),
    {
        let ghost v = self@;
        match self.find(key) {
            None => None,
            Some(i) => {
                let e = self.entries.remove(i);
                let value = copy_bytes(&e.1);
                let ghost ev = (e.0@, e.1@);
                proof {
                    assert(ev == v[i as int]);
                }
                self.entries.insert(0, e);
                proof {
                    assert(self@ =~= seq![v[i as int]] + v.remove(i as int));
                    let rest = v.remove(i as int);
                    assert forall|a: int| 0 <= a < rest.len() implies #[trigger] rest[a].0 != ev.0 by {
                        if a < i {
                            assert(rest[a] == v[a]);
                        } else {
                            assert(rest[a] == v[a + 1]);
                        }
                    }
                    assert forall|a: int, b: int| 0 <= a < b < rest.len() implies #[trigger] rest[a].0
                        != #[trigger] rest[b].0 by {
                        let a2 = if a < i { a } else { a + 1 };
                        let b2 = if b < i { b } else { b + 1 };
                        assert(rest[a] == v[a2]);
                        assert(rest[b] == v[b2]);
                    }
                    lemma_front_ok(self@, ev, rest);
                }
                Some(value)
            },
        }
    }

    /// Stores the icon for `key` (see `cache_insert`).
    pub fn insert(&mut self, key: String, value: Vec<u8>)
        requires
            cache_ok(old(self)@),
        ensures
            cache_ok(final(self)@),
            final(self)@ == cache_insert(old(self)@, key@, value@),
    {
        let ghost v = self@;
        let ghost ev = (key@, value@);
        let ghost rest: CacheView;
        match self.find(key.as_str()) {
            Some(i) => {
                self.entries.remove(i);
                proof {
                    rest = v.remove(i as int);
                    assert(self@ =~= rest);
                    assert forall|a: int| 0 <= a < rest.len() implies #[trigger] rest[a].0 != ev.0 by {
                        if a < i {
                            assert(rest[a] == v[a]);
                            assert(v[a].0 != v[i as int].0);
                        } else {
                            assert(rest[a] == v[a + 1]);
                            assert(v[i as int].0 != v[a + 1].0);
                        }
                    }
                    assert forall|a: int, b: int| 0 <= a < b < rest.len() implies #[trigger] rest[a].0
                        != #[trigger] rest[b].0 by {
                        let a2 = if a < i { a } else { a + 1 };
                        let b2 = if b < i { b } else { b + 1 };
                        assert(rest[a] == v[a2]);
                        assert(rest[b] == v[b2]);
                    }
                }
            },
            None => {
                if self.entries.len() >= MAX_ICON_CACHE_SIZE {
                    self.entries.pop();
                    proof {
                        rest = v.drop_last();
                        assert(self@ =~= rest);
                    }
                } else {
                    proof {
                        rest = v;
                    }
                }
                proof {
                    assert forall|a: int| 0 <= a < rest.len() implies #[trigger] rest[a].0 != ev.0 by {
                        assert(rest[a] == v[a]);
                    }
                    assert forall|a: int, b: int| 0 <= a < b < rest.len() implies #[trigger] rest[a].0
                        != #[trigger] rest[b].0 by {
                        assert(rest[a] == v[a]);
                        assert(rest[b] == v[b]);
                    }
                }
            },
        }
        self.entries.insert(0, (key, value));
        proof {
            assert(self@ =~= seq![ev] + rest);
            lemma_front_ok(self@, ev, rest);
        }
    }
}

// ---------------------------------------------------------------------------
// Laws of the cache
// ---------------------------------------------------------------------------
/// Reading a key right after storing it gives the stored icon.
pub proof fn law_get_after_insert(v: CacheView, key: Seq<char>, value: Seq<u8>)
    requires
        cache_ok(v),
    ensures
        lookup(cache_insert(v, key, value), key) == Some(value),
{
    let w = cache_insert(v, key, value);
    law_insert_keeps_bound(v, key, value);
    assert(w[0] == (key, value));
    lemma_key_pos(w, key, 0);
}

/// Storing an icon never makes the cache exceed its bound, and keeps its
/// keys distinct.
pub proof fn law_insert_keeps_bound(v: CacheView, key: Seq<char>, value: Seq<u8>)
    requires
        cache_ok(v),
    ensures
        cache_ok(cache_insert(v, key, value)),
        cache_insert(v, key, value).len() <= MAX_ICON_CACHE_SIZE,
{
    let w = cache_insert(v, key, value);
    let rest: CacheView = if has_key(v, key) {
        v.remove(key_pos(v, key))
    } else if v.len() >= MAX_ICON_CACHE_SIZE {
        v.drop_last()
    } else {
        v
    };
    assert(w =~= seq![(key, value)] + rest);
    if has_key(v, key) {
        let i = key_pos(v, key);
        assert forall|a: int| 0 <= a < rest.len() implies #[trigger] rest[a].0 != key by {
            if a < i {
                assert(rest[a] == v[a]);
                assert(v[a].0 != v[i].0);
            } else {
                assert(rest[a] == v[a + 1]);
                assert(v[i].0 != v[a + 1].0);
            }
        }
        assert forall|a: int, b: int| 0 <= a < b < rest.len() implies #[trigger] rest[a].0
            != #[trigger] rest[b].0 by {
            let a2 = if a < i { a } else { a + 1 };
            let b2 = if b < i { b } else { b + 1 };
            assert(rest[a] == v[a2]);
            assert(rest[b] == v[b2]);
        }
    } else {
        assert forall|a: int| 0 <= a < rest.len() implies #[trigger] rest[a].0 != key by {
            assert(rest[a] == v[a]);
        }
        assert forall|a: int, b: int| 0 <= a < b < rest.len() implies #[trigger] rest[a].0
            != #[trigger] rest[b].0 by {
            assert(rest[a] == v[a]);
            assert(rest[b] == v[b]);
        }
    }
    lemma_front_ok(w, (key, value), rest);
}

/// Storing an icon for one key leaves every other key's icon alone, except
/// the least recently used one when a new key arrives in a full cache.
pub proof fn law_insert_keeps_others(v: CacheView, key: Seq<char>, value: Seq<u8>, other: Seq<char>)
    requires
        cache_ok(v),
        other != key,
        !has_key(v, key) && v.len() >= MAX_ICON_CACHE_SIZE ==> other != v.last().0,
    ensures
        lookup(cache_insert(v, key, value), other) == lookup(v, other),
{
    let w = cache_insert(v, key, value);
    law_insert_keeps_bound(v, key, value);
    let rest: CacheView = if has_key(v, key) {
        v.remove(key_pos(v, key))
    } else if v.len() >= MAX_ICON_CACHE_SIZE {
        v.drop_last()
    } else {
        v
    };
    assert(w =~= seq![(key, value)] + rest);
    let ki = if has_key(v, key) { key_pos(v, key) } else { v.len() as int };
    // Position in `v` of the element at position `a` of `rest`.
    if has_key(v, other) {
        let i = key_pos(v, other);
        assert(i != ki || !has_key(v, key));
        let a: int = if has_key(v, key) && i > ki { i - 1 } else { i };
        if !has_key(v, key) && v.len() >= MAX_ICON_CACHE_SIZE {
            assert(i != v.len() - 1);
        }
        assert(0 <= a < rest.len());
        assert(rest[a] == v[i]);
        assert(w[a + 1] == v[i]);
        lemma_key_pos(w, other, a + 1);
    } else {
        if has_key(w, other) {
            let j = key_pos(w, other);
            assert(j != 0);
            let a = j - 1;
            let i: int = if has_key(v, key) && a >= ki { a + 1 } else { a };
            assert(rest[a] == v[i]);
            assert(v[i].0 == other);
        }
    }
}

// ---------------------------------------------------------------------------
// Which files get an icon, and where it comes from
// ---------------------------------------------------------------------------
/// Whether the file at `path` gets a rendered icon: its extension,
/// lowercased, is `exe` or `lnk`.
pub open spec fn wants_icon(path: Seq<char>) -> bool {
    lower_ext(extension_spec(path)) == "exe"@ || lower_ext(extension_spec(path)) == "lnk"@
}

/// Whether the precomputation of icons has finished: never, unless a flag
/// is there and set.
pub fn is_precache_done(done: Option<&std::sync::atomic::AtomicBool>) -> (r: bool)
    ensures
        done is None ==> !r,
{
    match done {
        Some(flag) => flag.load(std::sync::atomic::Ordering::Relaxed),
        None => false,
    }
}

/// The icon for `path` as PNG bytes: none unless `wants_icon(path)`; the
/// cached one when there is one (marking it used); else what `render` gives
/// for the path, which is then cached when there is one.
pub fn get_icon_png_data<F: Fn(&str) -> Option<Vec<u8>>>(
    cache: &mut IconCache,
    path: &str,
    render: F,
) -> (r: Option<Vec<u8>>)
    requires
        cache_ok(old(cache)@),
        forall|p: &str| render.requires((p,)),
    ensures
        cache_ok(final(cache)@),
        !wants_icon(path@) ==> r is None && final(cache)@ == old(cache)@,
        wants_icon(path@) && has_key(old(cache)@, path@) ==> r is Some && Some(r->0@) == lookup(
            old(cache)@,
            path@,
        ) && final(cache)@ == touched(old(cache)@, path@),
        wants_icon(path@) && !has_key(old(cache)@, path@) ==> render.ensures((path,), r) && match r {
            Some(b) => final(cache)@ == cache_insert(old(cache)@, path@, b@),
            None => final(cache)@ == old(cache)@,
        },
{
    let ext = extension_lower(path);
    if !str_eq(ext.as_str(), "exe") && !str_eq(ext.as_str(), "lnk") {
        return None;
    }
    match cache.get(path) {
        Some(cached) => {
            return Some(cached);
        },
        None => {},
    }
    proof {
        assert(touched(old(cache)@, path@) == old(cache)@);
    }
    let result = render(path);
    match &result {
        Some(bytes) => {
            cache.insert(string_of(chars_of(path).as_slice()), copy_bytes(bytes));
        },
        None => {},
    }
    result
}

/// Whether a path names a shortcut: it ends with `.lnk`, in any case.
pub open spec fn is_lnk_path(path: Seq<char>) -> bool {
    seq_ends_with(str_to_lowercase(path), ".lnk"@)
}

/// The file whose icon is drawn for `path`: for a shortcut, its target as
/// `resolve` finds it, or the shortcut itself when that fails; else `path`.
pub fn icon_source<F: Fn(&str) -> Option<String>>(path: &str, resolve: F) -> (r: String)
    requires
        forall|p: &str| resolve.requires((p,)),
    ensures
        !is_lnk_path(path@) ==> r@ == path@,
        is_lnk_path(path@) ==> exists|t: Option<String>|
            resolve.ensures((path,), t) && r@ == match t {
                Some(s) => s@,
                None => path@,
            },
{
    let lower = to_lowercase(path);
    let l = chars_of(lower.as_str());
    let suffix = chars_of(".lnk");
    proof {
        reveal_strlit(".lnk");
    }
    if crate::text::chars_ends_with(l.as_slice(), suffix.as_slice()) {
        let t = resolve(path);
        match t {
            Some(s) => {
                let ghost tv = Some(s);
                proof {
                    assert(resolve.ensures((path,), tv));
                }
                s
            },
            None => {
                proof {
                    assert(resolve.ensures((path,), None::<String>));
                }
                string_of(chars_of(path).as_slice())
            },
        }
    } else {
        string_of(chars_of(path).as_slice())
    }
}

/// UTF-16 decoding with replacement: a high surrogate followed by a low
/// surrogate is one supplementary character, any other surrogate becomes
/// U+FFFD, and every other unit is the character of the same number.
pub open spec fn utf16_lossy(units: Seq<u16>) -> Seq<char>
    decreases units.len(),
{
    if units.len() == 0 {
        Seq::empty()
    } else {
        let u = units[0];
        if 0xD800 <= u < 0xDC00 && units.len() > 1 && 0xDC00 <= units[1] < 0xE000 {
            let c = (0x10000 + (u - 0xD800) * 0x400 + (units[1] - 0xDC00)) as char;
            seq![c] + utf16_lossy(units.subrange(2, units.len() as int))
        } else if 0xD800 <= u < 0xE000 {
            seq!['\u{FFFD}'] + utf16_lossy(units.subrange(1, units.len() as int))
        } else {
            seq![u as char] + utf16_lossy(units.subrange(1, units.len() as int))
        }
    }
}

/// Whether `x` is the number of a character: not a surrogate, and at most
/// `0x10FFFF`.
pub open spec fn is_scalar(x: u32) -> bool {
    x < 0xD800 || (0xE000 <= x && x <= 0x10FFFF)
}

/// `char::from_u32`, which std documents as giving the character numbered
/// `i`, or none when `i` is a surrogate or above `0x10FFFF`.
pub assume_specification[ core::char::from_u32 ](i: u32) -> (r: Option<char>)
    ensures
        r == (if is_scalar(i) {
            Some(i as char)
        } else {
            None
        }),
;

/// The text of UTF-16 units, decoded as `utf16_lossy` says.
fn decode_utf16_lossy(units: &[u16]) -> (r: Vec<char>)
    ensures
        r@ == utf16_lossy(units@),
{
    let n = units.len();
    let mut out: Vec<char> = Vec::new();
    let mut i: usize = 0;
    proof {
        assert(units@.subrange(0, n as int) =~= units@);
    }
    while i < n
        invariant
            i <= n == units@.len(),
            out@ + utf16_lossy(units@.subrange(i as int, n as int)) == utf16_lossy(units@),
        decreases n - i,
    {
        let ghost rest = units@.subrange(i as int, n as int);
        let u = units[i];
        proof {
            assert(rest[0] == u);
        }
        if 0xD800 <= u && u < 0xDC00 && i + 1 < n && 0xDC00 <= units[i + 1] && units[i + 1] < 0xE000 {
            let lo = units[i + 1];
            let x: u32 = 0x10000 + ((u - 0xD800) as u32) * 0x400 + ((lo - 0xDC00) as u32);
            proof {
                assert(rest[1] == lo);
                assert(rest.subrange(2, rest.len() as int) =~= units@.subrange(i + 2, n as int));
                assert(is_scalar(x));
            }
            match core::char::from_u32(x) {
                Some(c) => {
                    out.push(c);
                },
                None => {},
            }
            proof {
                assert(out@ + utf16_lossy(units@.subrange(i + 2, n as int)) =~= utf16_lossy(units@));
            }
            i = i + 2;
        } else if 0xD800 <= u && u < 0xE000 {
            out.push('\u{FFFD}');
            proof {
                assert(rest.subrange(1, rest.len() as int) =~= units@.subrange(i + 1, n as int));
                assert(out@ + utf16_lossy(units@.subrange(i + 1, n as int)) =~= utf16_lossy(units@));
            }
            i = i + 1;
        } else {
            proof {
                assert(is_scalar(u as u32));
            }
            match core::char::from_u32(u as u32) {
                Some(c) => {
                    out.push(c);
                },
                None => {},
            }
            proof {
                assert(rest.subrange(1, rest.len() as int) =~= units@.subrange(i + 1, n as int));
                assert(out@ + utf16_lossy(units@.subrange(i + 1, n as int)) =~= utf16_lossy(units@));
            }
            i = i + 1;
        }
    }
    proof {
        assert(units@.subrange(n as int, n as int) =~= Seq::<u16>::empty());
        assert(out@ + Seq::<char>::empty() =~= out@);
    }
    out
}

/// `s` without its trailing NUL characters.
pub open spec fn trim_nuls(s: Seq<char>) -> Seq<char>
    decreases s.len(),
{
    if s.len() > 0 && s.last() == '\0' {
        trim_nuls(s.drop_last())
    } else {
        s
    }
}

/// The target path a shortcut query wrote into `buf`: the buffer decoded
/// from UTF-16, trailing NULs removed; none when nothing is left.
pub fn lnk_target_text(buf: &[u16]) -> (r: Option<String>)
    ensures
        match r {
            Some(s) => s@ == trim_nuls(utf16_lossy(buf@)) && s@.len() > 0,
            None => trim_nuls(utf16_lossy(buf@)).len() == 0,
        },
{
    let c = decode_utf16_lossy(buf);
    let mut n: usize = c.len();
    proof {
        assert(c@.take(n as int) =~= c@);
    }
    while n > 0 && c[n - 1] == '\0'
        invariant
            n <= c@.len(),
            trim_nuls(c@.take(n as int)) == trim_nuls(c@),
        decreases n,
    {
        proof {
            assert(c@.take(n as int).drop_last() =~= c@.take(n - 1));
        }
        n = n - 1;
    }
    proof {
        if n > 0 {
            assert(c@.take(n as int).last() == c@[n - 1]);
        }
        assert(trim_nuls(c@.take(n as int)) == c@.take(n as int));
    }
    if n == 0 {
        return None;
    }
    let mut v: Vec<char> = Vec::new();
    let mut i: usize = 0;
    while i < n
        invariant
            i <= n <= c@.len(),
            v@ == c@.take(i as int),
        decreases n - i,
    {
        v.push(c[i]);
        proof {
            assert(v@ =~= c@.take(i + 1));
        }
        i = i + 1;
    }
    Some(string_of(v.as_slice()))
}

// ---------------------------------------------------------------------------
// From a rendered bitmap to PNG bytes
// ---------------------------------------------------------------------------
/// Whether any pixel of a BGRA bitmap has a non-zero alpha byte.
pub open spec fn any_alpha(raw: Seq<u8>) -> bool {
    exists|i: int| 0 <= i < raw.len() && i % 4 == 3 && #[trigger] raw[i] != 0
}

/// A BGRA bitmap as RGBA: blue and red swapped; the alpha kept when some
/// pixel has alpha, else every pixel made opaque (icons drawn without an
/// alpha channel).
pub open spec fn rgba_of(raw: Seq<u8>) -> Seq<u8> {
    Seq::new(
        raw.len(),
        |i: int|
            if i % 4 == 0 {
                raw[i + 2]
            } else if i % 4 == 1 {
                raw[i]
            } else if i % 4 == 2 {
                raw[i - 2]
            } else if any_alpha(raw) {
                raw[i]
            } else {
                255u8
            },
    )
}

/// Converts a BGRA bitmap (whole pixels) to RGBA (see `rgba_of`).
pub fn bgra_to_rgba(raw: &[u8]) -> (r: Vec<u8>)
    requires
        raw@.len() % 4 == 0,
    ensures
        r@ == rgba_of(raw@),
{
    let n = raw.len();
    let npix = n / 4;
    let mut has_alpha = false;
    let mut p: usize = 0;
    while p < npix
        invariant
            npix == n / 4,
            n == raw@.len(),
            n % 4 == 0,
            p <= npix,
            has_alpha == exists|q: int| 0 <= q < p && #[trigger] raw@[4 * q + 3] != 0,
        decreases npix - p,
    {
        if raw[4 * p + 3] != 0 {
            has_alpha = true;
        }
        proof {
            if has_alpha {
                if raw@[4 * p + 3] == 0 {
                    let q = choose|q: int| 0 <= q < p && #[trigger] raw@[4 * q + 3] != 0;
                    assert(0 <= q < p + 1 && raw@[4 * q + 3] != 0);
                } else {
                    assert(0 <= p < p + 1 && raw@[4 * p + 3] != 0);
                }
            } else {
                assert forall|q: int| 0 <= q < p + 1 implies #[trigger] raw@[4 * q + 3] == 0 by {
                    if q < p {
                        assert(!(raw@[4 * q + 3] != 0));
                    }
                }
            }
        }
        p = p + 1;
    }
    proof {
        if has_alpha {
            let q = choose|q: int| 0 <= q < npix && #[trigger] raw@[4 * q + 3] != 0;
            assert((4 * q + 3) % 4 == 3);
            assert(0 <= 4 * q + 3 < raw@.len() && (4 * q + 3) % 4 == 3 && raw@[4 * q + 3] != 0);
        } else {
            assert forall|i: int| 0 <= i < raw@.len() && i % 4 == 3 implies !(#[trigger] raw@[i]
                != 0) by {
                let q = i / 4;
                assert(i == 4 * q + 3);
                assert(0 <= q < npix);
                assert(!(raw@[4 * q + 3] != 0));
            }
        }
        assert(has_alpha == any_alpha(raw@));
    }
    let mut out: Vec<u8> = Vec::new();
    let mut k: usize = 0;
    while k < npix
        invariant
            npix == n / 4,
            n == raw@.len(),
            n % 4 == 0,
            k <= npix,
            has_alpha == any_alpha(raw@),
            out@ == rgba_of(raw@).take(4 * k as int),
        decreases npix - k,
    {
        let b = raw[4 * k];
        let g = raw[4 * k + 1];
        let r = raw[4 * k + 2];
        let a = if has_alpha {
            raw[4 * k + 3]
        } else {
            255u8
        };
        out.push(r);
        out.push(g);
        out.push(b);
        out.push(a);
        proof {
            let base = 4 * k as int;
            assert(base % 4 == 0);
            assert((base + 1) % 4 == 1);
            assert((base + 2) % 4 == 2);
            assert((base + 3) % 4 == 3);
            assert(out@ =~= rgba_of(raw@).take(base + 4));
        }
        k = k + 1;
    }
    proof {
        assert(rgba_of(raw@).take(4 * npix as int) =~= rgba_of(raw@));
    }
    out
}

/// The bytes of an 8-bit RGBA PNG of `width` by `height` pixels that the
/// `png` encoder writes for `pixels` with fast compression.
pub uninterp spec fn png_rgba8(pixels: Seq<u8>, width: u32, height: u32) -> Seq<u8>;

/// Encodes pixels with `png::Encoder` (8-bit RGBA, fast compression),
/// ignoring encoder errors as the launcher does: whatever was written stays.
/// The output is named by `png_rgba8`; the encoding is not restated.
/// Only the icon size is admitted: for very large dimensions the encoder's
/// buffer-size product overflows and panics.
#[verifier::external_body]
fn encode_png(pixels: &[u8], width: u32, height: u32) -> (r: Vec<u8>)
    requires
        width == ICON_SIZE,
        height == ICON_SIZE,
    ensures
        r@ == png_rgba8(pixels@, width, height),
{
    let mut png_data: Vec<u8> = Vec::new();
    {
        let mut encoder = png::Encoder::new(&mut png_data, width, height);
        encoder.set_color(png::ColorType::Rgba);
        encoder.set_depth(png::BitDepth::Eight);
        encoder.set_compression(png::Compression::Fast);
        if let Ok(mut writer) = encoder.write_header() {
            let _ = writer.write_image_data(pixels);
        }
    }
    png_data
}

/// The PNG for a rendered icon bitmap (BGRA, `ICON_SIZE` square): the
/// pixels converted with `rgba_of`, then encoded.
pub fn icon_png(raw: &[u8]) -> (r: Vec<u8>)
    requires
        raw@.len() % 4 == 0,
    ensures
        r@ == png_rgba8(rgba_of(raw@), ICON_SIZE, ICON_SIZE),
{
    let rgba = bgra_to_rgba(raw);
    encode_png(rgba.as_slice(), ICON_SIZE, ICON_SIZE)
}

} // verus!
