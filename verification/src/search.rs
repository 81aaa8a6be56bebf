//! Ranking index entries against a query: exact, prefix and substring
//! matches of the query and its keyboard-layout / transliteration variants,
//! then typo-tolerant (edit distance) matches.
use vstd::prelude::*;

use crate::index::{
    display_spec, entry_to_result, extension_lower, extension_spec, file_name_or_empty, kind_name,
    lower_ext, KIND_APP, KIND_SHORTCUT, ScoreKey, SearchEntry, SearchResult,
};
use crate::text::{
    chars_contains, chars_eq, chars_of, chars_starts_with, seq_contains, seq_starts_with, str_eq,
    str_to_lowercase, to_lowercase,
};

verus! {

// ---------------------------------------------------------------------------
// Edit distance
// ---------------------------------------------------------------------------
pub open spec fn min2(x: nat, y: nat) -> nat {
    if x <= y {
        x
    } else {
        y
    }
}

/// Edit distance (insertions, deletions, substitutions) between the first
/// `i` characters of `a` and the first `j` characters of `b`.
pub open spec fn ed(a: Seq<char>, b: Seq<char>, i: nat, j: nat) -> nat
    decreases i + j,
{
    if i == 0 {
        j
    } else if j == 0 {
        i
    } else {
        let cost: nat = if a[i - 1] == b[j - 1] {
            0
        } else {
            1
        };
        min2(
            min2(ed(a, b, (i - 1) as nat, j) + 1, ed(a, b, i, (j - 1) as nat) + 1),
            ed(a, b, (i - 1) as nat, (j - 1) as nat) + cost,
        )
    }
}

/// Levenshtein distance between `a` and `b`.
pub open spec fn lev(a: Seq<char>, b: Seq<char>) -> nat {
    ed(a, b, a.len(), b.len())
}

/// The distance when it is at most `max`.
pub open spec fn lev_within(a: Seq<char>, b: Seq<char>, max: nat) -> Option<nat> {
    if lev(a, b) <= max {
        Some(lev(a, b))
    } else {
        None
    }
}

/// The distance is at least the difference of the lengths and at most the
/// larger length.
proof fn lemma_ed_bounds(a: Seq<char>, b: Seq<char>, i: nat, j: nat)
    ensures
        ed(a, b, i, j) >= i - j,
        ed(a, b, i, j) >= j - i,
        ed(a, b, i, j) <= if i >= j {
            i
        } else {
            j
        },
    decreases i + j,
{
    if i > 0 && j > 0 {
        lemma_ed_bounds(a, b, (i - 1) as nat, j);
        lemma_ed_bounds(a, b, i, (j - 1) as nat);
        lemma_ed_bounds(a, b, (i - 1) as nat, (j - 1) as nat);
    }
}

/// When a whole row of the distance table exceeds `max`, the next row does
/// too.
proof fn lemma_next_row_exceeds(a: Seq<char>, b: Seq<char>, i: nat, m: nat, max: nat, j: nat)
    requires
        forall|k: nat| k <= m ==> #[trigger] ed(a, b, i, k) > max,
        j <= m,
    ensures
        ed(a, b, i + 1, j) > max,
    decreases j,
{
    if j > 0 {
        lemma_next_row_exceeds(a, b, i, m, max, (j - 1) as nat);
        assert(ed(a, b, i, j) > max);
        assert(ed(a, b, i, (j - 1) as nat) > max);
    } else {
        assert(ed(a, b, i, 0) > max);
    }
}

/// When a whole row exceeds `max`, so does every later row.
proof fn lemma_rows_exceed(a: Seq<char>, b: Seq<char>, i: nat, n: nat, m: nat, max: nat)
    requires
        forall|k: nat| k <= m ==> #[trigger] ed(a, b, i, k) > max,
        i <= n,
    ensures
        ed(a, b, n, m) > max,
    decreases n - i,
{
    if i < n {
        assert forall|k: nat| k <= m implies #[trigger] ed(a, b, i + 1, k) > max by {
            lemma_next_row_exceeds(a, b, i, m, max, k);
        }
        lemma_rows_exceed(a, b, i + 1, n, m, max);
    }
}

/// Levenshtein distance between `a` and `b` when it is at most `max`;
/// gives up early once it must exceed `max`.
pub fn lev_dist(a: &[char], b: &[char], max: usize) -> (r: Option<usize>)
    ensures
        match r {
            Some(d) => lev_within(a@, b@, max as nat) == Some(d as nat),
            None => lev_within(a@, b@, max as nat) is None,
        },
{
    let n = a.len();
    let m = b.len();
    let diff = if n >= m {
        n - m
    } else {
        m - n
    };
    if diff > max {
        proof {
            lemma_ed_bounds(a@, b@, n as nat, m as nat);
        }
        return None;
    }
    let mut prev: Vec<usize> = Vec::new();
    let mut cur: Vec<usize> = Vec::new();
    prev.push(0);
    cur.push(0);
    let mut j: usize = 0;
    while j < m
        invariant
            j <= m,
            m == b@.len(),
            prev@.len() == j + 1,
            cur@.len() == j + 1,
            forall|k: int| 0 <= k <= j ==> #[trigger] prev@[k] == k,
        decreases m - j,
    {
        prev.push(j + 1);
        cur.push(0);
        j = j + 1;
    }
    proof {
        assert forall|k: nat| k <= m implies prev@[k as int] == ed(a@, b@, 0, k) by {}
    }
    if n == 0 {
        let d = prev[m];
        return if d <= max {
            Some(d)
        } else {
            None
        };
    }
    let mut i: usize = 1;
    loop
        invariant_except_break
            forall|k: nat| k <= m ==> #[trigger] prev@[k as int] == ed(a@, b@, (i - 1) as nat, k),
        invariant
            1 <= i <= n,
            n == a@.len(),
            m == b@.len(),
            prev@.len() == m + 1,
            cur@.len() == m + 1,
        ensures
            prev@.len() == m + 1,
            forall|k: nat| k <= m ==> #[trigger] prev@[k as int] == ed(a@, b@, n as nat, k),
        decreases n - i,
    {
        cur.set(0, i);
        let mut min_row = i;
        let mut j: usize = 1;
        while j <= m
            invariant
                1 <= i <= n,
                1 <= j <= m + 1,
                n == a@.len(),
                m == b@.len(),
                prev@.len() == m + 1,
                cur@.len() == m + 1,
                forall|k: nat| k <= m ==> #[trigger] prev@[k as int] == ed(a@, b@, (i - 1) as nat, k),
                forall|k: nat| k < j ==> #[trigger] cur@[k as int] == ed(a@, b@, i as nat, k),
                forall|k: nat| k < j ==> min_row <= #[trigger] ed(a@, b@, i as nat, k),
            ensures
                prev@.len() == m + 1,
                cur@.len() == m + 1,
                forall|k: nat| k <= m ==> #[trigger] prev@[k as int] == ed(a@, b@, (i - 1) as nat, k),
                forall|k: nat| k <= m ==> #[trigger] cur@[k as int] == ed(a@, b@, i as nat, k),
                forall|k: nat| k <= m ==> min_row <= #[trigger] ed(a@, b@, i as nat, k),
            decreases m + 1 - j,
        {
            proof {
                lemma_ed_bounds(a@, b@, i as nat, j as nat);
            }
            let cost: usize = if a[i - 1] == b[j - 1] {
                0
            } else {
                1
            };
            let del = prev[j].saturating_add(1);
            let ins = cur[j - 1].saturating_add(1);
            let sub = prev[j - 1].saturating_add(cost);
            let best = if del <= ins {
                del
            } else {
                ins
            };
            let best = if best <= sub {
                best
            } else {
                sub
            };
            cur.set(j, best);
            proof {
                assert(cur@[j as int] == ed(a@, b@, i as nat, j as nat));
            }
            if best < min_row {
                min_row = best;
            }
            if j == m {
                break;
            }
            j = j + 1;
        }
        if min_row > max {
            proof {
                assert forall|k: nat| k <= m implies #[trigger] ed(a@, b@, i as nat, k) > max by {
                    assert(cur@[k as int] == ed(a@, b@, i as nat, k));
                }
                lemma_rows_exceed(a@, b@, i as nat, n as nat, m as nat, max as nat);
            }
            return None;
        }
        let tmp = prev;
        prev = cur;
        cur = tmp;
        if i == n {
            break;
        }
        i = i + 1;
    }
    let d = prev[m];
    if d <= max {
        Some(d)
    } else {
        None
    }
}

// ---------------------------------------------------------------------------
// Query variants: keyboard layout and transliteration
// ---------------------------------------------------------------------------
/// The Russian letter on the same key of a QWERTY / Russian keyboard.
pub open spec fn spec_en_to_ru(c: char) -> Option<char> {
    match c {
        'q' => Some('\u{0439}'),
        'w' => Some('\u{0446}'),
        'e' => Some('\u{0443}'),
        'r' => Some('\u{043A}'),
        't' => Some('\u{0435}'),
        'y' => Some('\u{043D}'),
        'u' => Some('\u{0433}'),
        'i' => Some('\u{0448}'),
        'o' => Some('\u{0449}'),
        'p' => Some('\u{0437}'),
        '\u{005B}' => Some('\u{0445}'),
        '\u{005D}' => Some('\u{044A}'),
        'a' => Some('\u{0444}'),
        's' => Some('\u{044B}'),
        'd' => Some('\u{0432}'),
        'f' => Some('\u{0430}'),
        'g' => Some('\u{043F}'),
        'h' => Some('\u{0440}'),
        'j' => Some('\u{043E}'),
        'k' => Some('\u{043B}'),
        'l' => Some('\u{0434}'),
        ';' => Some('\u{0436}'),
        '\u{0027}' => Some('\u{044D}'),
        'z' => Some('\u{044F}'),
        'x' => Some('\u{0447}'),
        'c' => Some('\u{0441}'),
        'v' => Some('\u{043C}'),
        'b' => Some('\u{0438}'),
        'n' => Some('\u{0442}'),
        'm' => Some('\u{044C}'),
        ',' => Some('\u{0431}'),
        '.' => Some('\u{044E}'),
        _ => None,
    }
}

fn en_to_ru(c: char) -> (r: Option<char>)
    ensures
        r == spec_en_to_ru(c),
{
    match c {
        'q' => Some('\u{0439}'),
        'w' => Some('\u{0446}'),
        'e' => Some('\u{0443}'),
        'r' => Some('\u{043A}'),
        't' => Some('\u{0435}'),
        'y' => Some('\u{043D}'),
        'u' => Some('\u{0433}'),
        'i' => Some('\u{0448}'),
        'o' => Some('\u{0449}'),
        'p' => Some('\u{0437}'),
        '\u{005B}' => Some('\u{0445}'),
        '\u{005D}' => Some('\u{044A}'),
        'a' => Some('\u{0444}'),
        's' => Some('\u{044B}'),
        'd' => Some('\u{0432}'),
        'f' => Some('\u{0430}'),
        'g' => Some('\u{043F}'),
        'h' => Some('\u{0440}'),
        'j' => Some('\u{043E}'),
        'k' => Some('\u{043B}'),
        'l' => Some('\u{0434}'),
        ';' => Some('\u{0436}'),
        '\u{0027}' => Some('\u{044D}'),
        'z' => Some('\u{044F}'),
        'x' => Some('\u{0447}'),
        'c' => Some('\u{0441}'),
        'v' => Some('\u{043C}'),
        'b' => Some('\u{0438}'),
        'n' => Some('\u{0442}'),
        'm' => Some('\u{044C}'),
        ',' => Some('\u{0431}'),
        '.' => Some('\u{044E}'),
        _ => None,
    }
}

/// The Latin character on the same key as a Russian letter.
pub open spec fn spec_ru_to_en(c: char) -> Option<char> {
    match c {
        '\u{0439}' => Some('q'),
        '\u{0446}' => Some('w'),
        '\u{0443}' => Some('e'),
        '\u{043A}' => Some('r'),
        '\u{0435}' => Some('t'),
        '\u{043D}' => Some('y'),
        '\u{0433}' => Some('u'),
        '\u{0448}' => Some('i'),
        '\u{0449}' => Some('o'),
        '\u{0437}' => Some('p'),
        '\u{0445}' => Some('\u{005B}'),
        '\u{044A}' => Some('\u{005D}'),
        '\u{0444}' => Some('a'),
        '\u{044B}' => Some('s'),
        '\u{0432}' => Some('d'),
        '\u{0430}' => Some('f'),
        '\u{043F}' => Some('g'),
        '\u{0440}' => Some('h'),
        '\u{043E}' => Some('j'),
        '\u{043B}' => Some('k'),
        '\u{0434}' => Some('l'),
        '\u{0436}' => Some(';'),
        '\u{044D}' => Some('\u{0027}'),
        '\u{044F}' => Some('z'),
        '\u{0447}' => Some('x'),
        '\u{0441}' => Some('c'),
        '\u{043C}' => Some('v'),
        '\u{0438}' => Some('b'),
        '\u{0442}' => Some('n'),
        '\u{044C}' => Some('m'),
        '\u{0431}' => Some(','),
        '\u{044E}' => Some('.'),
        _ => None,
    }
}

fn ru_to_en(c: char) -> (r: Option<char>)
    ensures
        r == spec_ru_to_en(c),
{
    match c {
        '\u{0439}' => Some('q'),
        '\u{0446}' => Some('w'),
        '\u{0443}' => Some('e'),
        '\u{043A}' => Some('r'),
        '\u{0435}' => Some('t'),
        '\u{043D}' => Some('y'),
        '\u{0433}' => Some('u'),
        '\u{0448}' => Some('i'),
        '\u{0449}' => Some('o'),
        '\u{0437}' => Some('p'),
        '\u{0445}' => Some('\u{005B}'),
        '\u{044A}' => Some('\u{005D}'),
        '\u{0444}' => Some('a'),
        '\u{044B}' => Some('s'),
        '\u{0432}' => Some('d'),
        '\u{0430}' => Some('f'),
        '\u{043F}' => Some('g'),
        '\u{0440}' => Some('h'),
        '\u{043E}' => Some('j'),
        '\u{043B}' => Some('k'),
        '\u{0434}' => Some('l'),
        '\u{0436}' => Some(';'),
        '\u{044D}' => Some('\u{0027}'),
        '\u{044F}' => Some('z'),
        '\u{0447}' => Some('x'),
        '\u{0441}' => Some('c'),
        '\u{043C}' => Some('v'),
        '\u{0438}' => Some('b'),
        '\u{0442}' => Some('n'),
        '\u{044C}' => Some('m'),
        '\u{0431}' => Some(','),
        '\u{044E}' => Some('.'),
        _ => None,
    }
}

/// The Russian letter whose transliteration is the single Latin letter `c`.
pub open spec fn spec_ru_from_en(c: char) -> Option<char> {
    match c {
        'a' => Some('\u{0430}'),
        'b' => Some('\u{0431}'),
        'v' => Some('\u{0432}'),
        'g' => Some('\u{0433}'),
        'd' => Some('\u{0434}'),
        'e' => Some('\u{0435}'),
        'z' => Some('\u{0437}'),
        'i' => Some('\u{0438}'),
        'y' => Some('\u{0439}'),
        'k' => Some('\u{043A}'),
        'l' => Some('\u{043B}'),
        'm' => Some('\u{043C}'),
        'n' => Some('\u{043D}'),
        'o' => Some('\u{043E}'),
        'p' => Some('\u{043F}'),
        'r' => Some('\u{0440}'),
        's' => Some('\u{0441}'),
        't' => Some('\u{0442}'),
        'u' => Some('\u{0443}'),
        'f' => Some('\u{0444}'),
        'h' => Some('\u{0445}'),
        _ => None,
    }
}

fn ru_from_en(c: char) -> (r: Option<char>)
    ensures
        r == spec_ru_from_en(c),
{
    match c {
        'a' => Some('\u{0430}'),
        'b' => Some('\u{0431}'),
        'v' => Some('\u{0432}'),
        'g' => Some('\u{0433}'),
        'd' => Some('\u{0434}'),
        'e' => Some('\u{0435}'),
        'z' => Some('\u{0437}'),
        'i' => Some('\u{0438}'),
        'y' => Some('\u{0439}'),
        'k' => Some('\u{043A}'),
        'l' => Some('\u{043B}'),
        'm' => Some('\u{043C}'),
        'n' => Some('\u{043D}'),
        'o' => Some('\u{043E}'),
        'p' => Some('\u{043F}'),
        'r' => Some('\u{0440}'),
        's' => Some('\u{0441}'),
        't' => Some('\u{0442}'),
        'u' => Some('\u{0443}'),
        'f' => Some('\u{0444}'),
        'h' => Some('\u{0445}'),
        _ => None,
    }
}

/// Latin transliteration of a Russian letter (hard and soft signs vanish).
pub open spec fn spec_translit(c: char) -> Option<Seq<char>> {
    match c {
        '\u{0430}' => Some(seq!['a']),
        '\u{0431}' => Some(seq!['b']),
        '\u{0432}' => Some(seq!['v']),
        '\u{0433}' => Some(seq!['g']),
        '\u{0434}' => Some(seq!['d']),
        '\u{0435}' => Some(seq!['e']),
        '\u{0451}' => Some(seq!['y', 'o']),
        '\u{0436}' => Some(seq!['z', 'h']),
        '\u{0437}' => Some(seq!['z']),
        '\u{0438}' => Some(seq!['i']),
        '\u{0439}' => Some(seq!['y']),
        '\u{043A}' => Some(seq!['k']),
        '\u{043B}' => Some(seq!['l']),
        '\u{043C}' => Some(seq!['m']),
        '\u{043D}' => Some(seq!['n']),
        '\u{043E}' => Some(seq!['o']),
        '\u{043F}' => Some(seq!['p']),
        '\u{0440}' => Some(seq!['r']),
        '\u{0441}' => Some(seq!['s']),
        '\u{0442}' => Some(seq!['t']),
        '\u{0443}' => Some(seq!['u']),
        '\u{0444}' => Some(seq!['f']),
        '\u{0445}' => Some(seq!['h']),
        '\u{0446}' => Some(seq!['t', 's']),
        '\u{0447}' => Some(seq!['c', 'h']),
        '\u{0448}' => Some(seq!['s', 'h']),
        '\u{0449}' => Some(seq!['s', 'h', 'c', 'h']),
        '\u{044A}' => Some(seq![]),
        '\u{044B}' => Some(seq!['y']),
        '\u{044C}' => Some(seq![]),
        '\u{044D}' => Some(seq!['e']),
        '\u{044E}' => Some(seq!['y', 'u']),
        '\u{044F}' => Some(seq!['y', 'a']),
        _ => None,
    }
}

/// The two keyboard-layout maps undo each other: a key's Russian letter
/// maps back to the key and the other way round, and every Latin letter
/// key has a Russian letter.
pub proof fn law_layout_maps_invert(c: char)
    ensures
        spec_en_to_ru(c) matches Some(r) ==> spec_ru_to_en(r) == Some(c),
        spec_ru_to_en(c) matches Some(e) ==> spec_en_to_ru(e) == Some(c),
        'a' <= c <= 'z' ==> spec_en_to_ru(c) is Some,
{
}

/// A Latin letter read as a Russian one is the letter that transliterates
/// back to it.
pub proof fn law_single_letter_transliteration_inverts(c: char)
    ensures
        spec_ru_from_en(c) matches Some(r) ==> spec_translit(r) == Some(seq![c]),
{
}

/// Appends the transliteration of `c` to `out`; `false` (and nothing
/// appended) when `c` is not a Russian letter.
fn push_translit(out: &mut Vec<char>, c: char) -> (r: bool)
    ensures
        match spec_translit(c) {
            Some(t) => r && final(out)@ == old(out)@ + t,
            None => !r && final(out)@ == old(out)@,
        },
{
    match c {
        '\u{0430}' => {
            out.push('a');
            true
        },
        '\u{0431}' => {
            out.push('b');
            true
        },
        '\u{0432}' => {
            out.push('v');
            true
        },
        '\u{0433}' => {
            out.push('g');
            true
        },
        '\u{0434}' => {
            out.push('d');
            true
        },
        '\u{0435}' => {
            out.push('e');
            true
        },
        '\u{0451}' => {
            out.push('y'); out.push('o');
            true
        },
        '\u{0436}' => {
            out.push('z'); out.push('h');
            true
        },
        '\u{0437}' => {
            out.push('z');
            true
        },
        '\u{0438}' => {
            out.push('i');
            true
        },
        '\u{0439}' => {
            out.push('y');
            true
        },
        '\u{043A}' => {
            out.push('k');
            true
        },
        '\u{043B}' => {
            out.push('l');
            true
        },
        '\u{043C}' => {
            out.push('m');
            true
        },
        '\u{043D}' => {
            out.push('n');
            true
        },
        '\u{043E}' => {
            out.push('o');
            true
        },
        '\u{043F}' => {
            out.push('p');
            true
        },
        '\u{0440}' => {
            out.push('r');
            true
        },
        '\u{0441}' => {
            out.push('s');
            true
        },
        '\u{0442}' => {
            out.push('t');
            true
        },
        '\u{0443}' => {
            out.push('u');
            true
        },
        '\u{0444}' => {
            out.push('f');
            true
        },
        '\u{0445}' => {
            out.push('h');
            true
        },
        '\u{0446}' => {
            out.push('t'); out.push('s');
            true
        },
        '\u{0447}' => {
            out.push('c'); out.push('h');
            true
        },
        '\u{0448}' => {
            out.push('s'); out.push('h');
            true
        },
        '\u{0449}' => {
            out.push('s'); out.push('h'); out.push('c'); out.push('h');
            true
        },
        '\u{044A}' => true,
        '\u{044B}' => {
            out.push('y');
            true
        },
        '\u{044C}' => true,
        '\u{044D}' => {
            out.push('e');
            true
        },
        '\u{044E}' => {
            out.push('y'); out.push('u');
            true
        },
        '\u{044F}' => {
            out.push('y'); out.push('a');
            true
        },
        _ => false,
    }
}

/// The character itself when a table has no entry for it.
pub open spec fn or_same(m: Option<char>, c: char) -> char {
    match m {
        Some(x) => x,
        None => c,
    }
}

/// Each character lowercased (its first lowercase character).
pub open spec fn lower_chars(q: Seq<char>) -> Seq<char> {
    q.map_values(|c: char| crate::text::char_lower_first(c))
}

/// The query as typed on the other keyboard layout (Latin to Russian).
pub open spec fn layout_ru(q: Seq<char>) -> Seq<char> {
    lower_chars(q).map_values(|c: char| or_same(spec_en_to_ru(c), c))
}

/// The query as typed on the other keyboard layout (Russian to Latin).
pub open spec fn layout_en(q: Seq<char>) -> Seq<char> {
    lower_chars(q).map_values(|c: char| or_same(spec_ru_to_en(c), c))
}

/// Latin transliteration of a text.
pub open spec fn translit_seq(s: Seq<char>) -> Seq<char>
    decreases s.len(),
{
    if s.len() == 0 {
        s
    } else {
        translit_seq(s.drop_last()) + match spec_translit(s.last()) {
            Some(t) => t,
            None => seq![s.last()],
        }
    }
}

/// The query transliterated from Russian to Latin.
pub open spec fn translit_en(q: Seq<char>) -> Seq<char> {
    translit_seq(lower_chars(q))
}

/// The query's single Latin letters read back as Russian letters.
pub open spec fn translit_ru(q: Seq<char>) -> Seq<char> {
    lower_chars(q).map_values(|c: char| or_same(spec_ru_from_en(c), c))
}

/// `v` appended unless already present.
pub open spec fn add_unique(vs: Seq<Seq<char>>, v: Seq<char>) -> Seq<Seq<char>> {
    if vs.contains(v) {
        vs
    } else {
        vs.push(v)
    }
}

/// The texts a query is matched as: itself, then its layout and
/// transliteration variants, without repeats.
pub open spec fn search_variants(q: Seq<char>) -> Seq<Seq<char>> {
    add_unique(
        add_unique(add_unique(add_unique(seq![q], layout_ru(q)), layout_en(q)), translit_en(q)),
        translit_ru(q),
    )
}

/// The texts of a list of character vectors.
pub open spec fn views(v: Seq<Vec<char>>) -> Seq<Seq<char>> {
    v.map_values(|x: Vec<char>| x@)
}

/// Whether one of `vs` equals `v`.
fn contains_chars(vs: &Vec<Vec<char>>, v: &Vec<char>) -> (r: bool)
    ensures
        r == views(vs@).contains(v@),
{
    let mut i: usize = 0;
    while i < vs.len()
        invariant
            i <= vs@.len(),
            forall|k: int| 0 <= k < i ==> vs@[k]@ != v@,
        decreases vs@.len() - i,
    {
        if chars_eq(vs[i].as_slice(), v.as_slice()) {
            proof {
                assert(views(vs@)[i as int] == v@);
            }
            return true;
        }
        i = i + 1;
    }
    proof {
        assert forall|k: int| 0 <= k < views(vs@).len() implies views(vs@)[k] != v@ by {
            assert(views(vs@)[k] == vs@[k]@);
        }
    }
    false
}

/// Appends `v` unless already present.
fn push_unique(vs: &mut Vec<Vec<char>>, v: Vec<char>)
    ensures
        views(final(vs)@) == add_unique(views(old(vs)@), v@),
{
    if !contains_chars(vs, &v) {
        vs.push(v);
        proof {
            assert(views(vs@) =~= views(old(vs)@).push(v@));
        }
    }
}

/// The texts a (lowercased) query is matched as (see `search_variants`).
pub fn get_search_variants(q: &[char]) -> (r: Vec<Vec<char>>)
    ensures
        views(r@) == search_variants(q@),
{
    let mut lower: Vec<char> = Vec::new();
    let mut i: usize = 0;
    while i < q.len()
        invariant
            i <= q@.len(),
            lower@ == lower_chars(q@.take(i as int)),
        decreases q@.len() - i,
    {
        lower.push(crate::text::lower_first(q[i]));
        proof {
            assert(lower@ =~= lower_chars(q@.take(i + 1)));
        }
        i = i + 1;
    }
    proof {
        assert(q@.take(q@.len() as int) =~= q@);
    }
    let mut v1: Vec<char> = Vec::new();
    let mut v2: Vec<char> = Vec::new();
    let mut v3: Vec<char> = Vec::new();
    let mut v4: Vec<char> = Vec::new();
    let mut i: usize = 0;
    while i < lower.len()
        invariant
            i <= lower@.len(),
            lower@ == lower_chars(q@),
            v1@ == lower@.take(i as int).map_values(|c: char| or_same(spec_en_to_ru(c), c)),
            v2@ == lower@.take(i as int).map_values(|c: char| or_same(spec_ru_to_en(c), c)),
            v3@ == translit_seq(lower@.take(i as int)),
            v4@ == lower@.take(i as int).map_values(|c: char| or_same(spec_ru_from_en(c), c)),
        decreases lower@.len() - i,
    {
        let c = lower[i];
        let ghost t = lower@.take(i + 1);
        proof {
            assert(t.drop_last() =~= lower@.take(i as int));
            assert(t.last() == c);
        }
        v1.push(
            match en_to_ru(c) {
                Some(x) => x,
                None => c,
            },
        );
        v2.push(
            match ru_to_en(c) {
                Some(x) => x,
                None => c,
            },
        );
        if !push_translit(&mut v3, c) {
            v3.push(c);
        }
        v4.push(
            match ru_from_en(c) {
                Some(x) => x,
                None => c,
            },
        );
        proof {
            assert(v1@ =~= t.map_values(|c: char| or_same(spec_en_to_ru(c), c)));
            assert(v2@ =~= t.map_values(|c: char| or_same(spec_ru_to_en(c), c)));
            assert(v4@ =~= t.map_values(|c: char| or_same(spec_ru_from_en(c), c)));
            match spec_translit(c) {
                Some(tt) => {
                    assert(v3@ =~= translit_seq(t));
                },
                None => {
                    assert(v3@ =~= translit_seq(t));
                },
            }
        }
        i = i + 1;
    }
    proof {
        assert(lower@.take(lower@.len() as int) =~= lower@);
    }
    let mut q0: Vec<char> = Vec::new();
    let mut i: usize = 0;
    while i < q.len()
        invariant
            i <= q@.len(),
            q0@ == q@.take(i as int),
        decreases q@.len() - i,
    {
        q0.push(q[i]);
        proof {
            assert(q0@ =~= q@.take(i + 1));
        }
        i = i + 1;
    }
    let mut r: Vec<Vec<char>> = Vec::new();
    r.push(q0);
    proof {
        assert(views(r@) =~= seq![q@]);
    }
    push_unique(&mut r, v1);
    push_unique(&mut r, v2);
    push_unique(&mut r, v3);
    push_unique(&mut r, v4);
    r
}

// ---------------------------------------------------------------------------
// Shared characters
// ---------------------------------------------------------------------------
/// Number of occurrences of `c` in `s`.
pub open spec fn occ(s: Seq<char>, c: char) -> nat
    decreases s.len(),
{
    if s.len() == 0 {
        0
    } else {
        occ(s.drop_last(), c) + if s.last() == c {
            1nat
        } else {
            0nat
        }
    }
}

/// Characters of `name` that `v` can match one for one: a character
/// counts when `v` holds more copies of it than the earlier part of `name`.
pub open spec fn shared_spec(name: Seq<char>, v: Seq<char>) -> nat
    decreases name.len(),
{
    if name.len() == 0 {
        0
    } else {
        shared_spec(name.drop_last(), v) + if occ(name.drop_last(), name.last()) < occ(
            v,
            name.last(),
        ) {
            1nat
        } else {
            0nat
        }
    }
}

/// `t` lists each distinct character of `v` once, with its number of
/// occurrences.
pub open spec fn table_of(t: Seq<(char, usize)>, v: Seq<char>) -> bool {
    &&& forall|i: int| 0 <= i < t.len() ==> (#[trigger] t[i]).1 == occ(v, t[i].0)
    &&& forall|i: int, j: int| 0 <= i < j < t.len() ==> (#[trigger] t[i]).0 != (#[trigger] t[j]).0
    &&& forall|c: char| occ(v, c) > 0 ==> exists|i: int| 0 <= i < t.len() && (#[trigger] t[i]).0 == c
}

proof fn lemma_occ_push(s: Seq<char>, x: char, c: char)
    ensures
        occ(s.push(x), c) == occ(s, c) + if x == c {
            1nat
        } else {
            0nat
        },
{
    assert(s.push(x).drop_last() =~= s);
}

proof fn lemma_occ_le_len(s: Seq<char>, c: char)
    ensures
        occ(s, c) <= s.len(),
    decreases s.len(),
{
    if s.len() > 0 {
        lemma_occ_le_len(s.drop_last(), c);
    }
}

/// Each distinct character of `v` with its number of occurrences, in order
/// of first appearance.
pub fn variant_char_table(v: &[char]) -> (t: Vec<(char, usize)>)
    ensures
        table_of(t@, v@),
{
    let mut t: Vec<(char, usize)> = Vec::new();
    let mut i: usize = 0;
    while i < v.len()
        invariant
            i <= v@.len(),
            table_of(t@, v@.take(i as int)),
        decreases v@.len() - i,
    {
        let c = v[i];
        let ghost p = v@.take(i as int);
        proof {
            assert(v@.take(i + 1) =~= p.push(c));
            assert forall|d: char| #[trigger] occ(v@.take(i + 1), d) == occ(p, d) + if c == d {
                1nat
            } else {
                0nat
            } by {
                lemma_occ_push(p, c, d);
            }
            lemma_occ_le_len(p, c);
        }
        let ghost t0 = t@;
        let mut k: usize = 0;
        while k < t.len() && t[k].0 != c
            invariant
                k <= t@.len(),
                forall|j: int| 0 <= j < k ==> (#[trigger] t@[j]).0 != c,
            decreases t@.len() - k,
        {
            k = k + 1;
        }
        if k < t.len() {
            let n = t[k].1;
            t.set(k, (c, n + 1));
        } else {
            t.push((c, 1));
        }
        proof {
            let q = v@.take(i + 1);
            assert forall|c2: char| occ(q, c2) > 0 implies exists|j: int|
                0 <= j < t@.len() && (#[trigger] t@[j]).0 == c2 by {
                if c2 == c {
                    assert(t@[k as int].0 == c2);
                } else {
                    assert(occ(p, c2) > 0);
                    let j = choose|j: int| 0 <= j < t0.len() && (#[trigger] t0[j]).0 == c2;
                    assert(t@[j].0 == c2);
                }
            }
        }
        i = i + 1;
    }
    proof {
        assert(v@.take(v@.len() as int) =~= v@);
    }
    t
}

/// Number of characters of `name` matched one for one by the text that
/// `table` describes (see `shared_spec`).
fn shared_chars(name: &[char], table: &Vec<(char, usize)>, v: Ghost<Seq<char>>) -> (r: usize)
    requires
        table_of(table@, v@),
    ensures
        r == shared_spec(name@, v@),
{
    let mut tmp: Vec<(char, usize)> = Vec::new();
    let mut j: usize = 0;
    while j < table.len()
        invariant
            j <= table@.len(),
            tmp@ == table@.take(j as int),
        decreases table@.len() - j,
    {
        tmp.push(table[j]);
        proof {
            assert(tmp@ =~= table@.take(j + 1));
        }
        j = j + 1;
    }
    proof {
        assert(tmp@ =~= table@);
        assert(name@.take(0) =~= seq![]);
    }
    let mut shared: usize = 0;
    let mut i: usize = 0;
    while i < name.len()
        invariant
            i <= name@.len(),
            table_of(table@, v@),
            tmp@.len() == table@.len(),
            forall|j: int| 0 <= j < tmp@.len() ==> (#[trigger] tmp@[j]).0 == table@[j].0,
            forall|j: int|
                0 <= j < tmp@.len() ==> (#[trigger] tmp@[j]).1 + min2(
                    occ(name@.take(i as int), table@[j].0),
                    occ(v@, table@[j].0),
                ) == occ(v@, table@[j].0),
            shared == shared_spec(name@.take(i as int), v@),
            shared <= i,
        decreases name@.len() - i,
    {
        let c = name[i];
        let ghost p = name@.take(i as int);
        proof {
            assert(name@.take(i + 1).drop_last() =~= p);
            assert(name@.take(i + 1).last() == c);
            assert forall|d: char| #[trigger] occ(name@.take(i + 1), d) == occ(p, d) + if c == d {
                1nat
            } else {
                0nat
            } by {
                lemma_occ_push(p, c, d);
                assert(p.push(c) =~= name@.take(i + 1));
            }
        }
        let mut k: usize = 0;
        while k < tmp.len() && tmp[k].0 != c
            invariant
                k <= tmp@.len(),
                forall|j: int| 0 <= j < k ==> (#[trigger] tmp@[j]).0 != c,
            decreases tmp@.len() - k,
        {
            k = k + 1;
        }
        if k < tmp.len() {
            let n = tmp[k].1;
            if n > 0 {
                tmp.set(k, (c, n - 1));
                shared = shared + 1;
            }
            proof {
                assert(table@[k as int].0 == c);
                assert forall|j: int| 0 <= j < tmp@.len() && j != k implies table@[j].0 != c by {}
            }
        } else {
            proof {
                if occ(v@, c) > 0 {
                    let j = choose|j: int| 0 <= j < table@.len() && (#[trigger] table@[j]).0 == c;
                    assert(tmp@[j].0 == c);
                }
            }
        }
        i = i + 1;
    }
    proof {
        assert(name@.take(name@.len() as int) =~= name@);
    }
    shared
}

// ---------------------------------------------------------------------------
// Typo-tolerant matching
// ---------------------------------------------------------------------------
/// One step of the search for the best distance: stop at 1, else keep the
/// smaller distance.
pub open spec fn best_step(b: Option<nat>, d: Option<nat>) -> Option<nat> {
    if b == Some(1nat) {
        b
    } else {
        match d {
            Some(x) => Some(
                match b {
                    Some(y) => min2(y, x),
                    None => x,
                },
            ),
            None => b,
        }
    }
}

/// The best distance after going through `ds`, starting from `acc`.
pub open spec fn fold_best(acc: Option<nat>, ds: Seq<Option<nat>>) -> Option<nat>
    decreases ds.len(),
{
    if ds.len() == 0 {
        acc
    } else {
        best_step(fold_best(acc, ds.drop_last()), ds.last())
    }
}

proof fn lemma_fold_best_one(ds: Seq<Option<nat>>)
    ensures
        fold_best(Some(1nat), ds) == Some(1nat),
    decreases ds.len(),
{
    if ds.len() > 0 {
        lemma_fold_best_one(ds.drop_last());
    }
}

proof fn lemma_fold_best_concat(acc: Option<nat>, a: Seq<Option<nat>>, b: Seq<Option<nat>>)
    ensures
        fold_best(acc, a + b) == fold_best(fold_best(acc, a), b),
    decreases b.len(),
{
    if b.len() == 0 {
        assert(a + b =~= a);
    } else {
        assert((a + b).drop_last() =~= a + b.drop_last());
        lemma_fold_best_concat(acc, a, b.drop_last());
    }
}

proof fn lemma_fold_best_push(acc: Option<nat>, a: Seq<Option<nat>>, x: Option<nat>)
    ensures
        fold_best(acc, a.push(x)) == best_step(fold_best(acc, a), x),
{
    assert(a.push(x).drop_last() =~= a);
}

/// Distances between `v` and every run of `w` consecutive characters of
/// `name`, left to right.
pub open spec fn window_dists(name: Seq<char>, v: Seq<char>, w: nat, md: nat) -> Seq<Option<nat>> {
    if name.len() >= w {
        Seq::new(
            (name.len() - w + 1) as nat,
            |s: int| lev_within(name.subrange(s, s + w), v, md),
        )
    } else {
        seq![]
    }
}

/// The distances tried for one variant of three or more characters: the
/// whole name, then, when the name is longer and shares enough characters
/// with the variant, its windows as long as the variant, one longer, and
/// one shorter.
pub open spec fn variant_dists(name: Seq<char>, v: Seq<char>, md: nat) -> Seq<Option<nat>> {
    if v.len() < 3 {
        seq![]
    } else if name.len() > v.len() && shared_spec(name, v) + md >= v.len() {
        seq![lev_within(name, v, md)] + window_dists(name, v, v.len(), md) + window_dists(
            name,
            v,
            v.len() + 1,
            md,
        ) + window_dists(name, v, (v.len() - 1) as nat, md)
    } else {
        seq![lev_within(name, v, md)]
    }
}

/// The distances tried for all variants, in order.
pub open spec fn all_dists(name: Seq<char>, vs: Seq<Seq<char>>, md: nat) -> Seq<Option<nat>>
    decreases vs.len(),
{
    if vs.len() == 0 {
        seq![]
    } else {
        all_dists(name, vs.drop_last(), md) + variant_dists(name, vs.last(), md)
    }
}

/// The best typo distance between `name` and the variants, if any is
/// within `md` (the search settles for 1 as soon as it finds it).
pub open spec fn fuzzy_best(name: Seq<char>, vs: Seq<Seq<char>>, md: nat) -> Option<nat> {
    fold_best(None, all_dists(name, vs, md))
}

/// A variant together with its character table.
pub type VariantTable = (Vec<char>, Vec<(char, usize)>);

/// The variants of a list of variant tables.
pub open spec fn variant_texts(vs: Seq<VariantTable>) -> Seq<Seq<char>> {
    vs.map_values(|x: VariantTable| x.0@)
}

/// Every table describes its variant.
pub open spec fn tables_ok(vs: Seq<VariantTable>) -> bool {
    forall|k: int| 0 <= k < vs.len() ==> table_of((#[trigger] vs[k]).1@, vs[k].0@)
}

/// The characters `name[start .. start + w]`.
fn window_of(name: &[char], start: usize, w: usize) -> (r: Vec<char>)
    requires
        start + w <= name@.len(),
    ensures
        r@ == name@.subrange(start as int, start + w),
{
    let mut r: Vec<char> = Vec::new();
    let mut k: usize = 0;
    while k < w
        invariant
            k <= w,
            start + w <= name.len(),
            r@ == name@.subrange(start as int, start + k),
        decreases w - k,
    {
        r.push(name[start + k]);
        proof {
            assert(r@ =~= name@.subrange(start as int, start + k + 1));
        }
        k = k + 1;
    }
    r
}

fn as_nat_opt(x: Option<usize>) -> (r: Ghost<Option<nat>>)
    ensures
        r@ == match x {
            Some(d) => Some(d as nat),
            None => None::<nat>,
        },
{
    Ghost(
        match x {
            Some(d) => Some(d as nat),
            None => None,
        },
    )
}

pub open spec fn nat_opt(x: Option<usize>) -> Option<nat> {
    match x {
        Some(d) => Some(d as nat),
        None => None,
    }
}

/// One search step on machine integers.
fn step_exec(best: Option<usize>, d: Option<usize>) -> (r: Option<usize>)
    ensures
        nat_opt(r) == best_step(nat_opt(best), nat_opt(d)),
{
    if best == Some(1usize) {
        return best;
    }
    match d {
        Some(x) => Some(
            match best {
                Some(y) => if y <= x {
                    y
                } else {
                    x
                },
                None => x,
            },
        ),
        None => best,
    }
}

/// Goes through the windows of width `w`.
fn scan_windows(name: &[char], v: &[char], w: usize, md: usize, best0: Option<usize>) -> (r: Option<usize>)
    requires
        w <= name@.len(),
    ensures
        nat_opt(r) == fold_best(nat_opt(best0), window_dists(name@, v@, w as nat, md as nat)),
{
    let ghost ds = window_dists(name@, v@, w as nat, md as nat);
    let last = name.len() - w;
    let mut best = best0;
    let mut start: usize = 0;
    proof {
        assert(ds.take(0) =~= seq![]);
    }
    loop
        invariant
            w <= name@.len(),
            last == name@.len() - w,
            ds == window_dists(name@, v@, w as nat, md as nat),
            ds.len() == last + 1,
            start <= last,
            nat_opt(best) == fold_best(nat_opt(best0), ds.take(start as int)),
        decreases last - start,
    {
        let win = window_of(name, start, w);
        let d = lev_dist(win.as_slice(), v, md);
        proof {
            assert(ds[start as int] == lev_within(win@, v@, md as nat));
            assert(nat_opt(d) == ds[start as int]);
            assert(ds.take(start + 1) =~= ds.take(start as int).push(ds[start as int]));
            lemma_fold_best_push(nat_opt(best0), ds.take(start as int), ds[start as int]);
        }
        best = step_exec(best, d);
        if best == Some(1usize) {
            proof {
                lemma_fold_best_concat(nat_opt(best0), ds.take(start + 1), ds.skip(start + 1));
                assert(ds.take(start + 1) + ds.skip(start + 1) =~= ds);
                lemma_fold_best_one(ds.skip(start + 1));
            }
            return best;
        }
        if start == last {
            proof {
                assert(ds.take(start + 1) =~= ds);
            }
            return best;
        }
        start = start + 1;
    }
}

/// Goes through the distances tried for one variant.
fn scan_variant(
    name: &[char],
    v: &[char],
    table: &Vec<(char, usize)>,
    md: usize,
    best0: Option<usize>,
) -> (r: Option<usize>)
    requires
        table_of(table@, v@),
    ensures
        nat_opt(r) == fold_best(nat_opt(best0), variant_dists(name@, v@, md as nat)),
{
    let wlen = v.len();
    if wlen < 3 {
        return best0;
    }
    let ghost first = seq![lev_within(name@, v@, md as nat)];
    let d = lev_dist(name, v, md);
    let mut best = step_exec(best0, d);
    proof {
        assert(first =~= seq![].push(lev_within(name@, v@, md as nat)));
        lemma_fold_best_push(nat_opt(best0), seq![], lev_within(name@, v@, md as nat));
        assert(nat_opt(best) == fold_best(nat_opt(best0), first));
    }
    let n = name.len();
    let wide = n > wlen && {
        let shared = shared_chars(name, table, Ghost(v@));
        shared >= wlen || wlen - shared <= md
    };
    if !wide {
        proof {
            if n > wlen {
                assert(!(shared_spec(name@, v@) + md >= wlen));
            }
        }
        return best;
    }
    let ghost a = window_dists(name@, v@, wlen as nat, md as nat);
    let ghost b = window_dists(name@, v@, (wlen + 1) as nat, md as nat);
    let ghost c = window_dists(name@, v@, (wlen - 1) as nat, md as nat);
    proof {
        assert(variant_dists(name@, v@, md as nat) == first + a + b + c);
        lemma_fold_best_concat(nat_opt(best0), first + a + b, c);
        lemma_fold_best_concat(nat_opt(best0), first + a, b);
        lemma_fold_best_concat(nat_opt(best0), first, a);
    }
    if best == Some(1usize) {
        proof {
            lemma_fold_best_one(a);
            lemma_fold_best_one(b);
            lemma_fold_best_one(c);
        }
        return best;
    }
    best = scan_windows(name, v, wlen, md, best);
    if best == Some(1usize) {
        proof {
            lemma_fold_best_one(b);
            lemma_fold_best_one(c);
        }
        return best;
    }
    best = scan_windows(name, v, wlen + 1, md, best);
    if best == Some(1usize) {
        proof {
            lemma_fold_best_one(c);
        }
        return best;
    }
    best = scan_windows(name, v, wlen - 1, md, best);
    best
}

/// Every distance in `ds` is at most `md`.
pub open spec fn dists_within(ds: Seq<Option<nat>>, md: nat) -> bool {
    forall|i: int| 0 <= i < ds.len() ==> (#[trigger] ds[i] matches Some(x) ==> x <= md)
}

proof fn lemma_all_dists_within(name: Seq<char>, vs: Seq<Seq<char>>, md: nat)
    ensures
        dists_within(all_dists(name, vs, md), md),
    decreases vs.len(),
{
    if vs.len() > 0 {
        lemma_all_dists_within(name, vs.drop_last(), md);
        let a = all_dists(name, vs.drop_last(), md);
        let b = variant_dists(name, vs.last(), md);
        assert forall|i: int| 0 <= i < (a + b).len() implies (#[trigger] (a + b)[i] matches Some(x)
            ==> x <= md) by {
            if i >= a.len() {
                assert((a + b)[i] == b[i - a.len()]);
            } else {
                assert((a + b)[i] == a[i]);
            }
        }
    }
}

proof fn lemma_fold_best_within(acc: Option<nat>, ds: Seq<Option<nat>>, md: nat)
    requires
        acc matches Some(y) ==> y <= md,
        dists_within(ds, md),
    ensures
        fold_best(acc, ds) matches Some(d) ==> d <= md,
    decreases ds.len(),
{
    if ds.len() > 0 {
        let p = ds.drop_last();
        assert forall|i: int| 0 <= i < p.len() implies (#[trigger] p[i] matches Some(x) ==> x
            <= md) by {
            assert(p[i] == ds[i]);
        }
        lemma_fold_best_within(acc, p, md);
        assert(ds.last() == ds[ds.len() - 1]);
    }
}

proof fn lemma_fold_best_some(acc: Option<nat>, ds: Seq<Option<nat>>, i: int)
    requires
        0 <= i < ds.len(),
        ds[i] is Some,
    ensures
        fold_best(acc, ds) is Some,
    decreases ds.len(),
{
    if i < ds.len() - 1 {
        assert(ds.drop_last()[i] == ds[i]);
        lemma_fold_best_some(acc, ds.drop_last(), i);
    }
}

proof fn lemma_all_dists_has(name: Seq<char>, vs: Seq<Seq<char>>, md: nat, k: int)
    requires
        0 <= k < vs.len(),
        vs[k].len() >= 3,
    ensures
        exists|i: int|
            0 <= i < all_dists(name, vs, md).len() && #[trigger] all_dists(name, vs, md)[i]
                == lev_within(name, vs[k], md),
    decreases vs.len(),
{
    let a = all_dists(name, vs.drop_last(), md);
    let b = variant_dists(name, vs.last(), md);
    assert(all_dists(name, vs, md) == a + b);
    if k == vs.len() - 1 {
        assert(vs.last() == vs[k]);
        assert(b[0] == lev_within(name, vs[k], md));
        assert((a + b)[a.len() as int] == b[0]);
    } else {
        assert(vs.drop_last()[k] == vs[k]);
        lemma_all_dists_has(name, vs.drop_last(), md, k);
        let i = choose|i: int| 0 <= i < a.len() && #[trigger] a[i] == lev_within(name, vs[k], md);
        assert((a + b)[i] == a[i]);
    }
}

proof fn lemma_all_dists_short(name: Seq<char>, vs: Seq<Seq<char>>, md: nat)
    requires
        forall|k: int| 0 <= k < vs.len() ==> (#[trigger] vs[k]).len() < 3,
    ensures
        all_dists(name, vs, md).len() == 0,
    decreases vs.len(),
{
    if vs.len() > 0 {
        assert(vs.last() == vs[vs.len() - 1]);
        assert forall|k: int| 0 <= k < vs.drop_last().len() implies (#[trigger] vs.drop_last()[k]).len()
            < 3 by {
            assert(vs.drop_last()[k] == vs[k]);
        }
        lemma_all_dists_short(name, vs.drop_last(), md);
    }
}

proof fn lemma_fold_best_achieved(ds: Seq<Option<nat>>)
    ensures
        fold_best(None, ds) matches Some(d) ==> exists|i: int|
            0 <= i < ds.len() && #[trigger] ds[i] == Some(d),
    decreases ds.len(),
{
    if ds.len() > 0 {
        let p = ds.drop_last();
        lemma_fold_best_achieved(p);
        if fold_best(None, ds) is Some {
            let d = fold_best(None, ds)->0;
            if fold_best(None, p) is Some {
                if fold_best(None, p)->0 == d {
                    let i = choose|i: int| 0 <= i < p.len() && #[trigger] p[i] == Some(d);
                    assert(ds[i] == p[i]);
                } else {
                    assert(ds[ds.len() - 1] == Some(d));
                }
            } else {
                assert(ds[ds.len() - 1] == Some(d));
            }
        }
    }
}

/// Each distance tried for variant `k` is among the distances tried for
/// all variants.
proof fn lemma_all_dists_includes(name: Seq<char>, vs: Seq<Seq<char>>, md: nat, k: int, j: int)
    requires
        0 <= k < vs.len(),
        0 <= j < variant_dists(name, vs[k], md).len(),
    ensures
        exists|i: int|
            0 <= i < all_dists(name, vs, md).len() && #[trigger] all_dists(name, vs, md)[i]
                == variant_dists(name, vs[k], md)[j],
    decreases vs.len(),
{
    let a = all_dists(name, vs.drop_last(), md);
    let b = variant_dists(name, vs.last(), md);
    assert(all_dists(name, vs, md) == a + b);
    if k == vs.len() - 1 {
        assert(vs.last() == vs[k]);
        assert((a + b)[a.len() + j] == b[j]);
    } else {
        assert(vs.drop_last()[k] == vs[k]);
        lemma_all_dists_includes(name, vs.drop_last(), md, k, j);
        let i = choose|i: int|
            0 <= i < a.len() && #[trigger] a[i] == variant_dists(name, vs[k], md)[j];
        assert((a + b)[i] == a[i]);
    }
}

/// Typo matching looks inside longer names: when the name is longer than a
/// variant of three or more characters and shares enough of its
/// characters (all but `md`), a run of the name as long as the variant, one
/// longer or one shorter, within `md` edits of the variant is always
/// found.
pub proof fn law_typo_windows_found(
    name: Seq<char>,
    vs: Seq<Seq<char>>,
    md: nat,
    k: int,
    w: int,
    start: int,
)
    requires
        0 <= k < vs.len(),
        vs[k].len() >= 3,
        name.len() > vs[k].len(),
        shared_spec(name, vs[k]) + md >= vs[k].len(),
        w == vs[k].len() || w == vs[k].len() + 1 || w == vs[k].len() - 1,
        0 <= start,
        start + w <= name.len(),
        lev(name.subrange(start, start + w), vs[k]) <= md,
    ensures
        fuzzy_best(name, vs, md) is Some,
{
    let v = vs[k];
    let first = seq![lev_within(name, v, md)];
    let a = window_dists(name, v, v.len(), md);
    let b = window_dists(name, v, v.len() + 1, md);
    let c = window_dists(name, v, (v.len() - 1) as nat, md);
    let ds = variant_dists(name, v, md);
    assert(ds == first + a + b + c);
    let j = if w == v.len() {
        1 + start
    } else if w == v.len() + 1 {
        1 + a.len() + start
    } else {
        1 + a.len() + b.len() + start
    };
    if w == v.len() {
        assert(ds[j] == a[start]);
    } else if w == v.len() + 1 {
        assert(ds[j] == b[start]);
    } else {
        assert(ds[j] == c[start]);
    }
    assert(ds[j] == lev_within(name.subrange(start, start + w), v, md));
    lemma_all_dists_includes(name, vs, md, k, j);
    let i = choose|i: int|
        0 <= i < all_dists(name, vs, md).len() && #[trigger] all_dists(name, vs, md)[i] == ds[j];
    lemma_fold_best_some(None, all_dists(name, vs, md), i);
}

/// Typo matching stays within its window: a distance found is at most the
/// allowed one, and is that of one of the comparisons tried (a variant of
/// three or more characters against the whole name or a run of it, see
/// `all_dists`); a variant of three or more characters within that distance
/// of the whole name is always found; variants shorter than three
/// characters are never tried.
pub proof fn law_typo_match_window(name: Seq<char>, vs: Seq<Seq<char>>, md: nat)
    ensures
        fuzzy_best(name, vs, md) matches Some(d) ==> d <= md,
        fuzzy_best(name, vs, md) matches Some(d) ==> exists|i: int|
            0 <= i < all_dists(name, vs, md).len() && #[trigger] all_dists(name, vs, md)[i] == Some(
                d,
            ),
        (exists|k: int| 0 <= k < vs.len() && (#[trigger] vs[k]).len() >= 3 && lev(name, vs[k]) <= md)
            ==> fuzzy_best(name, vs, md) is Some,
        (forall|k: int| 0 <= k < vs.len() ==> (#[trigger] vs[k]).len() < 3) ==> fuzzy_best(
            name,
            vs,
            md,
        ) is None,
{
    lemma_all_dists_within(name, vs, md);
    lemma_fold_best_within(None, all_dists(name, vs, md), md);
    lemma_fold_best_achieved(all_dists(name, vs, md));
    if exists|k: int| 0 <= k < vs.len() && (#[trigger] vs[k]).len() >= 3 && lev(name, vs[k]) <= md {
        let k = choose|k: int| 0 <= k < vs.len() && (#[trigger] vs[k]).len() >= 3 && lev(name, vs[k]) <= md;
        lemma_all_dists_has(name, vs, md, k);
        let i = choose|i: int|
            0 <= i < all_dists(name, vs, md).len() && #[trigger] all_dists(name, vs, md)[i]
                == lev_within(name, vs[k], md);
        lemma_fold_best_some(None, all_dists(name, vs, md), i);
    }
    if forall|k: int| 0 <= k < vs.len() ==> (#[trigger] vs[k]).len() < 3 {
        lemma_all_dists_short(name, vs, md);
    }
}

/// The best typo distance between `name` and any variant, if one is within
/// `max_dist` (see `fuzzy_best`).
pub fn is_fuzzy_match(name: &[char], variants: &Vec<VariantTable>, max_dist: usize) -> (r: Option<usize>)
    requires
        tables_ok(variants@),
    ensures
        nat_opt(r) == fuzzy_best(name@, variant_texts(variants@), max_dist as nat),
{
    let ghost vs = variant_texts(variants@);
    let mut best: Option<usize> = None;
    let mut k: usize = 0;
    while k < variants.len()
        invariant
            k <= variants@.len(),
            vs == variant_texts(variants@),
            tables_ok(variants@),
            nat_opt(best) == fold_best(None, all_dists(name@, vs.take(k as int), max_dist as nat)),
        decreases variants@.len() - k,
    {
        let ghost before = all_dists(name@, vs.take(k as int), max_dist as nat);
        proof {
            assert(vs.take(k + 1).drop_last() =~= vs.take(k as int));
            assert(vs.take(k + 1).last() == variants@[k as int].0@);
            assert(table_of(variants@[k as int].1@, variants@[k as int].0@));
            lemma_fold_best_concat(
                None,
                before,
                variant_dists(name@, variants@[k as int].0@, max_dist as nat),
            );
        }
        best = scan_variant(name, variants[k].0.as_slice(), &variants[k].1, max_dist, best);
        if best == Some(1usize) {
            proof {
                let rest = all_dists(name@, vs, max_dist as nat);
                lemma_all_dists_split(name@, vs, (k + 1) as int, max_dist as nat);
                lemma_fold_best_concat(
                    None,
                    all_dists(name@, vs.take(k + 1), max_dist as nat),
                    rest_dists(name@, vs, (k + 1) as int, max_dist as nat),
                );
                lemma_fold_best_one(rest_dists(name@, vs, (k + 1) as int, max_dist as nat));
            }
            return best;
        }
        k = k + 1;
    }
    proof {
        assert(vs.take(k as int) =~= vs);
    }
    best
}

/// The distances tried for the variants from position `n` on.
pub open spec fn rest_dists(name: Seq<char>, vs: Seq<Seq<char>>, n: int, md: nat) -> Seq<Option<nat>>
    decreases vs.len() - n,
{
    if n >= vs.len() {
        seq![]
    } else {
        variant_dists(name, vs[n], md) + rest_dists(name, vs, n + 1, md)
    }
}

proof fn lemma_all_dists_split(name: Seq<char>, vs: Seq<Seq<char>>, n: int, md: nat)
    requires
        0 <= n <= vs.len(),
    ensures
        all_dists(name, vs, md) == all_dists(name, vs.take(n), md) + rest_dists(name, vs, n, md),
    decreases vs.len() - n,
{
    if n == vs.len() {
        assert(vs.take(n) =~= vs);
        assert(all_dists(name, vs, md) + seq![] =~= all_dists(name, vs, md));
    } else {
        lemma_all_dists_split(name, vs, n + 1, md);
        assert(vs.take(n + 1).drop_last() =~= vs.take(n));
        assert(vs.take(n + 1).last() == vs[n]);
        assert(all_dists(name, vs.take(n + 1), md) == all_dists(name, vs.take(n), md)
            + variant_dists(name, vs[n], md));
        assert(rest_dists(name, vs, n, md) == variant_dists(name, vs[n], md) + rest_dists(
            name,
            vs,
            n + 1,
            md,
        ));
        assert(all_dists(name, vs.take(n), md) + variant_dists(name, vs[n], md) + rest_dists(
            name,
            vs,
            n + 1,
            md,
        ) =~= all_dists(name, vs.take(n), md) + (variant_dists(name, vs[n], md) + rest_dists(
            name,
            vs,
            n + 1,
            md,
        )));
    }
}

// ---------------------------------------------------------------------------
// Scoring one entry
// ---------------------------------------------------------------------------
/// Some variant is a prefix of `name`.
pub open spec fn any_prefix(vs: Seq<Seq<char>>, name: Seq<char>) -> bool {
    exists|i: int| 0 <= i < vs.len() && seq_starts_with(name, #[trigger] vs[i])
}

/// Some variant occurs in `name`.
pub open spec fn any_within(vs: Seq<Seq<char>>, name: Seq<char>) -> bool {
    exists|i: int| 0 <= i < vs.len() && seq_contains(name, #[trigger] vs[i])
}

/// The number of typos tolerated for a query of `q_len` characters.
pub open spec fn max_typos(q_len: nat) -> nat {
    if q_len <= 3 {
        0
    } else if q_len <= 6 {
        1
    } else {
        2
    }
}

/// How an entry name matches the query (smaller is better): 0 the query
/// itself, 1 a variant, 2 starts with the query, 3 starts with a variant,
/// 4 contains a variant, 5 within the typo allowance of a variant (only
/// while `fuzzy_ok`, the time budget for typo matching, holds).
pub open spec fn primary_rank(name: Seq<char>, q: Seq<char>, vs: Seq<Seq<char>>, fuzzy_ok: bool) -> Option<u32> {
    if name == q {
        Some(0)
    } else if vs.contains(name) {
        Some(1)
    } else if seq_starts_with(name, q) {
        Some(2)
    } else if any_prefix(vs, name) {
        Some(3)
    } else if any_within(vs, name) {
        Some(4)
    } else if max_typos(q.len()) == 0 || !fuzzy_ok {
        None
    } else if fuzzy_best(name, vs, max_typos(q.len())) is Some {
        Some(5)
    } else {
        None
    }
}

/// Applications and shortcuts that are not `.exe` files first, then `.exe`
/// files, then everything else.
pub open spec fn tier_of(kind: u8, is_exe: bool) -> u32 {
    if (kind == KIND_APP || kind == KIND_SHORTCUT) && !is_exe {
        0
    } else if is_exe {
        1
    } else {
        2
    }
}

/// A character count as stored in a score (converted to `u32`, at most
/// 9999).
pub open spec fn capped(n: nat) -> u32 {
    let t = n as u32;
    if t < 9999 {
        t
    } else {
        9999
    }
}

/// The score of an entry, when it matches at all.
pub open spec fn score_of(
    name: Seq<char>,
    path: Seq<char>,
    kind: u8,
    q: Seq<char>,
    vs: Seq<Seq<char>>,
    is_exe: bool,
    frec_inv: u32,
    fuzzy_ok: bool,
) -> Option<ScoreKey> {
    match primary_rank(name, q, vs, fuzzy_ok) {
        Some(p) => Some(
            ScoreKey {
                tier: tier_of(kind, is_exe),
                primary: p,
                frec_inv,
                len: capped(name.len()),
                path_len: capped(path.len()),
            },
        ),
        None => None,
    }
}

fn capped_len(n: usize) -> (r: u32)
    ensures
        r == capped(n as nat),
{
    let t = n as u32;
    if t < 9999 {
        t
    } else {
        9999
    }
}

fn any_equal_exec(vs: &Vec<VariantTable>, name: &[char]) -> (r: bool)
    ensures
        r == variant_texts(vs@).contains(name@),
{
    let mut i: usize = 0;
    while i < vs.len()
        invariant
            i <= vs@.len(),
            forall|k: int| 0 <= k < i ==> variant_texts(vs@)[k] != name@,
        decreases vs@.len() - i,
    {
        if chars_eq(vs[i].0.as_slice(), name) {
            proof {
                assert(variant_texts(vs@)[i as int] == name@);
            }
            return true;
        }
        i = i + 1;
    }
    false
}

fn any_prefix_exec(vs: &Vec<VariantTable>, name: &[char]) -> (r: bool)
    ensures
        r == any_prefix(variant_texts(vs@), name@),
{
    let mut i: usize = 0;
    while i < vs.len()
        invariant
            i <= vs@.len(),
            forall|k: int| 0 <= k < i ==> !seq_starts_with(name@, #[trigger] variant_texts(vs@)[k]),
        decreases vs@.len() - i,
    {
        if chars_starts_with(name, vs[i].0.as_slice()) {
            proof {
                assert(seq_starts_with(name@, variant_texts(vs@)[i as int]));
            }
            return true;
        }
        i = i + 1;
    }
    false
}

fn any_within_exec(vs: &Vec<VariantTable>, name: &[char]) -> (r: bool)
    ensures
        r == any_within(variant_texts(vs@), name@),
{
    let mut i: usize = 0;
    while i < vs.len()
        invariant
            i <= vs@.len(),
            forall|k: int| 0 <= k < i ==> !seq_contains(name@, #[trigger] variant_texts(vs@)[k]),
        decreases vs@.len() - i,
    {
        if chars_contains(name, vs[i].0.as_slice()) {
            proof {
                assert(seq_contains(name@, variant_texts(vs@)[i as int]));
            }
            return true;
        }
        i = i + 1;
    }
    false
}

/// The score of an entry (see `score_of`), given whether its path is an
/// `.exe` file and whether the time budget for typo matching is left.
pub fn match_score(
    e: &SearchEntry,
    q: &[char],
    variants: &Vec<VariantTable>,
    is_exe: bool,
    frec_inv: u32,
    fuzzy_ok: bool,
) -> (r: Option<ScoreKey>)
    requires
        tables_ok(variants@),
    ensures
        r == score_of(
            e.name_lower@,
            e.path@,
            e.kind,
            q@,
            variant_texts(variants@),
            is_exe,
            frec_inv,
            fuzzy_ok,
        ),
{
    let name = chars_of(e.name_lower.as_str());
    let primary: u32 = if chars_eq(name.as_slice(), q) {
        0
    } else if any_equal_exec(variants, name.as_slice()) {
        1
    } else if chars_starts_with(name.as_slice(), q) {
        2
    } else if any_prefix_exec(variants, name.as_slice()) {
        3
    } else if any_within_exec(variants, name.as_slice()) {
        4
    } else {
        let q_len = q.len();
        let max_dist: usize = if q_len <= 3 {
            0
        } else if q_len <= 6 {
            1
        } else {
            2
        };
        if max_dist == 0 {
            return None;
        }
        if !fuzzy_ok {
            return None;
        }
        if is_fuzzy_match(name.as_slice(), variants, max_dist).is_some() {
            5
        } else {
            return None;
        }
    };
    let tier: u32 = if (e.kind == KIND_APP || e.kind == KIND_SHORTCUT) && !is_exe {
        0
    } else if is_exe {
        1
    } else {
        2
    };
    let path = chars_of(e.path.as_str());
    Some(
        ScoreKey {
            tier,
            primary,
            frec_inv,
            len: capped_len(name.len()),
            path_len: capped_len(path.len()),
        },
    )
}

// ---------------------------------------------------------------------------
// Ranking
// ---------------------------------------------------------------------------
/// A matching entry: its score fields (tier, primary, frecency, name
/// length, path length) and its position in the index.
pub type Match = (u32, u32, u32, u32, u32, usize);

/// The match for entry `i` with score `k`.
pub open spec fn match_of(k: ScoreKey, i: usize) -> Match {
    (k.tier, k.primary, k.frec_inv, k.len, k.path_len, i)
}

/// `a` sorts strictly before `b` (tuples compare field by field).
pub open spec fn match_lt(a: Match, b: Match) -> bool {
    a.0 < b.0 || (a.0 == b.0 && (a.1 < b.1 || (a.1 == b.1 && (a.2 < b.2 || (a.2 == b.2 && (a.3
        < b.3 || (a.3 == b.3 && (a.4 < b.4 || (a.4 == b.4 && a.5 < b.5)))))))))
}

/// No match sorts before one that comes earlier.
pub open spec fn sorted_matches(s: Seq<Match>) -> bool {
    forall|i: int, j: int| 0 <= i < j < s.len() ==> !match_lt(#[trigger] s[j], #[trigger] s[i])
}

/// Calls `slice::sort_unstable` on the matches.  The standard library
/// documents that it sorts in ascending order, and orders tuples of
/// integers field by field; the same items come out.
#[verifier::external_body]
fn sort_matches(v: &mut Vec<Match>)
    ensures
        sorted_matches(final(v)@),
        final(v)@.to_multiset() == old(v)@.to_multiset(),
{
    v.sort_unstable();
}

/// At most this many results are shown.
pub const MAX_RESULTS: usize = 30;

pub open spec fn is_app_kind(kind: u8) -> bool {
    kind == KIND_APP || kind == KIND_SHORTCUT
}

/// An application or shortcut of this name is already among `chosen`.
pub open spec fn app_name_taken(entries: Seq<SearchEntry>, chosen: Seq<Match>, name: Seq<char>) -> bool {
    exists|k: int|
        0 <= k < chosen.len() && is_app_kind(entries[(#[trigger] chosen[k]).5 as int].kind)
            && entries[chosen[k].5 as int].name_lower@ == name
}

/// The matches shown, from sorted matches: an application or shortcut whose
/// name was already shown is left out, and the list stops at 30.
pub open spec fn select(entries: Seq<SearchEntry>, picks: Seq<Match>) -> Seq<Match>
    decreases picks.len(),
{
    if picks.len() == 0 {
        seq![]
    } else {
        let prev = select(entries, picks.drop_last());
        let p = picks.last();
        let e = entries[p.5 as int];
        if prev.len() >= MAX_RESULTS {
            prev
        } else if is_app_kind(e.kind) && app_name_taken(entries, prev, e.name_lower@) {
            prev
        } else {
            prev.push(p)
        }
    }
}

/// `r` is the result-list item for entry `e` scored `m`.
pub open spec fn result_for(r: SearchResult, e: SearchEntry, m: Match) -> bool {
    &&& r.name@ == display_spec(file_name_or_empty(e.path@), e.kind)
    &&& r.path@ == e.path@
    &&& r.kind@ == kind_name(e.kind)
    &&& r.icon@ == kind_name(e.kind)
    &&& !r.pinned
    &&& r.icon_data is None
    &&& r.score == (ScoreKey { tier: m.0, primary: m.1, frec_inv: m.2, len: m.3, path_len: m.4 })
}

/// `results` are the items for the matches `chosen`, in order.
pub open spec fn results_for(entries: Seq<SearchEntry>, results: Seq<SearchResult>, chosen: Seq<Match>) -> bool {
    &&& results.len() == chosen.len()
    &&& forall|k: int|
        0 <= k < results.len() ==> result_for(
            #[trigger] results[k],
            entries[chosen[k].5 as int],
            chosen[k],
        )
}

/// `results` show `picks` in score order (see `select`).
pub open spec fn ranked(entries: Seq<SearchEntry>, results: Seq<SearchResult>, picks: Seq<Match>) -> bool {
    exists|s: Seq<Match>|
        sorted_matches(s) && s.to_multiset() == picks.to_multiset() && results_for(
            entries,
            results,
            select(entries, s),
        )
}

/// Every match refers to an entry of the index.
pub open spec fn picks_in(entries: Seq<SearchEntry>, picks: Seq<Match>) -> bool {
    forall|k: int| 0 <= k < picks.len() ==> (#[trigger] picks[k]).5 < entries.len()
}

proof fn lemma_multiset_indices(entries: Seq<SearchEntry>, a: Seq<Match>, b: Seq<Match>)
    requires
        picks_in(entries, b),
        a.to_multiset() == b.to_multiset(),
    ensures
        picks_in(entries, a),
{
    assert forall|k: int| 0 <= k < a.len() implies (#[trigger] a[k]).5 < entries.len() by {
        a.to_multiset_ensures();
        b.to_multiset_ensures();
        assert(a.to_multiset().count(a[k]) > 0);
        assert(b.contains(a[k]));
    }
}

/// Whether an application or shortcut named `name` is among the chosen.
fn app_name_seen(entries: &Vec<SearchEntry>, chosen: &Vec<Match>, name: &[char]) -> (r: bool)
    requires
        picks_in(entries@, chosen@),
    ensures
        r == app_name_taken(entries@, chosen@, name@),
{
    let mut k: usize = 0;
    while k < chosen.len()
        invariant
            k <= chosen@.len(),
            picks_in(entries@, chosen@),
            forall|j: int|
                0 <= j < k ==> !(is_app_kind(entries@[(#[trigger] chosen@[j]).5 as int].kind)
                    && entries@[chosen@[j].5 as int].name_lower@ == name@),
        decreases chosen@.len() - k,
    {
        let e = &entries[chosen[k].5];
        if (e.kind == KIND_APP || e.kind == KIND_SHORTCUT) && chars_eq(
            chars_of(e.name_lower.as_str()).as_slice(),
            name,
        ) {
            return true;
        }
        k = k + 1;
    }
    false
}

/// The result list for a set of matches: sorted by score, applications and
/// shortcuts shown once per name, at most 30 items.
pub fn rank_matches(entries: &Vec<SearchEntry>, picked: Vec<Match>) -> (r: Vec<SearchResult>)
    requires
        picks_in(entries@, picked@),
    ensures
        ranked(entries@, r@, picked@),
{
    let mut sorted = picked;
    sort_matches(&mut sorted);
    proof {
        lemma_multiset_indices(entries@, sorted@, picked@);
    }
    let mut chosen: Vec<Match> = Vec::new();
    let mut results: Vec<SearchResult> = Vec::new();
    let mut i: usize = 0;
    while i < sorted.len()
        invariant
            i <= sorted@.len(),
            picks_in(entries@, sorted@),
            picks_in(entries@, chosen@),
            chosen@ == select(entries@, sorted@.take(i as int)),
            results_for(entries@, results@, chosen@),
            chosen@.len() <= MAX_RESULTS,
        decreases sorted@.len() - i,
    {
        let m = sorted[i];
        let e = &entries[m.5];
        proof {
            assert(sorted@.take(i + 1).drop_last() =~= sorted@.take(i as int));
            assert(sorted@.take(i + 1).last() == m);
        }
        if chosen.len() >= MAX_RESULTS {
            proof {
                lemma_select_full(entries@, sorted@, (i + 1) as int);
                assert(sorted@.take(sorted@.len() as int) =~= sorted@);
            }
            i = sorted.len();
            continue;
        }
        let name = chars_of(e.name_lower.as_str());
        let is_app = e.kind == KIND_APP || e.kind == KIND_SHORTCUT;
        if is_app && app_name_seen(entries, &chosen, name.as_slice()) {
            i = i + 1;
            continue;
        }
        let mut res = entry_to_result(e);
        res.score = ScoreKey { tier: m.0, primary: m.1, frec_inv: m.2, len: m.3, path_len: m.4 };
        let ghost chosen0 = chosen@;
        let ghost results0 = results@;
        results.push(res);
        chosen.push(m);
        proof {
            assert(chosen@ == chosen0.push(m));
            assert(results@ == results0.push(res));
            assert forall|k: int| 0 <= k < chosen@.len() implies (#[trigger] chosen@[k]).5
                < entries@.len() by {
                if k < chosen@.len() - 1 {
                    assert(chosen@[k] == chosen0[k]);
                }
            }
        }
        i = i + 1;
    }
    proof {
        assert(sorted@.take(i as int) =~= sorted@);
        assert(sorted@.to_multiset() == picked@.to_multiset());
        assert(results_for(entries@, results@, select(entries@, sorted@)));
        assert(sorted_matches(sorted@));
    }
    results
}

proof fn lemma_select_full(entries: Seq<SearchEntry>, s: Seq<Match>, n: int)
    requires
        0 <= n <= s.len(),
        select(entries, s.take(n - 1)).len() >= MAX_RESULTS,
        n >= 1,
    ensures
        select(entries, s) == select(entries, s.take(n - 1)),
    decreases s.len() - n,
{
    assert(s.take(n).drop_last() =~= s.take(n - 1));
    if n < s.len() {
        lemma_select_full(entries, s, n + 1);
    } else {
        assert(s.take(n) =~= s);
    }
}

// ---------------------------------------------------------------------------
// Laws of matching
// ---------------------------------------------------------------------------
/// The query, and each of its keyboard-layout and transliteration forms, is
/// among the texts it is matched as; the query itself comes first.
pub proof fn law_variants_cover_the_query(q: Seq<char>)
    ensures
        search_variants(q).len() >= 1,
        search_variants(q)[0] == q,
        search_variants(q).contains(layout_ru(q)),
        search_variants(q).contains(layout_en(q)),
        search_variants(q).contains(translit_en(q)),
        search_variants(q).contains(translit_ru(q)),
{
    let v0 = seq![q];
    let v1 = add_unique(v0, layout_ru(q));
    let v2 = add_unique(v1, layout_en(q));
    let v3 = add_unique(v2, translit_en(q));
    let v4 = add_unique(v3, translit_ru(q));
    assert(v0[0] == q);
    lemma_add_unique(v0, layout_ru(q));
    lemma_add_unique(v1, layout_en(q));
    lemma_add_unique(v2, translit_en(q));
    lemma_add_unique(v3, translit_ru(q));
}

/// Adding a text keeps what was there, in place, and then holds the text.
proof fn lemma_add_unique(vs: Seq<Seq<char>>, v: Seq<char>)
    ensures
        add_unique(vs, v).len() >= vs.len(),
        forall|i: int| 0 <= i < vs.len() ==> #[trigger] add_unique(vs, v)[i] == vs[i],
        add_unique(vs, v).contains(v),
        forall|t: Seq<char>| vs.contains(t) ==> #[trigger] add_unique(vs, v).contains(t),
{
    if !vs.contains(v) {
        assert(vs.push(v)[vs.len() as int] == v);
        assert forall|t: Seq<char>| vs.contains(t) implies #[trigger] vs.push(v).contains(t) by {
            let i = choose|i: int| 0 <= i < vs.len() && vs[i] == t;
            assert(vs.push(v)[i] == t);
        }
    }
}

/// How the primary rank orders matches: the query itself ranks 0; another
/// variant 1; a name starting with the query 2, with a variant 3; one
/// containing a variant 4; a typo match 5 and only for queries of four or
/// more characters while typo matching has time, one typo allowed up to
/// six characters and two beyond.
pub proof fn law_primary_ranks(name: Seq<char>, q: Seq<char>, vs: Seq<Seq<char>>, fuzzy_ok: bool)
    ensures
        name == q ==> primary_rank(name, q, vs, fuzzy_ok) == Some(0u32),
        name != q && vs.contains(name) ==> primary_rank(name, q, vs, fuzzy_ok) == Some(1u32),
        name != q && !vs.contains(name) && seq_starts_with(name, q) ==> primary_rank(
            name,
            q,
            vs,
            fuzzy_ok,
        ) == Some(2u32),
        primary_rank(name, q, vs, fuzzy_ok) matches Some(p) ==> p <= 5,
        primary_rank(name, q, vs, fuzzy_ok) == Some(5u32) ==> q.len() >= 4 && fuzzy_ok,
        4 <= q.len() <= 6 ==> max_typos(q.len()) == 1,
        q.len() >= 7 ==> max_typos(q.len()) == 2,
{
}

/// Result tiers: applications and shortcuts that are not `.exe` files come
/// first, then `.exe` files, then everything else.
pub proof fn law_result_tiers(kind: u8, is_exe: bool)
    ensures
        (kind == KIND_APP || kind == KIND_SHORTCUT) && !is_exe ==> tier_of(kind, is_exe) == 0,
        is_exe ==> tier_of(kind, is_exe) == 1,
        !(kind == KIND_APP || kind == KIND_SHORTCUT) && !is_exe ==> tier_of(kind, is_exe) == 2,
{
}

/// A name that contains the query, or any of its variants, always matches,
/// whatever time is left for typo matching; so does a name that equals one.
pub proof fn law_substring_always_matches(
    name: Seq<char>,
    q: Seq<char>,
    v: Seq<char>,
    fuzzy_ok: bool,
)
    requires
        search_variants(q).contains(v),
        seq_contains(name, v),
    ensures
        primary_rank(name, q, search_variants(q), fuzzy_ok) matches Some(p) && p <= 4,
{
    let vs = search_variants(q);
    let i = choose|i: int| 0 <= i < vs.len() && vs[i] == v;
    assert(any_within(vs, name));
}

// ---------------------------------------------------------------------------
// Laws of the result list
// ---------------------------------------------------------------------------
/// The result list never holds more than 30 items.
pub proof fn law_results_at_most_thirty(entries: Seq<SearchEntry>, picks: Seq<Match>)
    ensures
        select(entries, picks).len() <= MAX_RESULTS,
    decreases picks.len(),
{
    if picks.len() > 0 {
        law_results_at_most_thirty(entries, picks.drop_last());
    }
}

/// No two applications or shortcuts of the result list share a name.
pub proof fn law_apps_shown_once(entries: Seq<SearchEntry>, picks: Seq<Match>)
    ensures
        forall|i: int, j: int|
            0 <= i < j < select(entries, picks).len() && is_app_kind(
                entries[(#[trigger] select(entries, picks)[i]).5 as int].kind,
            ) && is_app_kind(entries[(#[trigger] select(entries, picks)[j]).5 as int].kind)
                ==> entries[select(entries, picks)[i].5 as int].name_lower@ != entries[select(
                entries,
                picks,
            )[j].5 as int].name_lower@,
    decreases picks.len(),
{
    if picks.len() > 0 {
        law_apps_shown_once(entries, picks.drop_last());
        let prev = select(entries, picks.drop_last());
        let sel = select(entries, picks);
        if sel.len() > prev.len() {
            assert(sel == prev.push(picks.last()));
            assert forall|i: int, j: int|
                0 <= i < j < sel.len() && is_app_kind(entries[(#[trigger] sel[i]).5 as int].kind)
                    && is_app_kind(entries[(#[trigger] sel[j]).5 as int].kind) implies entries[sel[i].5 as int].name_lower@
                != entries[sel[j].5 as int].name_lower@ by {
                if j == sel.len() - 1 {
                    assert(sel[i] == prev[i]);
                    if entries[sel[i].5 as int].name_lower@ == entries[sel[j].5 as int].name_lower@ {
                        assert(app_name_taken(entries, prev, entries[picks.last().5 as int].name_lower@));
                    }
                } else {
                    assert(sel[i] == prev[i]);
                    assert(sel[j] == prev[j]);
                }
            }
        }
    }
}

/// Every item of the result list is one of the matches.
proof fn lemma_select_from(entries: Seq<SearchEntry>, picks: Seq<Match>)
    ensures
        forall|k: int|
            0 <= k < select(entries, picks).len() ==> exists|m: int|
                0 <= m < picks.len() && picks[m] == #[trigger] select(entries, picks)[k],
    decreases picks.len(),
{
    if picks.len() > 0 {
        lemma_select_from(entries, picks.drop_last());
        let prev = select(entries, picks.drop_last());
        let sel = select(entries, picks);
        assert forall|k: int| 0 <= k < sel.len() implies exists|m: int|
            0 <= m < picks.len() && picks[m] == #[trigger] sel[k] by {
            if k < prev.len() {
                assert(sel[k] == prev[k]);
                let m = choose|m: int| 0 <= m < picks.drop_last().len() && picks.drop_last()[m] == prev[k];
                assert(picks[m] == sel[k]);
            } else {
                assert(sel[k] == picks[picks.len() - 1]);
            }
        }
    }
}

/// Results come in score order: the list keeps the order of the sorted
/// matches it is taken from.
pub proof fn law_results_in_score_order(entries: Seq<SearchEntry>, picks: Seq<Match>)
    requires
        sorted_matches(picks),
    ensures
        sorted_matches(select(entries, picks)),
    decreases picks.len(),
{
    if picks.len() > 0 {
        let rest = picks.drop_last();
        assert(sorted_matches(rest)) by {
            assert forall|i: int, j: int| 0 <= i < j < rest.len() implies !match_lt(
                #[trigger] rest[j],
                #[trigger] rest[i],
            ) by {
                assert(rest[i] == picks[i]);
                assert(rest[j] == picks[j]);
            }
        }
        law_results_in_score_order(entries, rest);
        lemma_select_from(entries, rest);
        let prev = select(entries, rest);
        let sel = select(entries, picks);
        if sel.len() > prev.len() {
            assert(sel == prev.push(picks.last()));
            assert forall|i: int, j: int| 0 <= i < j < sel.len() implies !match_lt(
                #[trigger] sel[j],
                #[trigger] sel[i],
            ) by {
                assert(sel[i] == prev[i]);
                if j == sel.len() - 1 {
                    let m = choose|m: int| 0 <= m < rest.len() && rest[m] == #[trigger] prev[i];
                    assert(picks[m] == prev[i]);
                    assert(sel[j] == picks[picks.len() - 1]);
                } else {
                    assert(sel[j] == prev[j]);
                }
            }
        }
    }
}

/// No better match is left out: going down the sorted matches, a match is
/// passed over only when 30 results, none worse than it, are already
/// chosen, or when it is an application or shortcut and one of the same
/// name, none worse than it, is already chosen.
pub proof fn law_no_better_match_left_out(entries: Seq<SearchEntry>, picks: Seq<Match>, j: int)
    requires
        sorted_matches(picks),
        0 <= j < picks.len(),
    ensures
        ({
            let prev = select(entries, picks.take(j));
            let m = picks[j];
            let e = entries[m.5 as int];
            ||| select(entries, picks.take(j + 1)) == prev.push(m)
            ||| prev.len() >= MAX_RESULTS && forall|k: int|
                0 <= k < prev.len() ==> !match_lt(m, #[trigger] prev[k])
            ||| is_app_kind(e.kind) && exists|k: int|
                0 <= k < prev.len() && is_app_kind(entries[(#[trigger] prev[k]).5 as int].kind)
                    && entries[prev[k].5 as int].name_lower@ == e.name_lower@ && !match_lt(
                    m,
                    prev[k],
                )
        }),
{
    let t = picks.take(j + 1);
    let before = picks.take(j);
    assert(t.drop_last() =~= before);
    assert(t.last() == picks[j]);
    let prev = select(entries, before);
    let m = picks[j];
    lemma_select_from(entries, before);
    assert forall|k: int| 0 <= k < prev.len() implies !match_lt(m, #[trigger] prev[k]) by {
        let i = choose|i: int| 0 <= i < before.len() && before[i] == prev[k];
        assert(picks[i] == prev[k]);
    }
}

/// The results chosen from the first `a` sorted matches stay the first
/// results once more matches are looked at.
proof fn lemma_select_prefix(entries: Seq<SearchEntry>, picks: Seq<Match>, a: int)
    requires
        0 <= a <= picks.len(),
    ensures
        select(entries, picks.take(a)).len() <= select(entries, picks).len(),
        forall|k: int|
            0 <= k < select(entries, picks.take(a)).len() ==> #[trigger] select(entries, picks)[k]
                == select(entries, picks.take(a))[k],
    decreases picks.len(),
{
    if a == picks.len() {
        assert(picks.take(a) =~= picks);
    } else {
        let rest = picks.drop_last();
        assert(rest.take(a) =~= picks.take(a));
        lemma_select_prefix(entries, rest, a);
        let prev = select(entries, rest);
        let sel = select(entries, picks);
        assert forall|k: int| 0 <= k < prev.len() implies sel[k] == prev[k] by {
            if sel.len() > prev.len() {
                assert(sel == prev.push(picks.last()));
            }
        }
    }
}

/// In a ranked result list no better match is left out: every match is
/// shown, or 30 results none worse than it are shown, or it is an
/// application or shortcut and one of the same name, none worse than it,
/// is shown.  `chosen` are the matches the results show, in order.
pub proof fn law_ranked_leaves_out_no_better(
    entries: Seq<SearchEntry>,
    r: Seq<SearchResult>,
    picks: Seq<Match>,
    i: int,
)
    requires
        ranked(entries, r, picks),
        0 <= i < picks.len(),
    ensures
        exists|chosen: Seq<Match>|
            {
                let m = picks[i];
                let e = entries[m.5 as int];
                &&& #[trigger] results_for(entries, r, chosen)
                &&& {
                    ||| chosen.contains(m)
                    ||| chosen.len() == MAX_RESULTS && forall|k: int|
                        0 <= k < chosen.len() ==> !match_lt(m, #[trigger] chosen[k])
                    ||| is_app_kind(e.kind) && exists|k: int|
                        0 <= k < chosen.len() && is_app_kind(
                            entries[(#[trigger] chosen[k]).5 as int].kind,
                        ) && entries[chosen[k].5 as int].name_lower@ == e.name_lower@
                            && !match_lt(m, chosen[k])
                }
            },
{
    let s = choose|s: Seq<Match>|
        sorted_matches(s) && s.to_multiset() == picks.to_multiset() && results_for(
            entries,
            r,
            select(entries, s),
        );
    let m = picks[i];
    s.to_multiset_ensures();
    picks.to_multiset_ensures();
    assert(picks.to_multiset().count(m) > 0);
    assert(s.contains(m));
    let j = choose|j: int| 0 <= j < s.len() && s[j] == m;
    let chosen = select(entries, s);
    let prev = select(entries, s.take(j));
    law_no_better_match_left_out(entries, s, j);
    lemma_select_prefix(entries, s, j);
    lemma_select_prefix(entries, s, j + 1);
    law_results_at_most_thirty(entries, s);
    if select(entries, s.take(j + 1)) == prev.push(m) {
        assert(chosen[prev.len() as int] == m);
    } else if prev.len() >= MAX_RESULTS {
        assert(chosen =~= prev);
    } else {
        let e = entries[m.5 as int];
        let k = choose|k: int|
            0 <= k < prev.len() && is_app_kind(entries[(#[trigger] prev[k]).5 as int].kind)
                && entries[prev[k].5 as int].name_lower@ == e.name_lower@ && !match_lt(m, prev[k]);
        assert(chosen[k] == prev[k]);
    }
    assert(results_for(entries, r, chosen));
}

// ---------------------------------------------------------------------------
// Searching the index
// ---------------------------------------------------------------------------
/// `std::time::Instant`, carried through as an opaque value.
#[verifier::external_type_specification]
#[verifier::external_body]
pub struct ExInstant(std::time::Instant);

/// Calls `Instant::now`.  Nothing is stated of the time it reads.
#[verifier::external_body]
fn instant_now() -> std::time::Instant {
    std::time::Instant::now()
}

/// Calls `Instant::elapsed` (the time since `start`; it saturates at zero
/// and does not panic).  Nothing is stated of the time it reads.
#[verifier::external_body]
fn elapsed_since(start: &std::time::Instant) -> std::time::Duration {
    start.elapsed()
}

/// Calls `Duration::as_nanos`.  Durations are opaque here, so nothing is
/// stated of the number.
#[verifier::external_body]
fn duration_nanos(d: &std::time::Duration) -> u128 {
    d.as_nanos()
}

/// Whether the entry at `path` counts as an `.exe`: its extension,
/// lowercased, is `exe`.
pub open spec fn path_is_exe(path: Seq<char>) -> bool {
    lower_ext(extension_spec(path)) == "exe"@
}

/// Whether the entry at `path` is an `.exe` file (see `path_is_exe`).
pub fn entry_is_exe(path: &str) -> (r: bool)
    ensures
        r == path_is_exe(path@),
{
    let ext = extension_lower(path);
    str_eq(ext.as_str(), "exe")
}

/// The matches among the first `n` entries, in index order: entries of a
/// turned-off kind are left out, and so are entries scanned while the
/// search was stale (`live` false); `fuzzy_ok` gives, per entry, whether
/// typo matching still had time.
pub open spec fn picks_spec(
    entries: Seq<SearchEntry>,
    q: Seq<char>,
    vs: Seq<Seq<char>>,
    frec_inv: Seq<u32>,
    disabled: Seq<u8>,
    live: Seq<bool>,
    fuzzy_ok: Seq<bool>,
    n: int,
) -> Seq<Match>
    decreases n,
{
    if n <= 0 {
        seq![]
    } else {
        pick_step(
            picks_spec(entries, q, vs, frec_inv, disabled, live, fuzzy_ok, n - 1),
            entries,
            n - 1,
            q,
            vs,
            frec_inv,
            disabled,
            live[n - 1],
            fuzzy_ok[n - 1],
        )
    }
}

/// `prev` with the match of entry `i` appended, if it is one: its kind is
/// not turned off, the search was current (`alive`) when it was scanned,
/// and it scores against the query (typo matching allowed when `fuzzy_ok`).
pub open spec fn pick_step(
    prev: Seq<Match>,
    entries: Seq<SearchEntry>,
    i: int,
    q: Seq<char>,
    vs: Seq<Seq<char>>,
    frec_inv: Seq<u32>,
    disabled: Seq<u8>,
    alive: bool,
    fuzzy_ok: bool,
) -> Seq<Match> {
    let e = entries[i];
    if disabled.contains(e.kind) || !alive {
        prev
    } else {
        match score_of(
            e.name_lower@,
            e.path@,
            e.kind,
            q,
            vs,
            path_is_exe(e.path@),
            frec_inv[i],
            fuzzy_ok,
        ) {
            Some(k) => prev.push(match_of(k, i as usize)),
            None => prev,
        }
    }
}

/// Scans entry `i`: appends its match to `picked` as `pick_step` says,
/// given whether the search was still current (`alive`) and whether typo
/// matching still had time (`fuzzy_ok`).
pub fn scan_entry(
    picked: &mut Vec<Match>,
    entries: &Vec<SearchEntry>,
    i: usize,
    q: &[char],
    variants: &Vec<VariantTable>,
    frec_inv: &Vec<u32>,
    disabled_kinds: &Vec<u8>,
    alive: bool,
    fuzzy_ok: bool,
)
    requires
        i < entries@.len(),
        frec_inv@.len() == entries@.len(),
        tables_ok(variants@),
    ensures
        final(picked)@ == pick_step(
            old(picked)@,
            entries@,
            i as int,
            q@,
            variant_texts(variants@),
            frec_inv@,
            disabled_kinds@,
            alive,
            fuzzy_ok,
        ),
{
    let e = &entries[i];
    if alive && !contains_u8(disabled_kinds, e.kind) {
        let exe = entry_is_exe(e.path.as_str());
        match match_score(e, q, variants, exe, frec_inv[i], fuzzy_ok) {
            Some(k) => {
                picked.push((k.tier, k.primary, k.frec_inv, k.len, k.path_len, i));
            },
            None => {},
        }
    }
}

/// The answer of a search once its matches are picked: nothing when the
/// search is no longer current, else the matches ranked (see `ranked`).
pub fn finish_search(entries: &Vec<SearchEntry>, picked: Vec<Match>, still_current: bool) -> (r:
    Vec<SearchResult>)
    requires
        picks_in(entries@, picked@),
    ensures
        still_current ==> ranked(entries@, r@, picked@),
        !still_current ==> r@.len() == 0,
{
    if still_current {
        rank_matches(entries, picked)
    } else {
        Vec::new()
    }
}

proof fn lemma_picks_in(
    entries: Seq<SearchEntry>,
    q: Seq<char>,
    vs: Seq<Seq<char>>,
    frec_inv: Seq<u32>,
    disabled: Seq<u8>,
    live: Seq<bool>,
    fuzzy_ok: Seq<bool>,
    n: int,
)
    requires
        n <= entries.len(),
        entries.len() <= usize::MAX,
    ensures
        picks_in(entries, picks_spec(entries, q, vs, frec_inv, disabled, live, fuzzy_ok, n)),
    decreases n,
{
    if n > 0 {
        lemma_picks_in(entries, q, vs, frec_inv, disabled, live, fuzzy_ok, n - 1);
    }
}

fn contains_u8(v: &Vec<u8>, x: u8) -> (r: bool)
    ensures
        r == v@.contains(x),
{
    let mut i: usize = 0;
    while i < v.len()
        invariant
            i <= v@.len(),
            forall|k: int| 0 <= k < i ==> v@[k] != x,
        decreases v@.len() - i,
    {
        if v[i] == x {
            return true;
        }
        i = i + 1;
    }
    false
}

/// The variants of the query with their character tables.
fn variant_tables(q: &[char]) -> (r: Vec<VariantTable>)
    ensures
        variant_texts(r@) == search_variants(q@),
        tables_ok(r@),
{
    let vs = get_search_variants(q);
    let mut r: Vec<VariantTable> = Vec::new();
    let mut i: usize = 0;
    while i < vs.len()
        invariant
            i <= vs@.len(),
            views(vs@) == search_variants(q@),
            r@.len() == i,
            variant_texts(r@) == views(vs@).take(i as int),
            tables_ok(r@),
        decreases vs@.len() - i,
    {
        let mut v: Vec<char> = Vec::new();
        let mut k: usize = 0;
        while k < vs[i].len()
            invariant
                i < vs@.len(),
                k <= vs@[i as int]@.len(),
                v@ == vs@[i as int]@.take(k as int),
            decreases vs@[i as int]@.len() - k,
        {
            v.push(vs[i][k]);
            proof {
                assert(v@ =~= vs@[i as int]@.take(k + 1));
            }
            k = k + 1;
        }
        proof {
            assert(v@ =~= vs@[i as int]@);
        }
        let t = variant_char_table(v.as_slice());
        let ghost r0 = r@;
        r.push((v, t));
        proof {
            assert(r@ == r0.push((v, t)));
            assert(views(vs@)[i as int] == v@);
            assert forall|j: int| 0 <= j < i + 1 implies #[trigger] variant_texts(r@)[j] == views(
                vs@,
            ).take(i + 1)[j] by {
                if j < i {
                    assert(r@[j] == r0[j]);
                    assert(variant_texts(r0)[j] == views(vs@).take(i as int)[j]);
                }
            }
            assert(variant_texts(r@) =~= views(vs@).take(i + 1));
            assert forall|j: int| 0 <= j < r@.len() implies table_of(
                (#[trigger] r@[j]).1@,
                r@[j].0@,
            ) by {
                if j < r0.len() {
                    assert(r@[j] == r0[j]);
                }
            }
        }
        i = i + 1;
    }
    proof {
        assert(views(vs@).take(i as int) =~= views(vs@));
    }
    r
}

/// Typo matching stops this many milliseconds into a search.
pub const FUZZY_BUDGET_MS: u64 = 250;

/// Whether typo matching still has time after `elapsed_ns` nanoseconds of
/// a search: at most `FUZZY_BUDGET_MS` milliseconds have passed.
pub open spec fn typo_time_ok(elapsed_ns: u128) -> bool {
    elapsed_ns <= FUZZY_BUDGET_MS * 1_000_000
}

/// Whether typo matching still has time (see `typo_time_ok`).
pub fn typo_time_left(elapsed_ns: u128) -> (r: bool)
    ensures
        r == typo_time_ok(elapsed_ns),
{
    elapsed_ns <= (FUZZY_BUDGET_MS as u128) * 1_000_000
}

/// Whether the value read from the search counter is `version`: when it is
/// not, a newer search has started and this one is stale.
pub fn version_matches(read: u32, version: u32) -> (r: bool)
    ensures
        r == (read == version),
{
    read == version
}

/// Reads the search counter.  Other threads move it, so nothing is known
/// of the value.
fn read_counter(current: &std::sync::atomic::AtomicU32) -> u32 {
    current.load(std::sync::atomic::Ordering::SeqCst)
}

/// Whether the search counter still holds `version` (see
/// `version_matches`; the value read depends on other threads).
pub fn is_current(current: &std::sync::atomic::AtomicU32, version: u32) -> bool {
    version_matches(read_counter(current), version)
}

/// What `search_index` returns for given values of its reads: `first`,
/// `reads` (one per entry) and `last` from the search counter, and
/// `elapsed` (one per entry, in nanoseconds since the search began) from
/// the clock.  The search is current where a read gives `version`, and typo
/// matching has time where `typo_time_ok` holds.
pub open spec fn search_run(
    entries: Seq<SearchEntry>,
    frec_inv: Seq<u32>,
    query: Seq<char>,
    disabled: Seq<u8>,
    version: u32,
    r: Seq<SearchResult>,
    first: u32,
    reads: Seq<u32>,
    last: u32,
    elapsed: Seq<u128>,
) -> bool {
    search_outcome(
        entries,
        frec_inv,
        query,
        disabled,
        r,
        first == version,
        last == version,
        current_flags(reads, version),
        typo_flags(elapsed),
    )
}

/// For each counter read, whether it gave `version`.
pub open spec fn current_flags(reads: Seq<u32>, version: u32) -> Seq<bool> {
    reads.map_values(|x: u32| x == version)
}

/// For each clock read, whether typo matching still had time.
pub open spec fn typo_flags(elapsed: Seq<u128>) -> Seq<bool> {
    elapsed.map_values(|e: u128| typo_time_ok(e))
}

/// What `search_index` returns for given outcomes of its counter reads,
/// clock reads and extension reads (see there).
pub open spec fn search_outcome(
    entries: Seq<SearchEntry>,
    frec_inv: Seq<u32>,
    query: Seq<char>,
    disabled: Seq<u8>,
    r: Seq<SearchResult>,
    started: bool,
    finished: bool,
    live: Seq<bool>,
    fuzzy_ok: Seq<bool>,
) -> bool {
    &&& live.len() == entries.len()
    &&& fuzzy_ok.len() == entries.len()
    &&& if str_to_lowercase(query).len() == 0 || !started || !finished {
        r.len() == 0
    } else {
        ranked(
            entries,
            r,
            picks_spec(
                entries,
                str_to_lowercase(query),
                search_variants(str_to_lowercase(query)),
                frec_inv,
                disabled,
                live,
                fuzzy_ok,
                entries.len() as int,
            ),
        )
    }
}

/// Whether `first`, `reads` and `last` are values `counter` can give, for
/// each read a search makes: the first read when the query is not empty,
/// and the others when the first gave `version`.
pub open spec fn read_from<C: Fn() -> u32>(
    counter: C,
    query: Seq<char>,
    version: u32,
    first: u32,
    reads: Seq<u32>,
    last: u32,
) -> bool {
    &&& str_to_lowercase(query).len() > 0 ==> counter.ensures((), first)
    &&& (str_to_lowercase(query).len() > 0 && first == version) ==> (forall|k: int|
        0 <= k < reads.len() ==> counter.ensures((), #[trigger] reads[k])) && counter.ensures(
        (),
        last,
    )
}

/// The nanoseconds from clock reading `t0` to `t` (none when the clock
/// went back).
pub open spec fn since(t0: u128, t: u128) -> u128 {
    if t >= t0 {
        (t - t0) as u128
    } else {
        0
    }
}

/// Whether `t0`, `stamps` and `elapsed` are readings `clock` can give for
/// a search that started (a query, and the first counter read gave
/// `version`): `t0` when the scan began, one stamp per entry, and each
/// elapsed time the stamp's distance from `t0`.
pub open spec fn timed_by<K: Fn() -> u128>(
    clock: K,
    query: Seq<char>,
    version: u32,
    first: u32,
    t0: u128,
    stamps: Seq<u128>,
    elapsed: Seq<u128>,
) -> bool {
    (str_to_lowercase(query).len() > 0 && first == version) ==> {
        &&& clock.ensures((), t0)
        &&& stamps.len() == elapsed.len()
        &&& forall|k: int|
            0 <= k < stamps.len() ==> clock.ensures((), #[trigger] stamps[k]) && elapsed[k]
                == since(t0, stamps[k])
    }
}

/// A search's result together with the readings it was decided on: the
/// counter's (`read_from`) and the clock's (`timed_by`), as `search_run`
/// relates them to the result.
pub open spec fn scanned_as<C: Fn() -> u32, K: Fn() -> u128>(
    entries: Seq<SearchEntry>,
    frec_inv: Seq<u32>,
    query: Seq<char>,
    disabled: Seq<u8>,
    counter: C,
    clock: K,
    version: u32,
    r: Seq<SearchResult>,
    first: u32,
    reads: Seq<u32>,
    last: u32,
    t0: u128,
    stamps: Seq<u128>,
    elapsed: Seq<u128>,
) -> bool {
    &&& search_run(entries, frec_inv, query, disabled, version, r, first, reads, last, elapsed)
    &&& read_from(counter, query, version, first, reads, last)
    &&& timed_by(clock, query, version, first, t0, stamps, elapsed)
}

/// The entries matching `query`, best first, at most 30 (see `select`),
/// reading the search counter through `counter`.  `frec_inv` gives for
/// each entry its frecency term (lower for more frequently and recently
/// used items); entries whose kind is in `disabled_kinds` are left out;
/// typo matching stops 250 ms into the search.  The search gives up with no
/// results once the counter no longer gives `version`.
///
/// Stated (`search_run`): for the values `counter` gave (`read_from`) and
/// the clock read, the result is empty when the query is empty or the
/// counter did not give `version` at the start or the end; otherwise it
/// ranks exactly the matches `picks_spec` describes, an entry counting only
/// when the read before it gave `version`, and typo matching only while at
/// most 250 ms had passed.
pub fn search_entries<C: Fn() -> u32, K: Fn() -> u128>(
    entries: &Vec<SearchEntry>,
    frec_inv: &Vec<u32>,
    query: &str,
    disabled_kinds: &Vec<u8>,
    counter: &C,
    clock: &K,
    version: u32,
) -> (r: Vec<SearchResult>)
    requires
        frec_inv@.len() == entries@.len(),
        counter.requires(()),
        clock.requires(()),
    ensures
        exists|
            first: u32,
            reads: Seq<u32>,
            last: u32,
            t0: u128,
            stamps: Seq<u128>,
            elapsed: Seq<u128>,
        |
            #[trigger] scanned_as(
                entries@,
                frec_inv@,
                query@,
                disabled_kinds@,
                *counter,
                *clock,
                version,
                r@,
                first,
                reads,
                last,
                t0,
                stamps,
                elapsed,
            ),
{
    let lower = to_lowercase(query);
    let q = chars_of(lower.as_str());
    let ghost n = entries@.len();
    let ghost no_reads = Seq::new(n, |i: int| 0u32);
    let ghost no_times = Seq::new(n, |i: int| 0u128);
    proof {
        assert(current_flags(no_reads, version).len() == n);
        assert(typo_flags(no_times).len() == n);
    }
    if q.len() == 0 {
        let r: Vec<SearchResult> = Vec::new();
        proof {
            assert(search_run(
                entries@,
                frec_inv@,
                query@,
                disabled_kinds@,
                version,
                r@,
                0,
                no_reads,
                0,
                no_times,
            ));
            assert(read_from(*counter, query@, version, 0, no_reads, 0));
            assert(timed_by(*clock, query@, version, 0, 0, no_times, no_times));
            assert(scanned_as(entries@, frec_inv@, query@, disabled_kinds@, *counter, *clock, version, r@, 0, no_reads, 0, 0, no_times, no_times));
        }
        return r;
    }
    let first = counter();
    if !version_matches(first, version) {
        let r: Vec<SearchResult> = Vec::new();
        proof {
            assert(search_run(
                entries@,
                frec_inv@,
                query@,
                disabled_kinds@,
                version,
                r@,
                first,
                no_reads,
                0,
                no_times,
            ));
            assert(read_from(*counter, query@, version, first, no_reads, 0));
            assert(timed_by(*clock, query@, version, first, 0, no_times, no_times));
            assert(scanned_as(entries@, frec_inv@, query@, disabled_kinds@, *counter, *clock, version, r@, first, no_reads, 0, 0, no_times, no_times));
        }
        return r;
    }
    let variants = variant_tables(q.as_slice());
    let ghost vs = search_variants(q@);
    let t0 = clock();
    let mut picked: Vec<Match> = Vec::new();
    let ghost mut reads: Seq<u32> = seq![];
    let ghost mut times: Seq<u128> = seq![];
    let ghost mut stamps: Seq<u128> = seq![];
    let ghost mut live: Seq<bool> = seq![];
    let ghost mut fuzzy_ok: Seq<bool> = seq![];
    let mut i: usize = 0;
    while i < entries.len()
        invariant
            i <= entries@.len(),
            frec_inv@.len() == entries@.len(),
            tables_ok(variants@),
            variant_texts(variants@) == vs,
            live.len() == i,
            fuzzy_ok.len() == i,
            live == current_flags(reads, version),
            counter.requires(()),
            forall|k: int| 0 <= k < reads.len() ==> counter.ensures((), #[trigger] reads[k]),
            fuzzy_ok == typo_flags(times),
            clock.requires(()),
            clock.ensures((), t0),
            stamps.len() == times.len(),
            forall|k: int|
                0 <= k < stamps.len() ==> clock.ensures((), #[trigger] stamps[k]) && times[k]
                    == since(t0, stamps[k]),
            picked@ == picks_spec(
                entries@,
                q@,
                vs,
                frec_inv@,
                disabled_kinds@,
                live,
                fuzzy_ok,
                i as int,
            ),
        decreases entries@.len() - i,
    {
        let read = counter();
        let alive = version_matches(read, version);
        let now = clock();
        let spent: u128 = if now >= t0 {
            now - t0
        } else {
            0
        };
        let fz = typo_time_left(spent);
        let ghost live0 = live;
        let ghost fuzzy_ok0 = fuzzy_ok;
        proof {
            assert(current_flags(reads.push(read), version) =~= live.push(alive));
            assert(typo_flags(times.push(spent)) =~= fuzzy_ok.push(fz));
            reads = reads.push(read);
            times = times.push(spent);
            stamps = stamps.push(now);
            live = live.push(alive);
            fuzzy_ok = fuzzy_ok.push(fz);
            lemma_picks_prefix(
                entries@,
                q@,
                vs,
                frec_inv@,
                disabled_kinds@,
                live0,
                live,
                fuzzy_ok0,
                fuzzy_ok,
                i as int,
            );
        }
        scan_entry(
            &mut picked,
            entries,
            i,
            q.as_slice(),
            &variants,
            frec_inv,
            disabled_kinds,
            alive,
            fz,
        );
        i = i + 1;
    }
    proof {
        lemma_picks_in(entries@, q@, vs, frec_inv@, disabled_kinds@, live, fuzzy_ok, i as int);
    }
    let last = counter();
    let finished = version_matches(last, version);
    let r = finish_search(entries, picked, finished);
    proof {
        assert(search_run(
            entries@,
            frec_inv@,
            query@,
            disabled_kinds@,
            version,
            r@,
            first,
            reads,
            last,
            times,
        ));
        assert(read_from(*counter, query@, version, first, reads, last));
        assert(timed_by(*clock, query@, version, first, t0, stamps, times));
        assert(scanned_as(entries@, frec_inv@, query@, disabled_kinds@, *counter, *clock, version, r@, first, reads, last, t0, stamps, times));
    }
    r
}


/// The entries matching `query`, best first, at most 30, reading the
/// search counter `current` (see `search_entries`; the values read depend
/// on other threads).
pub fn search_index(
    entries: &Vec<SearchEntry>,
    frec_inv: &Vec<u32>,
    query: &str,
    disabled_kinds: &Vec<u8>,
    current: &std::sync::atomic::AtomicU32,
    version: u32,
) -> (r: Vec<SearchResult>)
    requires
        frec_inv@.len() == entries@.len(),
    ensures
        exists|first: u32, reads: Seq<u32>, last: u32, elapsed: Seq<u128>|
            #[trigger] search_run(
                entries@,
                frec_inv@,
                query@,
                disabled_kinds@,
                version,
                r@,
                first,
                reads,
                last,
                elapsed,
            ),
{
    let counter = || read_counter(current);
    let epoch = instant_now();
    let clock = || duration_nanos(&elapsed_since(&epoch));
    search_entries(entries, frec_inv, query, disabled_kinds, &counter, &clock, version)
}

/// While nobody moves the search counter off `version`, a search with a
/// query scores every entry: the result ranks the matches of all entries,
/// none of them skipped as stale.
pub proof fn law_current_search_scores_every_entry<C: Fn() -> u32>(
    counter: C,
    entries: Seq<SearchEntry>,
    frec_inv: Seq<u32>,
    query: Seq<char>,
    disabled: Seq<u8>,
    version: u32,
    r: Seq<SearchResult>,
    first: u32,
    reads: Seq<u32>,
    last: u32,
    elapsed: Seq<u128>,
)
    requires
        search_run(entries, frec_inv, query, disabled, version, r, first, reads, last, elapsed),
        read_from(counter, query, version, first, reads, last),
        forall|x: u32| counter.ensures((), x) ==> x == version,
        str_to_lowercase(query).len() > 0,
    ensures
        ranked(
            entries,
            r,
            picks_spec(
                entries,
                str_to_lowercase(query),
                search_variants(str_to_lowercase(query)),
                frec_inv,
                disabled,
                Seq::new(entries.len(), |i: int| true),
                typo_flags(elapsed),
                entries.len() as int,
            ),
        ),
{
    assert(first == version);
    assert(last == version);
    assert(current_flags(reads, version) =~= Seq::new(entries.len(), |i: int| true));
}

/// A search whose clock readings all fall within one 250 ms span keeps
/// typo matching for every entry it scans.
pub proof fn law_quick_search_keeps_typo_matching<K: Fn() -> u128>(
    clock: K,
    query: Seq<char>,
    version: u32,
    first: u32,
    t0: u128,
    stamps: Seq<u128>,
    elapsed: Seq<u128>,
    lo: int,
)
    requires
        timed_by(clock, query, version, first, t0, stamps, elapsed),
        str_to_lowercase(query).len() > 0,
        first == version,
        forall|t: u128| clock.ensures((), t) ==> lo <= t <= lo + FUZZY_BUDGET_MS * 1_000_000,
    ensures
        forall|k: int| 0 <= k < elapsed.len() ==> typo_time_ok(#[trigger] elapsed[k]),
{
    assert forall|k: int| 0 <= k < elapsed.len() implies typo_time_ok(#[trigger] elapsed[k]) by {
        assert(clock.ensures((), stamps[k]));
        assert(clock.ensures((), t0));
    }
}

/// A search with a query, during which nobody moves the counter off
/// `version` and which takes at most 250 ms, ranks the matches of every
/// entry with typo matching for all of them.
pub proof fn law_steady_quick_search_ranks_every_match<C: Fn() -> u32, K: Fn() -> u128>(
    entries: Seq<SearchEntry>,
    frec_inv: Seq<u32>,
    query: Seq<char>,
    disabled: Seq<u8>,
    counter: C,
    clock: K,
    version: u32,
    r: Seq<SearchResult>,
    first: u32,
    reads: Seq<u32>,
    last: u32,
    t0: u128,
    stamps: Seq<u128>,
    elapsed: Seq<u128>,
    lo: int,
)
    requires
        scanned_as(
            entries,
            frec_inv,
            query,
            disabled,
            counter,
            clock,
            version,
            r,
            first,
            reads,
            last,
            t0,
            stamps,
            elapsed,
        ),
        forall|x: u32| counter.ensures((), x) ==> x == version,
        forall|t: u128| clock.ensures((), t) ==> lo <= t <= lo + FUZZY_BUDGET_MS * 1_000_000,
        str_to_lowercase(query).len() > 0,
    ensures
        ranked(
            entries,
            r,
            picks_spec(
                entries,
                str_to_lowercase(query),
                search_variants(str_to_lowercase(query)),
                frec_inv,
                disabled,
                Seq::new(entries.len(), |i: int| true),
                Seq::new(entries.len(), |i: int| true),
                entries.len() as int,
            ),
        ),
{
    law_current_search_scores_every_entry(
        counter,
        entries,
        frec_inv,
        query,
        disabled,
        version,
        r,
        first,
        reads,
        last,
        elapsed,
    );
    law_quick_search_keeps_typo_matching(clock, query, version, first, t0, stamps, elapsed, lo);
    assert(typo_flags(elapsed) =~= Seq::new(entries.len(), |i: int| true));
}

/// The matches among the first `n` entries refer to entries before `n`,
/// of kinds not turned off, scanned while the search was current, each
/// entry once and in index order.
proof fn lemma_picks_props(
    entries: Seq<SearchEntry>,
    q: Seq<char>,
    vs: Seq<Seq<char>>,
    frec_inv: Seq<u32>,
    disabled: Seq<u8>,
    live: Seq<bool>,
    fuzzy_ok: Seq<bool>,
    n: int,
)
    requires
        0 <= n <= entries.len() <= usize::MAX,
    ensures
        ({
            let p = picks_spec(entries, q, vs, frec_inv, disabled, live, fuzzy_ok, n);
            &&& forall|k: int|
                0 <= k < p.len() ==> (#[trigger] p[k]).5 < n && !disabled.contains(
                    entries[p[k].5 as int].kind,
                ) && live[p[k].5 as int]
            &&& forall|a: int, b: int| 0 <= a < b < p.len() ==> (#[trigger] p[a]).5 < (#[trigger] p[b]).5
        }),
    decreases n,
{
    if n > 0 {
        lemma_picks_props(entries, q, vs, frec_inv, disabled, live, fuzzy_ok, n - 1);
        let prev = picks_spec(entries, q, vs, frec_inv, disabled, live, fuzzy_ok, n - 1);
        let p = picks_spec(entries, q, vs, frec_inv, disabled, live, fuzzy_ok, n);
        if p.len() > prev.len() {
            let e = entries[n - 1];
            let k = score_of(
                e.name_lower@,
                e.path@,
                e.kind,
                q,
                vs,
                path_is_exe(e.path@),
                frec_inv[n - 1],
                fuzzy_ok[n - 1],
            )->0;
            assert(p == prev.push(match_of(k, (n - 1) as usize)));
            assert(p[prev.len() as int].5 == n - 1);
            assert forall|a: int| 0 <= a < prev.len() implies p[a] == prev[a] by {}
        } else {
            assert(p == prev);
        }
    }
}

/// The result list takes each of the sorted matches at most once.
proof fn lemma_select_no_duplicates(entries: Seq<SearchEntry>, picks: Seq<Match>)
    requires
        picks.no_duplicates(),
    ensures
        select(entries, picks).no_duplicates(),
    decreases picks.len(),
{
    if picks.len() > 0 {
        let rest = picks.drop_last();
        assert(rest.no_duplicates()) by {
            assert forall|i: int, j: int| 0 <= i < rest.len() && 0 <= j < rest.len() && i != j implies rest[i] != rest[j] by {
                assert(rest[i] == picks[i]);
                assert(rest[j] == picks[j]);
            }
        }
        lemma_select_no_duplicates(entries, rest);
        lemma_select_from(entries, rest);
        let prev = select(entries, rest);
        let sel = select(entries, picks);
        if sel.len() > prev.len() {
            assert(sel == prev.push(picks.last()));
            assert forall|i: int, j: int| 0 <= i < sel.len() && 0 <= j < sel.len() && i != j implies sel[i] != sel[j] by {
                if i < prev.len() && j < prev.len() {
                    assert(sel[i] == prev[i]);
                    assert(sel[j] == prev[j]);
                } else if i < prev.len() {
                    let m = choose|m: int| 0 <= m < rest.len() && rest[m] == #[trigger] prev[i];
                    assert(picks[m] == prev[i]);
                    assert(sel[i] == prev[i]);
                } else {
                    let m = choose|m: int| 0 <= m < rest.len() && rest[m] == #[trigger] prev[j];
                    assert(picks[m] == prev[j]);
                    assert(sel[j] == prev[j]);
                }
            }
        }
    }
}

/// `idx` gives, for each result, the entry it shows: one whose kind is not
/// turned off and which was scanned while the search was current; the
/// result carries its path and kind, is not pinned and has no icon data
/// yet; no entry is shown twice.
pub open spec fn shown_entries(
    entries: Seq<SearchEntry>,
    disabled: Seq<u8>,
    live: Seq<bool>,
    r: Seq<SearchResult>,
    idx: Seq<int>,
) -> bool {
    &&& idx.len() == r.len()
    &&& forall|k: int|
        0 <= k < r.len() ==> {
            &&& 0 <= #[trigger] idx[k] < entries.len()
            &&& !disabled.contains(entries[idx[k]].kind)
            &&& live[idx[k]]
            &&& r[k].path@ == entries[idx[k]].path@
            &&& r[k].kind@ == kind_name(entries[idx[k]].kind)
            &&& !r[k].pinned
            &&& r[k].icon_data is None
        }
    &&& forall|a: int, b: int| 0 <= a < b < r.len() ==> #[trigger] idx[a] != #[trigger] idx[b]
}

/// Each search result is the item of a different entry of the index (see
/// `shown_entries`).
pub proof fn law_results_are_distinct_entries(
    entries: Seq<SearchEntry>,
    frec_inv: Seq<u32>,
    query: Seq<char>,
    disabled: Seq<u8>,
    r: Seq<SearchResult>,
    started: bool,
    finished: bool,
    live: Seq<bool>,
    fuzzy_ok: Seq<bool>,
)
    requires
        entries.len() <= usize::MAX,
        search_outcome(entries, frec_inv, query, disabled, r, started, finished, live, fuzzy_ok),
    ensures
        exists|idx: Seq<int>| #[trigger] shown_entries(entries, disabled, live, r, idx),
{
    let ql = str_to_lowercase(query);
    if ql.len() == 0 || !started || !finished {
        let idx = Seq::<int>::empty();
        assert(shown_entries(entries, disabled, live, r, idx));
    } else {
        let vs = search_variants(ql);
        let n = entries.len() as int;
        let p = picks_spec(entries, ql, vs, frec_inv, disabled, live, fuzzy_ok, n);
        lemma_picks_props(entries, ql, vs, frec_inv, disabled, live, fuzzy_ok, n);
        let s = choose|s: Seq<Match>|
            sorted_matches(s) && s.to_multiset() == p.to_multiset() && results_for(
                entries,
                r,
                select(entries, s),
            );
        assert(p.no_duplicates()) by {
            assert forall|a: int, b: int| 0 <= a < p.len() && 0 <= b < p.len() && a != b implies p[a] != p[b] by {
                if a < b {
                    assert(p[a].5 < p[b].5);
                } else {
                    assert(p[b].5 < p[a].5);
                }
            }
        }
        p.lemma_multiset_has_no_duplicates();
        s.lemma_multiset_has_no_duplicates_conv();
        s.to_multiset_ensures();
        p.to_multiset_ensures();
        // every sorted match is one of the picks
        assert forall|m: int| 0 <= m < s.len() implies exists|i: int| 0 <= i < p.len() && p[i] == #[trigger] s[m] by {
            assert(s.to_multiset().count(s[m]) > 0);
            assert(p.contains(s[m]));
        }
        let chosen = select(entries, s);
        lemma_select_from(entries, s);
        lemma_select_no_duplicates(entries, s);
        let idx = Seq::new(chosen.len(), |k: int| chosen[k].5 as int);
        assert forall|k: int| 0 <= k < r.len() implies {
            &&& 0 <= #[trigger] idx[k] < entries.len()
            &&& !disabled.contains(entries[idx[k]].kind)
            &&& live[idx[k]]
            &&& r[k].path@ == entries[idx[k]].path@
            &&& r[k].kind@ == kind_name(entries[idx[k]].kind)
            &&& !r[k].pinned
            &&& r[k].icon_data is None
        } by {
            let m = choose|m: int| 0 <= m < s.len() && s[m] == #[trigger] chosen[k];
            let i = choose|i: int| 0 <= i < p.len() && p[i] == #[trigger] s[m];
            assert(p[i] == chosen[k]);
            assert(result_for(r[k], entries[chosen[k].5 as int], chosen[k]));
        }
        assert forall|a: int, b: int| 0 <= a < b < r.len() implies #[trigger] idx[a] != #[trigger] idx[b] by {
            let ma = choose|m: int| 0 <= m < s.len() && s[m] == #[trigger] chosen[a];
            let ia = choose|i: int| 0 <= i < p.len() && p[i] == #[trigger] s[ma];
            let mb = choose|m: int| 0 <= m < s.len() && s[m] == #[trigger] chosen[b];
            let ib = choose|i: int| 0 <= i < p.len() && p[i] == #[trigger] s[mb];
            assert(chosen[a] != chosen[b]);
            if ia < ib {
                assert(p[ia].5 < p[ib].5);
            } else if ib < ia {
                assert(p[ib].5 < p[ia].5);
            }
        }
        assert(shown_entries(entries, disabled, live, r, idx));
    }
}

/// A search with an empty query, or one that finds the counter off
/// `version` at its start or its end, returns nothing: a stale search
/// gives no results.
pub proof fn law_stale_search_is_empty(
    entries: Seq<SearchEntry>,
    frec_inv: Seq<u32>,
    query: Seq<char>,
    disabled: Seq<u8>,
    version: u32,
    r: Seq<SearchResult>,
    first: u32,
    reads: Seq<u32>,
    last: u32,
    elapsed: Seq<u128>,
)
    requires
        search_run(entries, frec_inv, query, disabled, version, r, first, reads, last, elapsed),
        str_to_lowercase(query).len() == 0 || first != version || last != version,
    ensures
        r.len() == 0,
{
}

/// Outcomes recorded after the first `n` entries do not change the matches
/// among them.
proof fn lemma_picks_prefix(
    entries: Seq<SearchEntry>,
    q: Seq<char>,
    vs: Seq<Seq<char>>,
    frec_inv: Seq<u32>,
    disabled: Seq<u8>,
    l1: Seq<bool>,
    l2: Seq<bool>,
    f1: Seq<bool>,
    f2: Seq<bool>,
    n: int,
)
    requires
        0 <= n <= l1.len() <= l2.len(),
        n <= f1.len() <= f2.len(),
        forall|k: int| 0 <= k < l1.len() ==> l1[k] == l2[k],
        forall|k: int| 0 <= k < f1.len() ==> f1[k] == f2[k],
    ensures
        picks_spec(entries, q, vs, frec_inv, disabled, l1, f1, n) == picks_spec(
            entries,
            q,
            vs,
            frec_inv,
            disabled,
            l2,
            f2,
            n,
        ),
    decreases n,
{
    if n > 0 {
        lemma_picks_prefix(entries, q, vs, frec_inv, disabled, l1, l2, f1, f2, n - 1);
    }
}

} // verus!
