//! Pinned items: the list the user keeps at the top of the launcher, and the
//! rules for adding, removing and reordering its entries.  Storing the list is
//! the caller's business.
use vstd::prelude::*;

use crate::index::SearchResult;
use crate::text::{
    copy_string, str_eq, texts,
};

verus! {

/// A pinned item: shown name, path (which identifies it) and kind.
pub struct Pin {
    pub name: String,
    pub path: String,
    pub kind: String,
}

/// A pin as texts: `(name, path, kind)`.
pub type PinView = (Seq<char>, Seq<char>, Seq<char>);

impl View for Pin {
    type V = PinView;

    open spec fn view(&self) -> PinView {
        (self.name@, self.path@, self.kind@)
    }
}

/// The pins of a list, as texts.
pub open spec fn pin_views(s: Seq<Pin>) -> Seq<PinView> {
    s.map_values(|p: Pin| p@)
}

/// Whether some pin of `s` has this path.
pub open spec fn has_path(s: Seq<PinView>, path: Seq<char>) -> bool {
    exists|i: int| 0 <= i < s.len() && #[trigger] s[i].1 == path
}

/// The pins of `s` whose path is not `path`, in order.
pub open spec fn without_path(s: Seq<PinView>, path: Seq<char>) -> Seq<PinView>
    decreases s.len(),
{
    if s.len() == 0 {
        s
    } else {
        let rest = without_path(s.drop_last(), path);
        if s.last().1 == path {
            rest
        } else {
            rest.push(s.last())
        }
    }
}

/// The last pin of `s` with this path (the one a path-keyed table built from
/// `s` in order would hold).
pub open spec fn last_with(s: Seq<PinView>, path: Seq<char>) -> PinView
    decreases s.len(),
{
    if s.len() == 0 {
        (Seq::empty(), path, Seq::empty())
    } else if s.last().1 == path {
        s.last()
    } else {
        last_with(s.drop_last(), path)
    }
}

/// Whether `order` is accepted as a new order for `s`: as many paths as pins,
/// each a path of some pin, and every pin's path among them.
pub open spec fn reorder_ok(s: Seq<PinView>, order: Seq<Seq<char>>) -> bool {
    &&& order.len() == s.len()
    &&& forall|i: int| 0 <= i < order.len() ==> has_path(s, #[trigger] order[i])
    &&& forall|j: int| 0 <= j < s.len() ==> order.contains(#[trigger] s[j].1)
}

/// The pins of `s` in the order of the first `n` paths of `order`: for each
/// path met for the first time, the pin `last_with` gives.
pub open spec fn reordered(s: Seq<PinView>, order: Seq<Seq<char>>, n: int) -> Seq<PinView>
    decreases n,
{
    if n <= 0 {
        Seq::empty()
    } else {
        let prev = reordered(s, order, n - 1);
        if order.take(n - 1).contains(order[n - 1]) {
            prev
        } else {
            prev.push(last_with(s, order[n - 1]))
        }
    }
}

/// No two pins share a path.
pub open spec fn distinct_paths(s: Seq<PinView>) -> bool {
    forall|i: int, j: int| 0 <= i < j < s.len() ==> #[trigger] s[i].1 != #[trigger] s[j].1
}

/// No text occurs twice.
pub open spec fn distinct_texts(o: Seq<Seq<char>>) -> bool {
    forall|i: int, j: int| 0 <= i < j < o.len() ==> #[trigger] o[i] != #[trigger] o[j]
}

/// An exact copy of a pin.
pub fn copy_pin(p: &Pin) -> (r: Pin)
    ensures
        r@ == p@,
{
    Pin { name: copy_string(&p.name), path: copy_string(&p.path), kind: copy_string(&p.kind) }
}

/// A copy of the pinned list.
pub fn load_pins(pins: &Vec<Pin>) -> (r: Vec<Pin>)
    ensures
        pin_views(r@) == pin_views(pins@),
{
    let mut r: Vec<Pin> = Vec::new();
    let mut i: usize = 0;
    while i < pins.len()
        invariant
            i <= pins@.len(),
            pin_views(r@) == pin_views(pins@).take(i as int),
        decreases pins@.len() - i,
    {
        let p = copy_pin(&pins[i]);
        let ghost r0 = r@;
        r.push(p);
        proof {
            assert(r@ == r0.push(p));
            assert(pin_views(r@) =~= pin_views(r0).push(p@));
            assert(pin_views(pins@).take(i + 1) =~= pin_views(pins@).take(i as int).push(
                pins@[i as int]@,
            ));
        }
        i = i + 1;
    }
    proof {
        assert(pin_views(pins@).take(i as int) =~= pin_views(pins@));
    }
    r
}

/// The index of the last pin with this path, if any.
fn find_last(pins: &Vec<Pin>, path: &str) -> (r: Option<usize>)
    ensures
        match r {
            Some(j) => j < pins@.len() && pins@[j as int].path@ == path@ && forall|k: int|
                j < k < pins@.len() ==> #[trigger] pins@[k].path@ != path@,
            None => !has_path(pin_views(pins@), path@),
        },
{
    let mut i: usize = pins.len();
    while i > 0
        invariant
            i <= pins@.len(),
            forall|k: int| i <= k < pins@.len() ==> #[trigger] pins@[k].path@ != path@,
        decreases i,
    {
        if str_eq(pins[i - 1].path.as_str(), path) {
            return Some(i - 1);
        }
        i = i - 1;
    }
    proof {
        assert forall|k: int| 0 <= k < pin_views(pins@).len() implies #[trigger] pin_views(
            pins@,
        )[k].1 != path@ by {
            assert(pins@[k].path@ != path@);
        }
    }
    None
}

/// `last_with` is the pin at the last index with the path.
proof fn lemma_last_with_at(s: Seq<PinView>, path: Seq<char>, j: int)
    requires
        0 <= j < s.len(),
        s[j].1 == path,
        forall|k: int| j < k < s.len() ==> #[trigger] s[k].1 != path,
    ensures
        last_with(s, path) == s[j],
    decreases s.len(),
{
    if j < s.len() - 1 {
        assert(s.last() == s[s.len() - 1]);
        lemma_last_with_at(s.drop_last(), path, j);
    }
}

/// `last_with` picks a pin of `s` when one has the path.
proof fn lemma_last_with_in(s: Seq<PinView>, path: Seq<char>)
    requires
        has_path(s, path),
    ensures
        s.contains(last_with(s, path)),
        last_with(s, path).1 == path,
    decreases s.len(),
{
    if s.last().1 == path {
        assert(s[s.len() - 1] == s.last());
    } else {
        let i = choose|i: int| 0 <= i < s.len() && #[trigger] s[i].1 == path;
        assert(i != s.len() - 1);
        assert(s.drop_last()[i] == s[i]);
        lemma_last_with_in(s.drop_last(), path);
        let w = last_with(s.drop_last(), path);
        let k = choose|k: int| 0 <= k < s.drop_last().len() && s.drop_last()[k] == w;
        assert(s[k] == w);
    }
}

/// Dropping the pins with a path keeps the others and shortens the list
/// exactly when some pin had it.
proof fn lemma_without_path_len(s: Seq<PinView>, path: Seq<char>)
    ensures
        without_path(s, path).len() <= s.len(),
        without_path(s, path).len() == s.len() <==> !has_path(s, path),
        !has_path(s, path) ==> without_path(s, path) == s,
    decreases s.len(),
{
    if s.len() > 0 {
        lemma_without_path_len(s.drop_last(), path);
        if has_path(s.drop_last(), path) {
            let i = choose|i: int| 0 <= i < s.drop_last().len() && #[trigger] s.drop_last()[i].1 == path;
            assert(s[i].1 == path);
        }
        if has_path(s, path) && s.last().1 != path {
            let i = choose|i: int| 0 <= i < s.len() && #[trigger] s[i].1 == path;
            assert(i != s.len() - 1);
            assert(s.drop_last()[i].1 == path);
        }
        if s.last().1 == path {
            assert(s[s.len() - 1].1 == path);
        }
        if !has_path(s, path) {
            assert(s.drop_last().push(s.last()) =~= s);
        }
    }
}

/// Adds `result` as a pin unless a pin with its path is there already;
/// tells whether it was added.
pub fn add_pin(pins: &mut Vec<Pin>, result: &SearchResult) -> (r: bool)
    ensures
        r == !has_path(pin_views(old(pins)@), result.path@),
        r ==> pin_views(final(pins)@) == pin_views(old(pins)@).push(
            (result.name@, result.path@, result.kind@),
        ),
        !r ==> final(pins)@ == old(pins)@,
{
    match find_last(pins, result.path.as_str()) {
        Some(j) => {
            proof {
                assert(pin_views(pins@)[j as int].1 == result.path@);
            }
            false
        },
        None => {
            let ghost before = pins@;
            pins.push(
                Pin {
                    name: copy_string(&result.name),
                    path: copy_string(&result.path),
                    kind: copy_string(&result.kind),
                },
            );
            proof {
                assert(pin_views(pins@) =~= pin_views(before).push(
                    (result.name@, result.path@, result.kind@),
                ));
            }
            true
        },
    }
}

/// Removes every pin with this path; tells whether there was one.
pub fn remove_pin(pins: &mut Vec<Pin>, path: &str) -> (r: bool)
    ensures
        pin_views(final(pins)@) == without_path(pin_views(old(pins)@), path@),
        r == has_path(pin_views(old(pins)@), path@),
{
    let ghost s = pin_views(pins@);
    let mut kept: Vec<Pin> = Vec::new();
    let mut i: usize = 0;
    while i < pins.len()
        invariant
            i <= pins@.len(),
            s == pin_views(pins@),
            pin_views(kept@) == without_path(s.take(i as int), path@),
        decreases pins@.len() - i,
    {
        proof {
            assert(s.take(i + 1).drop_last() =~= s.take(i as int));
            assert(s.take(i + 1).last() == s[i as int]);
        }
        if !str_eq(pins[i].path.as_str(), path) {
            let ghost k0 = kept@;
            kept.push(copy_pin(&pins[i]));
            proof {
                assert(pin_views(kept@) =~= pin_views(k0).push(s[i as int]));
            }
        }
        i = i + 1;
    }
    proof {
        assert(s.take(i as int) =~= s);
        lemma_without_path_len(s, path@);
        assert(pin_views(kept@).len() == kept@.len());
    }
    let removed = kept.len() != pins.len();
    *pins = kept;
    removed
}

/// Whether `order` holds `x` among its first `n` texts.
fn texts_contain(order: &Vec<String>, n: usize, x: &str) -> (r: bool)
    requires
        n <= order@.len(),
    ensures
        r == texts(order@).take(n as int).contains(x@),
{
    let mut i: usize = 0;
    while i < n
        invariant
            i <= n <= order@.len(),
            forall|k: int| 0 <= k < i ==> #[trigger] order@[k]@ != x@,
        decreases n - i,
    {
        if str_eq(order[i].as_str(), x) {
            proof {
                assert(texts(order@).take(n as int)[i as int] == x@);
            }
            return true;
        }
        i = i + 1;
    }
    proof {
        assert forall|k: int| 0 <= k < n implies #[trigger] texts(order@).take(n as int)[k]
            != x@ by {
            assert(order@[k]@ != x@);
        }
    }
    false
}

/// Puts the pins in the order of `ordered_paths`, which must name every pin,
/// as many paths as there are pins (see `reorder_ok`); the new list follows
/// `reordered`.  Tells whether the order was accepted; when it is not, the
/// list is unchanged.
pub fn reorder_pins(pins: &mut Vec<Pin>, ordered_paths: Vec<String>) -> (r: bool)
    ensures
        r == reorder_ok(pin_views(old(pins)@), texts(ordered_paths@)),
        r ==> pin_views(final(pins)@) == reordered(
            pin_views(old(pins)@),
            texts(ordered_paths@),
            ordered_paths@.len() as int,
        ),
        !r ==> final(pins)@ == old(pins)@,
{
    let ghost s = pin_views(pins@);
    let ghost o = texts(ordered_paths@);
    if ordered_paths.len() != pins.len() {
        return false;
    }
    let mut i: usize = 0;
    while i < ordered_paths.len()
        invariant
            i <= ordered_paths@.len(),
            s == pin_views(pins@),
            o == texts(ordered_paths@),
            forall|k: int| 0 <= k < i ==> has_path(s, #[trigger] o[k]),
        decreases ordered_paths@.len() - i,
    {
        proof {
            assert(o[i as int] == ordered_paths@[i as int]@);
        }
        match find_last(pins, ordered_paths[i].as_str()) {
            None => {
                return false;
            },
            Some(at) => {
                proof {
                    assert(s[at as int].1 == pins@[at as int].path@);
                }
            },
        }
        i = i + 1;
    }
    let mut j: usize = 0;
    while j < pins.len()
        invariant
            j <= pins@.len(),
            s == pin_views(pins@),
            o == texts(ordered_paths@),
            forall|k: int| 0 <= k < j ==> o.contains(#[trigger] s[k].1),
        decreases pins@.len() - j,
    {
        if !texts_contain(&ordered_paths, ordered_paths.len(), pins[j].path.as_str()) {
            proof {
                assert(o.take(o.len() as int) =~= o);
                assert(s[j as int].1 == pins@[j as int].path@);
            }
            return false;
        }
        proof {
            assert(o.take(o.len() as int) =~= o);
        }
        j = j + 1;
    }
    let mut out: Vec<Pin> = Vec::new();
    let mut k: usize = 0;
    while k < ordered_paths.len()
        invariant
            k <= ordered_paths@.len(),
            s == pin_views(pins@),
            o == texts(ordered_paths@),
            reorder_ok(s, o),
            pin_views(out@) == reordered(s, o, k as int),
        decreases ordered_paths@.len() - k,
    {
        if !texts_contain(&ordered_paths, k, ordered_paths[k].as_str()) {
            proof {
                assert(o[k as int] == ordered_paths@[k as int]@);
            }
            match find_last(pins, ordered_paths[k].as_str()) {
                Some(at) => {
                    let ghost o0 = out@;
                    out.push(copy_pin(&pins[at]));
                    proof {
                        assert forall|m: int| at < m < s.len() implies #[trigger] s[m].1
                            != o[k as int] by {
                            assert(pins@[m].path@ != ordered_paths@[k as int]@);
                        }
                        lemma_last_with_at(s, o[k as int], at as int);
                        assert(pin_views(out@) =~= pin_views(o0).push(s[at as int]));
                    }
                },
                None => {
                    proof {
                        assert(has_path(s, o[k as int]));
                    }
                },
            }
        } else {
            proof {
                assert(o[k as int] == ordered_paths@[k as int]@);
            }
        }
        k = k + 1;
    }
    *pins = out;
    true
}

// ---------------------------------------------------------------------------
// Laws
// ---------------------------------------------------------------------------
/// Removing a pin that was just added (its path new to the list) gives back
/// the list as it was.
pub proof fn law_remove_undoes_add(s: Seq<PinView>, pin: PinView)
    requires
        !has_path(s, pin.1),
    ensures
        without_path(s.push(pin), pin.1) == s,
{
    lemma_without_path_len(s, pin.1);
    assert(s.push(pin).drop_last() =~= s);
}

/// A pin that was just added is found by its path, so adding it again is
/// refused.
pub proof fn law_added_pin_is_present(s: Seq<PinView>, pin: PinView)
    ensures
        has_path(s.push(pin), pin.1),
{
    assert(s.push(pin)[s.len() as int].1 == pin.1);
}

/// After removing a path, no pin has it.
pub proof fn law_removed_path_is_gone(s: Seq<PinView>, path: Seq<char>)
    ensures
        !has_path(without_path(s, path), path),
    decreases s.len(),
{
    if s.len() > 0 {
        law_removed_path_is_gone(s.drop_last(), path);
        let rest = without_path(s.drop_last(), path);
        if s.last().1 != path {
            assert forall|i: int| 0 <= i < rest.push(s.last()).len() implies #[trigger] rest.push(
                s.last(),
            )[i].1 != path by {
                if i < rest.len() {
                    assert(rest.push(s.last())[i] == rest[i]);
                }
            }
        }
    }
}

/// With distinct paths, a new order that names each pin exactly once is
/// accepted, and the reordered list holds the same pins, the one at each
/// place being the pin with the path named there.
pub proof fn law_reorder_permutes(s: Seq<PinView>, order: Seq<Seq<char>>)
    requires
        distinct_paths(s),
        distinct_texts(order),
        order.len() == s.len(),
        forall|i: int| 0 <= i < order.len() ==> has_path(s, #[trigger] order[i]),
        forall|j: int| 0 <= j < s.len() ==> order.contains(#[trigger] s[j].1),
    ensures
        reorder_ok(s, order),
        reordered(s, order, order.len() as int).len() == s.len(),
        forall|k: int|
            0 <= k < s.len() ==> (#[trigger] reordered(s, order, order.len() as int)[k]).1
                == order[k] && s.contains(reordered(s, order, order.len() as int)[k]),
        forall|j: int| 0 <= j < s.len() ==> reordered(s, order, order.len() as int).contains(
            #[trigger] s[j],
        ),
{
    lemma_reordered_distinct(s, order, order.len() as int);
    let r = reordered(s, order, order.len() as int);
    assert forall|j: int| 0 <= j < s.len() implies r.contains(#[trigger] s[j]) by {
        let k = choose|k: int| 0 <= k < order.len() && order[k] == s[j].1;
        assert forall|m: int| j < m < s.len() implies #[trigger] s[m].1 != s[j].1 by {}
        lemma_last_with_at(s, s[j].1, j);
        assert(r[k] == s[j]);
    }
}

/// With distinct pin paths, an accepted order is a permutation of the
/// paths: it names each pin exactly once, and the reordered list holds the
/// same pins, the one at each place being the pin with the path named there.
pub proof fn law_accepted_order_is_permutation(s: Seq<PinView>, order: Seq<Seq<char>>)
    requires
        distinct_paths(s),
        reorder_ok(s, order),
    ensures
        distinct_texts(order),
        reordered(s, order, order.len() as int).len() == s.len(),
        forall|k: int|
            0 <= k < s.len() ==> (#[trigger] reordered(s, order, order.len() as int)[k]).1
                == order[k] && s.contains(reordered(s, order, order.len() as int)[k]),
        forall|j: int| 0 <= j < s.len() ==> reordered(s, order, order.len() as int).contains(
            #[trigger] s[j],
        ),
{
    broadcast use vstd::seq_lib::seq_to_set_is_finite;

    let paths = s.map_values(|p: PinView| p.1);
    assert(paths.no_duplicates()) by {
        assert forall|i: int, j: int| 0 <= i < paths.len() && 0 <= j < paths.len() && i != j implies paths[i]
            != paths[j] by {
            if i < j {
                assert(s[i].1 != s[j].1);
            } else {
                assert(s[j].1 != s[i].1);
            }
        }
    }
    paths.unique_seq_to_set();
    assert(paths.to_set().subset_of(order.to_set())) by {
        assert forall|x: Seq<char>| paths.to_set().contains(x) implies order.to_set().contains(x) by {
            let j = choose|j: int| 0 <= j < paths.len() && paths[j] == x;
            assert(order.contains(s[j].1));
        }
    }
    vstd::set_lib::lemma_len_subset(paths.to_set(), order.to_set());
    order.lemma_cardinality_of_set();
    order.lemma_no_dup_set_cardinality();
    assert(distinct_texts(order)) by {
        assert forall|i: int, j: int| 0 <= i < j < order.len() implies #[trigger] order[i]
            != #[trigger] order[j] by {}
    }
    law_reorder_permutes(s, order);
}

/// With distinct paths in `order`, each of the first `n` paths gives the
/// pin at its place.
proof fn lemma_reordered_distinct(s: Seq<PinView>, order: Seq<Seq<char>>, n: int)
    requires
        0 <= n <= order.len(),
        distinct_texts(order),
        forall|i: int| 0 <= i < order.len() ==> has_path(s, #[trigger] order[i]),
    ensures
        reordered(s, order, n).len() == n,
        forall|k: int|
            0 <= k < n ==> #[trigger] reordered(s, order, n)[k] == last_with(s, order[k])
                && (last_with(s, order[k])).1 == order[k] && s.contains(last_with(s, order[k])),
    decreases n,
{
    if n > 0 {
        lemma_reordered_distinct(s, order, n - 1);
        assert(!order.take(n - 1).contains(order[n - 1])) by {
            if order.take(n - 1).contains(order[n - 1]) {
                let m = choose|m: int| 0 <= m < n - 1 && #[trigger] order.take(n - 1)[m] == order[n - 1];
                assert(order[m] == order[n - 1]);
            }
        }
        assert forall|k: int| 0 <= k < n implies (last_with(s, #[trigger] order[k])).1 == order[k]
            && s.contains(last_with(s, order[k])) by {
            lemma_last_with_in(s, order[k]);
        }
    }
}

} // verus!
