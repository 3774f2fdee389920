//! Small helpers: uniqueness checks over keys, and reading a yes/no option.

use vstd::prelude::*;

use crate::text::str_eq;

verus! {

/// The boolean that a yes/no option value stands for: `true`, `yes`, `y`, `on`
/// and `1` for true; `false`, `no`, `n`, `off` and `0` for false.
pub open spec fn bool_named(value: Seq<char>) -> Option<bool> {
    if value == "true"@ || value == "yes"@ || value == "y"@ || value == "on"@ || value == "1"@ {
        Some(true)
    } else if value == "false"@ || value == "no"@ || value == "n"@ || value == "off"@ || value == "0"@ {
        Some(false)
    } else {
        None
    }
}

/// Reads a yes/no option value; `None` for any other text.
pub fn parse_bool(value: &str) -> (r: Option<bool>)
    ensures
        r == bool_named(value@),
{
    if str_eq(value, "true") || str_eq(value, "yes") || str_eq(value, "y") || str_eq(value, "on")
        || str_eq(value, "1") {
        Some(true)
    } else if str_eq(value, "false") || str_eq(value, "no") || str_eq(value, "n") || str_eq(
        value,
        "off",
    ) || str_eq(value, "0") {
        Some(false)
    } else {
        None
    }
}

/// `key` can be called on every item of `items`, and the text of what it
/// returns for an item `t` is `kf(t)`.
pub open spec fn key_fn_ok<T, F: Fn(&T) -> String>(key: F, kf: spec_fn(T) -> Seq<char>, items: Seq<T>) -> bool {
    &&& forall|i: int| 0 <= i < items.len() ==> key.requires((&items[i],))
    &&& forall|t: &T, r: String| key.ensures((t,), r) ==> r@ == kf(*t)
}

/// Whether the item at `i` has a key that an earlier item has.
pub open spec fn repeats_earlier(ks: Seq<Seq<char>>, i: int) -> bool {
    exists|j: int| 0 <= j < i && ks[j] == ks[i]
}

/// The keys of `items`.
pub open spec fn keys_of<T>(kf: spec_fn(T) -> Seq<char>, items: Seq<T>) -> Seq<Seq<char>> {
    Seq::new(items.len(), |i: int| kf(items[i]))
}

/// The items whose key no earlier item has, in order.
pub open spec fn first_of_each_key<T>(kf: spec_fn(T) -> Seq<char>, items: Seq<T>) -> Seq<T>
    decreases items.len(),
{
    if items.len() == 0 {
        Seq::empty()
    } else {
        let prev = first_of_each_key(kf, items.drop_last());
        if repeats_earlier(keys_of(kf, items), items.len() - 1) {
            prev
        } else {
            prev.push(items.last())
        }
    }
}

/// Looks for a key among the first `n` of `seen`.
fn seen_before(seen: &Vec<String>, k: &String) -> (r: bool)
    ensures
        r == exists|j: int| 0 <= j < seen@.len() && seen@[j]@ == k@,
{
    let mut j: usize = 0;
    while j < seen.len()
        invariant
            j <= seen@.len(),
            forall|i: int| 0 <= i < j ==> seen@[i]@ != k@,
        decreases seen@.len() - j,
    {
        if str_eq(seen[j].as_str(), k.as_str()) {
            return true;
        }
        j = j + 1;
    }
    false
}

/// Checks that no two items have the same key; where two do, returns the
/// first item whose key an earlier item has.
pub fn ensure_unique_by_key<'a, T, F: Fn(&T) -> String>(
    items: &'a [T],
    key: F,
    Ghost(kf): Ghost<spec_fn(T) -> Seq<char>>,
) -> (r: Result<(), &'a T>)
    requires
        key_fn_ok(key, kf, items@),
    ensures
        r is Ok <==> forall|i: int| 0 <= i < items@.len() ==> !repeats_earlier(keys_of(kf, items@), i),
        r matches Err(t) ==> exists|i: int|
            0 <= i < items@.len() && t == &items@[i] && repeats_earlier(keys_of(kf, items@), i)
                && forall|j: int| 0 <= j < i ==> !repeats_earlier(keys_of(kf, items@), j),
{
    let ghost ks = keys_of(kf, items@);
    let mut seen: Vec<String> = Vec::new();
    let mut i: usize = 0;
    while i < items.len()
        invariant
            key_fn_ok(key, kf, items@),
            ks == keys_of(kf, items@),
            i <= items@.len(),
            seen@.len() == i,
            forall|j: int| 0 <= j < i ==> (#[trigger] seen@[j])@ == ks[j],
            forall|j: int| 0 <= j < i ==> !repeats_earlier(ks, j),
        decreases items@.len() - i,
    {
        let k = key(&items[i]);
        assert(ks[i as int] == k@);
        if seen_before(&seen, &k) {
            proof {
                let j = choose|j: int| 0 <= j < seen@.len() && seen@[j]@ == k@;
                assert(ks[j] == ks[i as int]);
                assert(repeats_earlier(ks, i as int));
            }
            return Err(&items[i]);
        }
        proof {
            if repeats_earlier(ks, i as int) {
                let j = choose|j: int| 0 <= j < i && ks[j] == ks[i as int];
                assert(seen@[j]@ == k@);
            }
        }
        seen.push(k);
        i = i + 1;
    }
    Ok(())
}

/// The items in the reverse order, so that popping them gives them in order.
pub(crate) fn reversed<T>(items: Vec<T>) -> (r: Vec<T>)
    ensures
        r@ == items@.reverse(),
{
    let ghost orig = items@;
    let mut rest = items;
    let mut out: Vec<T> = Vec::new();
    while rest.len() > 0
        invariant
            rest@.len() <= orig.len(),
            rest@ == orig.subrange(0, rest@.len() as int),
            out@ == orig.subrange(rest@.len() as int, orig.len() as int).reverse(),
        decreases rest@.len(),
    {
        let ghost n = rest@.len();
        let x = rest.pop().unwrap();
        out.push(x);
        assert(out@ =~= orig.subrange(n - 1, orig.len() as int).reverse());
        assert(rest@ =~= orig.subrange(0, n - 1));
    }
    assert(orig.subrange(0, orig.len() as int) =~= orig);
    out
}

/// Keeps the first item of each key, in order; later items with a key seen before are dropped.
pub fn dedup_by_key<T, F: Fn(&T) -> String>(
    items: Vec<T>,
    key: F,
    Ghost(kf): Ghost<spec_fn(T) -> Seq<char>>,
) -> (r: Vec<T>)
    requires
        key_fn_ok(key, kf, items@),
    ensures
        r@ == first_of_each_key(kf, items@),
{
    let ghost orig = items@;
    let ghost ks = keys_of(kf, orig);
    let n = items.len();
    let mut stack = reversed(items);
    let mut out: Vec<T> = Vec::new();
    let mut seen: Vec<String> = Vec::new();
    let mut i: usize = 0;
    while stack.len() > 0
        invariant
            key_fn_ok(key, kf, orig),
            ks == keys_of(kf, orig),
            i + stack@.len() == orig.len(),
            orig.len() == n,
            stack@ == orig.subrange(i as int, orig.len() as int).reverse(),
            seen@.len() == i,
            forall|j: int| 0 <= j < i ==> (#[trigger] seen@[j])@ == ks[j],
            out@ == first_of_each_key(kf, orig.take(i as int)),
        decreases stack@.len(),
    {
        let ghost before = stack@;
        let item = stack.pop().unwrap();
        assert(item == orig[i as int]);
        assert(stack@ =~= orig.subrange(i + 1, orig.len() as int).reverse());
        let k = key(&item);
        let ghost p = orig.take(i + 1);
        assert(p.drop_last() =~= orig.take(i as int));
        assert(keys_of(kf, p) =~= ks.take(i + 1));
        if seen_before(&seen, &k) {
            proof {
                let j = choose|j: int| 0 <= j < seen@.len() && seen@[j]@ == k@;
                assert(keys_of(kf, p)[j] == keys_of(kf, p)[i as int]);
            }
        } else {
            proof {
                if repeats_earlier(keys_of(kf, p), i as int) {
                    let j = choose|j: int| 0 <= j < i && keys_of(kf, p)[j] == keys_of(kf, p)[i as int];
                    assert(seen@[j]@ == k@);
                }
            }
            out.push(item);
        }
        seen.push(k);
        i = i + 1;
    }
    assert(orig.take(i as int) =~= orig);
    out
}

/// Checks that no two items are equal; returns the items, or else the first
/// item that an earlier one equals.
pub fn ensure_unique(items: Vec<String>) -> (r: Result<Vec<String>, String>)
    ensures
        r is Ok <==> forall|i: int| 0 <= i < items@.len() ==> !repeats_earlier(text_views(items@), i),
        r matches Ok(v) ==> v@ == items@,
        r matches Err(t) ==> exists|i: int|
            0 <= i < items@.len() && t@ == items@[i]@ && repeats_earlier(text_views(items@), i)
                && forall|j: int| 0 <= j < i ==> !repeats_earlier(text_views(items@), j),
{
    let ghost ks = text_views(items@);
    let mut i: usize = 0;
    while i < items.len()
        invariant
            ks == text_views(items@),
            i <= items@.len(),
            forall|j: int| 0 <= j < i ==> !repeats_earlier(ks, j),
        decreases items@.len() - i,
    {
        let mut j: usize = 0;
        while j < i
            invariant
                ks == text_views(items@),
                j <= i < items@.len(),
                forall|m: int| 0 <= m < j ==> ks[m] != ks[i as int],
                forall|m: int| 0 <= m < i ==> !repeats_earlier(ks, m),
            decreases i - j,
        {
            if str_eq(items[j].as_str(), items[i].as_str()) {
                assert(ks[j as int] == ks[i as int]);
                assert(repeats_earlier(ks, i as int));
                let t = items[i].clone();
                assert(t@ == items@[i as int]@);
                return Err(t);
            }
            j = j + 1;
        }
        i = i + 1;
    }
    Ok(items)
}

/// The texts of a sequence of strings.
pub open spec fn text_views(v: Seq<String>) -> Seq<Seq<char>> {
    v.map_values(|s: String| s@)
}

} // verus!
