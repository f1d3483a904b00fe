//! The order of strings, and sorting that keeps equal items in place.
use vstd::prelude::*;

use crate::text;

verus! {

/// `a` does not come after `b` in the order of strings: character by character, a string before
/// those that go on from it.
pub open spec fn lex_le(a: Seq<char>, b: Seq<char>) -> bool
    decreases a.len(),
{
    if a.len() == 0 {
        true
    } else if b.len() == 0 {
        false
    } else if a[0] == b[0] {
        lex_le(a.skip(1), b.skip(1))
    } else {
        a[0] < b[0]
    }
}

/// Whether `a` does not come after `b`.
pub fn chars_le(a: &Vec<char>, b: &Vec<char>) -> (r: bool)
    ensures
        r == lex_le(a@, b@),
{
    let mut i: usize = 0;
    assert(a@.skip(0) =~= a@);
    assert(b@.skip(0) =~= b@);
    while i < a.len() && i < b.len()
        invariant
            i <= a.len(),
            i <= b.len(),
            lex_le(a@, b@) == lex_le(a@.skip(i as int), b@.skip(i as int)),
        decreases a.len() - i,
    {
        assert(a@.skip(i as int).skip(1) =~= a@.skip(i + 1));
        assert(b@.skip(i as int).skip(1) =~= b@.skip(i + 1));
        if a[i] != b[i] {
            return a[i] < b[i];
        }
        i = i + 1;
    }
    i == a.len()
}

/// Every string comes no later than itself.
pub proof fn lemma_lex_reflexive(a: Seq<char>)
    ensures
        lex_le(a, a),
    decreases a.len(),
{
    if a.len() > 0 {
        lemma_lex_reflexive(a.skip(1));
    }
}

/// Of two strings, one comes no later than the other; both do only where they are the same.
pub proof fn lemma_lex_total(a: Seq<char>, b: Seq<char>)
    ensures
        lex_le(a, b) || lex_le(b, a),
        lex_le(a, b) && lex_le(b, a) ==> a == b,
    decreases a.len(),
{
    if a.len() > 0 && b.len() > 0 {
        lemma_lex_total(a.skip(1), b.skip(1));
        if a[0] == b[0] && a.skip(1) == b.skip(1) {
            assert(a =~= seq![a[0]] + a.skip(1));
            assert(b =~= seq![b[0]] + b.skip(1));
        }
    } else if a.len() == 0 && b.len() == 0 {
        assert(a =~= b);
    }
}

/// The order of strings is transitive.
pub proof fn lemma_lex_transitive(a: Seq<char>, b: Seq<char>, c: Seq<char>)
    requires
        lex_le(a, b),
        lex_le(b, c),
    ensures
        lex_le(a, c),
    decreases a.len(),
{
    if a.len() > 0 && a[0] == b[0] && b[0] == c[0] {
        lemma_lex_transitive(a.skip(1), b.skip(1), c.skip(1));
    }
}

/// `x` put behind the last item of `s` whose key is not greater.
pub open spec fn placed<A>(s: Seq<A>, x: A, key: spec_fn(A) -> Seq<char>) -> Seq<A>
    decreases s.len(),
{
    if s.len() == 0 || lex_le(key(s.last()), key(x)) {
        s.push(x)
    } else {
        placed(s.drop_last(), x, key).push(s.last())
    }
}

/// `s` in ascending order of its keys, items with the same key as they stood.
pub open spec fn sorted_by<A>(s: Seq<A>, key: spec_fn(A) -> Seq<char>) -> Seq<A>
    decreases s.len(),
{
    if s.len() == 0 {
        s
    } else {
        placed(sorted_by(s.drop_last(), key), s.last(), key)
    }
}

/// Keys that ascend.
pub open spec fn ascending<A>(s: Seq<A>, key: spec_fn(A) -> Seq<char>) -> bool {
    forall|i: int, j: int|
        0 <= i <= j < s.len() ==> lex_le(key(#[trigger] s[i]), key(#[trigger] s[j]))
}

proof fn lemma_placed_at<A>(s: Seq<A>, x: A, key: spec_fn(A) -> Seq<char>, p: int)
    requires
        0 <= p <= s.len(),
        forall|i: int| p <= i < s.len() ==> !lex_le(key(#[trigger] s[i]), key(x)),
        p > 0 ==> lex_le(key(s[p - 1]), key(x)),
    ensures
        placed(s, x, key) == s.insert(p, x),
    decreases s.len(),
{
    if p == s.len() {
        assert(s.insert(p, x) =~= s.push(x));
    } else {
        lemma_placed_at(s.drop_last(), x, key, p);
        assert(s.drop_last().insert(p, x).push(s.last()) =~= s.insert(p, x));
    }
}

/// Sorts by key; items with the same key keep their order.
pub fn sort_keyed<T>(items: Vec<(Vec<char>, T)>) -> (r: Vec<(Vec<char>, T)>)
    ensures
        r@ == sorted_by(items@, |p: (Vec<char>, T)| p.0@),
{
    let ghost key = |p: (Vec<char>, T)| p.0@;
    let ghost whole = items@;
    let mut rest = items;
    let mut backwards: Vec<(Vec<char>, T)> = Vec::new();
    while rest.len() > 0
        invariant
            backwards.len() + rest.len() == whole.len(),
            rest@ == whole.take(rest.len() as int),
            forall|i: int|
                0 <= i < backwards.len() ==> #[trigger] backwards@[i] == whole[whole.len() - 1 - i],
        decreases rest.len(),
    {
        if let Some(x) = rest.pop() {
            backwards.push(x);
        }
    }
    let mut out: Vec<(Vec<char>, T)> = Vec::new();
    assert(whole.take(0) =~= Seq::empty());
    while backwards.len() > 0
        invariant
            backwards.len() <= whole.len(),
            key == (|p: (Vec<char>, T)| p.0@),
            forall|i: int|
                0 <= i < backwards.len() ==> #[trigger] backwards@[i] == whole[whole.len() - 1 - i],
            out@ == sorted_by(whole.take(whole.len() - backwards.len()), key),
            out.len() == whole.len() - backwards.len(),
        decreases backwards.len(),
    {
        let ghost done = whole.len() - backwards.len();
        if let Some(x) = backwards.pop() {
            let mut p: usize = out.len();
            while p > 0 && !chars_le(&out[p - 1].0, &x.0)
                invariant
                    p <= out.len(),
                    key == (|p: (Vec<char>, T)| p.0@),
                    forall|i: int|
                        p <= i < out.len() ==> !lex_le(key(#[trigger] out@[i]), key(x)),
                decreases p,
            {
                p = p - 1;
            }
            proof {
                lemma_placed_at(out@, x, key, p as int);
                assert(whole.take(done + 1).drop_last() =~= whole.take(done));
                assert(whole.take(done + 1).last() == x);
            }
            out.insert(p, x);
        }
    }
    assert(whole.take(whole.len() as int) =~= whole);
    out
}

proof fn lemma_placed_len<A>(s: Seq<A>, x: A, key: spec_fn(A) -> Seq<char>)
    ensures
        placed(s, x, key).len() == s.len() + 1,
    decreases s.len(),
{
    if s.len() > 0 && !lex_le(key(s.last()), key(x)) {
        lemma_placed_len(s.drop_last(), x, key);
    }
}

/// Sorting keeps the number of items.
pub proof fn lemma_sorted_len<A>(s: Seq<A>, key: spec_fn(A) -> Seq<char>)
    ensures
        sorted_by(s, key).len() == s.len(),
    decreases s.len(),
{
    if s.len() > 0 {
        lemma_sorted_len(s.drop_last(), key);
        lemma_placed_len(sorted_by(s.drop_last(), key), s.last(), key);
    }
}

proof fn lemma_placed_maps<A, B>(
    s: Seq<A>,
    x: A,
    key: spec_fn(A) -> Seq<char>,
    f: spec_fn(A) -> B,
    other: spec_fn(B) -> Seq<char>,
)
    requires
        forall|i: int| 0 <= i < s.len() ==> other(f(#[trigger] s[i])) == key(s[i]),
        other(f(x)) == key(x),
    ensures
        placed(s.map_values(f), f(x), other) == placed(s, x, key).map_values(f),
    decreases s.len(),
{
    if s.len() == 0 || lex_le(key(s.last()), key(x)) {
        assert(s.map_values(f).push(f(x)) =~= s.push(x).map_values(f));
    } else {
        lemma_placed_maps(s.drop_last(), x, key, f, other);
        assert(s.map_values(f).drop_last() =~= s.drop_last().map_values(f));
        assert(placed(s.drop_last(), x, key).map_values(f).push(f(s.last())) =~= placed(
            s.drop_last(),
            x,
            key,
        ).push(s.last()).map_values(f));
    }
}

proof fn lemma_placed_members<A>(s: Seq<A>, x: A, key: spec_fn(A) -> Seq<char>, i: int)
    requires
        0 <= i < placed(s, x, key).len(),
    ensures
        placed(s, x, key)[i] == x || s.contains(placed(s, x, key)[i]),
    decreases s.len(),
{
    let r = placed(s, x, key);
    if s.len() == 0 || lex_le(key(s.last()), key(x)) {
        if i < s.len() {
            assert(s[i] == r[i]);
        }
    } else {
        lemma_placed_len(s.drop_last(), x, key);
        if i < r.len() - 1 {
            lemma_placed_members(s.drop_last(), x, key, i);
            if r[i] != x {
                let j = choose|j: int|
                    0 <= j < s.drop_last().len() && s.drop_last()[j] == r[i];
                assert(s[j] == r[i]);
            }
        } else {
            assert(s[s.len() - 1] == r[i]);
        }
    }
}

/// What is sorted was there before.
pub proof fn lemma_sorted_members<A>(s: Seq<A>, key: spec_fn(A) -> Seq<char>, i: int)
    requires
        0 <= i < sorted_by(s, key).len(),
    ensures
        s.contains(sorted_by(s, key)[i]),
    decreases s.len(),
{
    let r = sorted_by(s, key);
    let before = sorted_by(s.drop_last(), key);
    lemma_placed_members(before, s.last(), key, i);
    if r[i] == s.last() {
        assert(s[s.len() - 1] == r[i]);
    } else {
        let j = choose|j: int| 0 <= j < before.len() && before[j] == r[i];
        lemma_sorted_members(s.drop_last(), key, j);
        let k = choose|k: int| 0 <= k < s.drop_last().len() && s.drop_last()[k] == r[i];
        assert(s[k] == r[i]);
    }
}

/// Sorting items and then mapping them is mapping them and then sorting, where the mapping keeps
/// the keys.
pub proof fn lemma_sorted_maps<A, B>(
    s: Seq<A>,
    key: spec_fn(A) -> Seq<char>,
    f: spec_fn(A) -> B,
    other: spec_fn(B) -> Seq<char>,
)
    requires
        forall|i: int| 0 <= i < s.len() ==> other(f(#[trigger] s[i])) == key(s[i]),
    ensures
        sorted_by(s.map_values(f), other) == sorted_by(s, key).map_values(f),
    decreases s.len(),
{
    if s.len() == 0 {
        assert(s.map_values(f) =~= sorted_by(s, key).map_values(f));
    } else {
        let before = sorted_by(s.drop_last(), key);
        lemma_sorted_maps(s.drop_last(), key, f, other);
        assert(s.map_values(f).drop_last() =~= s.drop_last().map_values(f));
        assert forall|i: int| 0 <= i < before.len() implies other(f(#[trigger] before[i])) == key(
            before[i],
        ) by {
            lemma_sorted_members(s.drop_last(), key, i);
            let k = choose|k: int|
                0 <= k < s.drop_last().len() && s.drop_last()[k] == before[i];
            assert(s[k] == before[i]);
        }
        lemma_placed_maps(before, s.last(), key, f, other);
    }
}

proof fn lemma_placed_ascends<A>(s: Seq<A>, x: A, key: spec_fn(A) -> Seq<char>)
    requires
        ascending(s, key),
    ensures
        ascending(placed(s, x, key), key),
    decreases s.len(),
{
    let r = placed(s, x, key);
    if s.len() == 0 || lex_le(key(s.last()), key(x)) {
        assert forall|i: int, j: int| 0 <= i <= j < r.len() implies lex_le(
            key(#[trigger] r[i]),
            key(#[trigger] r[j]),
        ) by {
            if i == j {
                lemma_lex_reflexive(key(r[i]));
            } else if j == r.len() - 1 {
                assert(lex_le(key(s[i]), key(s[s.len() - 1])));
                lemma_lex_transitive(key(s[i]), key(s.last()), key(x));
            } else {
                assert(lex_le(key(s[i]), key(s[j])));
            }
        }
    } else {
        lemma_placed_len(s.drop_last(), x, key);
        assert(ascending(s.drop_last(), key)) by {
            assert forall|i: int, j: int| 0 <= i <= j < s.drop_last().len() implies lex_le(
                key(#[trigger] s.drop_last()[i]),
                key(#[trigger] s.drop_last()[j]),
            ) by {
                assert(lex_le(key(s[i]), key(s[j])));
            }
        }
        lemma_placed_ascends(s.drop_last(), x, key);
        let q = placed(s.drop_last(), x, key);
        assert forall|i: int, j: int| 0 <= i <= j < r.len() implies lex_le(
            key(#[trigger] r[i]),
            key(#[trigger] r[j]),
        ) by {
            if i == j {
                lemma_lex_reflexive(key(r[i]));
            } else if j == r.len() - 1 {
                lemma_placed_members(s.drop_last(), x, key, i);
                lemma_lex_total(key(s.last()), key(x));
                if q[i] != x {
                    let k = choose|k: int|
                        0 <= k < s.drop_last().len() && s.drop_last()[k] == q[i];
                    assert(lex_le(key(s[k]), key(s[s.len() - 1])));
                }
            } else {
                assert(lex_le(key(q[i]), key(q[j])));
            }
        }
    }
}

/// Sorting puts the keys in ascending order.
pub proof fn sorting_ascends<A>(s: Seq<A>, key: spec_fn(A) -> Seq<char>)
    ensures
        ascending(sorted_by(s, key), key),
    decreases s.len(),
{
    if s.len() > 0 {
        sorting_ascends(s.drop_last(), key);
        lemma_placed_ascends(sorted_by(s.drop_last(), key), s.last(), key);
    }
}

/// The items of `s` with key `k`, in order.
pub open spec fn with_key<A>(s: Seq<A>, key: spec_fn(A) -> Seq<char>, k: Seq<char>) -> Seq<A>
    decreases s.len(),
{
    if s.len() == 0 {
        s
    } else if key(s.last()) == k {
        with_key(s.drop_last(), key, k).push(s.last())
    } else {
        with_key(s.drop_last(), key, k)
    }
}

proof fn lemma_placed_keeps<A>(s: Seq<A>, x: A, key: spec_fn(A) -> Seq<char>, k: Seq<char>)
    ensures
        with_key(placed(s, x, key), key, k) == (if key(x) == k {
            with_key(s, key, k).push(x)
        } else {
            with_key(s, key, k)
        }),
    decreases s.len(),
{
    let r = placed(s, x, key);
    if s.len() == 0 || lex_le(key(s.last()), key(x)) {
        assert(r.drop_last() =~= s);
    } else {
        let q = placed(s.drop_last(), x, key);
        lemma_placed_keeps(s.drop_last(), x, key, k);
        assert(r.drop_last() =~= q);
        if key(x) == k && key(s.last()) == k {
            lemma_lex_reflexive(k);
        }
    }
}

/// Sorting loses nothing, makes nothing up, and keeps items of the same key in their order: for
/// each key, the items that have it are the same before and after.
pub proof fn sorting_is_stable<A>(s: Seq<A>, key: spec_fn(A) -> Seq<char>, k: Seq<char>)
    ensures
        with_key(sorted_by(s, key), key, k) == with_key(s, key, k),
    decreases s.len(),
{
    if s.len() > 0 {
        sorting_is_stable(s.drop_last(), key, k);
        lemma_placed_keeps(sorted_by(s.drop_last(), key), s.last(), key, k);
    }
}

/// Where `x` goes when it is put behind the last item whose key is not greater.
pub open spec fn place<A>(s: Seq<A>, x: A, key: spec_fn(A) -> Seq<char>) -> int
    decreases s.len(),
{
    if s.len() == 0 || lex_le(key(s.last()), key(x)) {
        s.len() as int
    } else {
        place(s.drop_last(), x, key)
    }
}

/// Where sorting puts the item at `i`.
pub open spec fn rank<A>(s: Seq<A>, key: spec_fn(A) -> Seq<char>, i: int) -> int
    decreases s.len(),
{
    if s.len() == 0 {
        i
    } else {
        let head = s.drop_last();
        let at = place(sorted_by(head, key), s.last(), key);
        if i == head.len() {
            at
        } else if rank(head, key, i) < at {
            rank(head, key, i)
        } else {
            rank(head, key, i) + 1
        }
    }
}

proof fn lemma_place<A>(s: Seq<A>, x: A, key: spec_fn(A) -> Seq<char>)
    ensures
        0 <= place(s, x, key) <= s.len(),
        placed(s, x, key) == s.insert(place(s, x, key), x),
        forall|i: int|
            place(s, x, key) <= i < s.len() ==> !lex_le(key(#[trigger] s[i]), key(x)),
    decreases s.len(),
{
    if s.len() == 0 || lex_le(key(s.last()), key(x)) {
        assert(s.insert(s.len() as int, x) =~= s.push(x));
    } else {
        let head = s.drop_last();
        let p = place(head, x, key);
        lemma_place(head, x, key);
        assert(head.insert(p, x).push(s.last()) =~= s.insert(p, x));
        assert forall|i: int| p <= i < s.len() implies !lex_le(key(#[trigger] s[i]), key(x)) by {
            if i < head.len() {
                assert(head[i] == s[i]);
            }
        }
    }
}

/// Sorting moves the items about and does nothing else: `rank` says where each goes, no two to
/// the same place; and of two items in order, the first stays first.
pub proof fn sorting_moves_items<A>(s: Seq<A>, key: spec_fn(A) -> Seq<char>, i: int, j: int)
    requires
        0 <= i < j < s.len(),
    ensures
        0 <= rank(s, key, i) < s.len(),
        0 <= rank(s, key, j) < s.len(),
        sorted_by(s, key).len() == s.len(),
        sorted_by(s, key)[rank(s, key, i)] == s[i],
        sorted_by(s, key)[rank(s, key, j)] == s[j],
        rank(s, key, i) != rank(s, key, j),
        lex_le(key(s[i]), key(s[j])) ==> rank(s, key, i) < rank(s, key, j),
    decreases s.len(),
{
    let head = s.drop_last();
    let before = sorted_by(head, key);
    let at = place(before, s.last(), key);
    lemma_place(before, s.last(), key);
    lemma_sorted_len(head, key);
    if j < head.len() {
        sorting_moves_items(head, key, i, j);
    } else {
        lemma_rank(head, key, i);
        if lex_le(key(s[i]), key(s[j])) && rank(head, key, i) >= at {
            assert(before[rank(head, key, i)] == s[i]);
        }
    }
}

/// Sorting puts each item where `rank` says.
pub proof fn lemma_rank<A>(s: Seq<A>, key: spec_fn(A) -> Seq<char>, i: int)
    requires
        0 <= i < s.len(),
    ensures
        0 <= rank(s, key, i) < s.len(),
        sorted_by(s, key).len() == s.len(),
        sorted_by(s, key)[rank(s, key, i)] == s[i],
    decreases s.len(),
{
    let head = s.drop_last();
    lemma_place(sorted_by(head, key), s.last(), key);
    lemma_sorted_len(head, key);
    if i < head.len() {
        lemma_rank(head, key, i);
    }
}

/// Each place after sorting is one that `rank` gives.
pub proof fn lemma_rank_onto<A>(s: Seq<A>, key: spec_fn(A) -> Seq<char>, a: int) -> (i: int)
    requires
        0 <= a < s.len(),
    ensures
        0 <= i < s.len(),
        rank(s, key, i) == a,
    decreases s.len(),
{
    let head = s.drop_last();
    let at = place(sorted_by(head, key), s.last(), key);
    lemma_place(sorted_by(head, key), s.last(), key);
    lemma_sorted_len(head, key);
    if a == at {
        head.len() as int
    } else if a < at {
        lemma_rank_onto(head, key, a)
    } else {
        lemma_rank_onto(head, key, a - 1)
    }
}

/// A text is sorted by itself.
pub open spec fn by_itself() -> spec_fn(Seq<char>) -> Seq<char> {
    |s: Seq<char>| s
}

/// The texts in ascending order.
pub fn sort_texts(list: Vec<String>) -> (r: Vec<String>)
    ensures
        text::texts(r@) == sorted_by(text::texts(list@), by_itself()),
{
    let ghost all = text::texts(list@);
    let mut keyed: Vec<(Vec<char>, String)> = Vec::new();
    let mut i: usize = 0;
    while i < list.len()
        invariant
            i <= list.len(),
            keyed.len() == i,
            forall|j: int|
                0 <= j < i ==> (#[trigger] keyed@[j]).1@ == list@[j]@ && keyed@[j].0@ == list@[j]@,
        decreases list.len() - i,
    {
        keyed.push((text::chars_of(list[i].as_str()), list[i].clone()));
        i = i + 1;
    }
    let ghost pairs = keyed@;
    let ghost key = |p: (Vec<char>, String)| p.0@;
    let ghost text_of = |p: (Vec<char>, String)| p.1@;
    let sorted = sort_keyed(keyed);
    proof {
        assert(pairs.map_values(text_of) =~= all);
        lemma_sorted_maps(pairs, key, text_of, by_itself());
    }
    let mut r: Vec<String> = Vec::new();
    let mut k: usize = 0;
    while k < sorted.len()
        invariant
            k <= sorted.len(),
            r.len() == k,
            forall|j: int| 0 <= j < k ==> (#[trigger] r@[j])@ == sorted@[j].1@,
        decreases sorted.len() - k,
    {
        r.push(sorted[k].1.clone());
        k = k + 1;
    }
    assert(text::texts(r@) =~= sorted@.map_values(text_of));
    r
}

}
