//! A total order on keys, and sorting by it.
use vstd::prelude::*;
use vstd::multiset::Multiset;
use vstd::relations::{sorted_by, total_ordering};

verus! {

broadcast use vstd::multiset::group_multiset_axioms, vstd::seq_lib::group_to_multiset_ensures;

/// The tokens of an executable key, as integers.
pub open spec fn ints(v: Seq<u64>) -> Seq<int> {
    v.map_values(|t: u64| t as int)
}

/// The keys of a vector of executable keys.
pub open spec fn kv(s: Seq<Vec<u64>>) -> Seq<Seq<int>> {
    s.map_values(|v: Vec<u64>| ints(v@))
}

/// Lexicographic order on keys.
pub open spec fn lex_le(a: Seq<int>, b: Seq<int>) -> bool
    decreases a.len(),
{
    if a.len() == 0 {
        true
    } else if b.len() == 0 {
        false
    } else if a[0] != b[0] {
        a[0] < b[0]
    } else {
        lex_le(a.drop_first(), b.drop_first())
    }
}

pub open spec fn key_order() -> spec_fn(Seq<int>, Seq<int>) -> bool {
    |a: Seq<int>, b: Seq<int>| lex_le(a, b)
}

/// The keys in ascending order.
pub open spec fn sort_keys(ks: Seq<Seq<int>>) -> Seq<Seq<int>> {
    ks.sort_by(key_order())
}

/// A sorted sequence with adjacent repeats removed.
pub open spec fn dedup(s: Seq<Seq<int>>) -> Seq<Seq<int>>
    decreases s.len(),
{
    if s.len() <= 1 {
        s
    } else if s[0] == s[1] {
        dedup(s.drop_first())
    } else {
        seq![s[0]] + dedup(s.drop_first())
    }
}

proof fn lemma_lex_reflexive(a: Seq<int>)
    ensures
        lex_le(a, a),
    decreases a.len(),
{
    if a.len() > 0 {
        lemma_lex_reflexive(a.drop_first());
    }
}

proof fn lemma_lex_antisymmetric(a: Seq<int>, b: Seq<int>)
    requires
        lex_le(a, b),
        lex_le(b, a),
    ensures
        a == b,
    decreases a.len(),
{
    if a.len() > 0 && b.len() > 0 {
        lemma_lex_antisymmetric(a.drop_first(), b.drop_first());
        assert(a =~= seq![a[0]] + a.drop_first());
        assert(b =~= seq![b[0]] + b.drop_first());
    } else {
        assert(a.len() == 0 && b.len() == 0);
        assert(a =~= b);
    }
}

proof fn lemma_lex_transitive(a: Seq<int>, b: Seq<int>, c: Seq<int>)
    requires
        lex_le(a, b),
        lex_le(b, c),
    ensures
        lex_le(a, c),
    decreases a.len(),
{
    if a.len() > 0 && b.len() > 0 && c.len() > 0 && a[0] == b[0] && b[0] == c[0] {
        lemma_lex_transitive(a.drop_first(), b.drop_first(), c.drop_first());
    }
}

proof fn lemma_lex_connected(a: Seq<int>, b: Seq<int>)
    ensures
        lex_le(a, b) || lex_le(b, a),
    decreases a.len(),
{
    if a.len() > 0 && b.len() > 0 && a[0] == b[0] {
        lemma_lex_connected(a.drop_first(), b.drop_first());
    }
}

/// The lexicographic order is a total order.
pub proof fn lemma_key_order_total()
    ensures
        total_ordering(key_order()),
{
    assert forall|a: Seq<int>| #[trigger] key_order()(a, a) by {
        lemma_lex_reflexive(a);
    }
    assert forall|a: Seq<int>, b: Seq<int>| #[trigger] key_order()(a, b) && #[trigger] key_order()(b, a) implies a == b by {
        lemma_lex_antisymmetric(a, b);
    }
    assert forall|a: Seq<int>, b: Seq<int>, c: Seq<int>| #[trigger] key_order()(a, b) && #[trigger] key_order()(b, c) implies key_order()(a, c) by {
        lemma_lex_transitive(a, b, c);
    }
    assert forall|a: Seq<int>, b: Seq<int>| #[trigger] key_order()(a, b) || #[trigger] key_order()(b, a) by {
        lemma_lex_connected(a, b);
    }
}

/// Sorting depends on the multiset of keys alone.
pub proof fn lemma_sort_keys_multiset(a: Seq<Seq<int>>, b: Seq<Seq<int>>)
    requires
        a.to_multiset() == b.to_multiset(),
    ensures
        sort_keys(a) == sort_keys(b),
{
    lemma_key_order_total();
    a.lemma_sort_by_ensures(key_order());
    b.lemma_sort_by_ensures(key_order());
    vstd::seq_lib::lemma_sorted_unique(sort_keys(a), sort_keys(b), key_order());
}

/// A sequence that is sorted and a permutation of `a` is `sort_keys(a)`.
pub proof fn lemma_sorted_is_sort_keys(r: Seq<Seq<int>>, a: Seq<Seq<int>>)
    requires
        sorted_by(r, key_order()),
        r.to_multiset() == a.to_multiset(),
    ensures
        r == sort_keys(a),
{
    lemma_key_order_total();
    a.lemma_sort_by_ensures(key_order());
    vstd::seq_lib::lemma_sorted_unique(r, sort_keys(a), key_order());
}

pub fn push_tok(k: &mut Vec<u64>, t: u64)
    ensures
        ints(final(k)@) == ints(old(k)@).push(t as int),
{
    k.push(t);
    assert(ints(final(k)@) =~= ints(old(k)@).push(t as int));
}

pub fn append_key(k: &mut Vec<u64>, o: &Vec<u64>)
    ensures
        ints(final(k)@) == ints(old(k)@) + ints(o@),
{
    let mut i: usize = 0;
    while i < o.len()
        invariant
            i <= o.len(),
            ints(k@) == ints(old(k)@) + ints(o@.take(i as int)),
        decreases o.len() - i,
    {
        push_tok(k, o[i]);
        assert(ints(o@.take(i + 1)) =~= ints(o@.take(i as int)).push(o@[i as int] as int));
        i = i + 1;
    }
    assert(o@.take(i as int) =~= o@);
}

/// Whether `a` comes no later than `b` in key order.
pub fn key_le(a: &Vec<u64>, b: &Vec<u64>) -> (r: bool)
    ensures
        r == lex_le(ints(a@), ints(b@)),
{
    let mut i: usize = 0;
    assert(ints(a@).skip(0) =~= ints(a@));
    assert(ints(b@).skip(0) =~= ints(b@));
    while i < a.len() && i < b.len()
        invariant
            i <= a.len() && i <= b.len(),
            forall|j: int| 0 <= j < i ==> a@[j] == b@[j],
            lex_le(ints(a@), ints(b@)) == lex_le(ints(a@).skip(i as int), ints(b@).skip(i as int)),
        decreases a.len() - i,
    {
        if a[i] != b[i] {
            return a[i] < b[i];
        }
        assert(ints(a@).skip(i + 1) =~= ints(a@).skip(i as int).drop_first());
        assert(ints(b@).skip(i + 1) =~= ints(b@).skip(i as int).drop_first());
        i = i + 1;
    }
    i == a.len()
}

/// Whether two keys are equal.
pub fn key_eq(a: &Vec<u64>, b: &Vec<u64>) -> (r: bool)
    ensures
        r == (ints(a@) == ints(b@)),
{
    proof {
        lemma_key_order_total();
    }
    let x = key_le(a, b);
    let y = key_le(b, a);
    proof {
        if ints(a@) == ints(b@) {
            lemma_lex_reflexive(ints(a@));
        }
        if x && y {
            lemma_lex_antisymmetric(ints(a@), ints(b@));
        }
    }
    x && y
}

/// Sorts keys in key order.
pub fn sort_vec_keys(ks: Vec<Vec<u64>>) -> (r: Vec<Vec<u64>>)
    ensures
        kv(r@) == sort_keys(kv(ks@)),
{
    proof {
        lemma_key_order_total();
    }
    let ghost orig = kv(ks@);
    let mut rest = ks;
    let mut r: Vec<Vec<u64>> = Vec::new();
    assert(kv(r@) =~= Seq::<Seq<int>>::empty());
    assert(kv(r@).to_multiset().add(kv(rest@).to_multiset()) =~= orig.to_multiset());
    while rest.len() > 0
        invariant
            total_ordering(key_order()),
            sorted_by(kv(r@), key_order()),
            kv(r@).to_multiset().add(kv(rest@).to_multiset()) == orig.to_multiset(),
        decreases rest.len(),
    {
        let ghost before_rest = kv(rest@);
        let ghost before_r = kv(r@);
        let x = rest.pop().unwrap();
        proof {
            assert(before_rest =~= kv(rest@).push(ints(x@)));
            vstd::seq_lib::to_multiset_build(kv(rest@), ints(x@));
        }
        let mut p: usize = 0;
        while p < r.len() && key_le(&r[p], &x)
            invariant
                total_ordering(key_order()),
                p <= r.len(),
                forall|j: int| 0 <= j < p ==> lex_le(#[trigger] kv(r@)[j], ints(x@)),
            decreases r.len() - p,
        {
            p = p + 1;
        }
        proof {
            if p < r.len() {
                assert(!lex_le(ints(r@[p as int]@), ints(x@)));
                assert(kv(r@)[p as int] == ints(r@[p as int]@));
                assert(!key_order()(kv(r@)[p as int], ints(x@)));
                assert(key_order()(ints(x@), kv(r@)[p as int]));
            }
        }
        r.insert(p, x);
        proof {
            let ks2 = kv(r@);
            assert(ks2 =~= before_r.insert(p as int, ints(x@)));
            vstd::seq_lib::to_multiset_insert(before_r, p as int, ints(x@));
            assert forall|i: int, j: int| 0 <= i < j < ks2.len() implies #[trigger] key_order()(ks2[i], ks2[j]) by {
                if j < p {
                    assert(ks2[i] == before_r[i] && ks2[j] == before_r[j]);
                } else if j == p {
                    assert(ks2[i] == before_r[i]);
                } else if i == p {
                    assert(ks2[j] == before_r[j - 1]);
                    if j - 1 > p {
                        assert(key_order()(before_r[p as int], before_r[j - 1]));
                    }
                } else if i < p {
                    assert(ks2[i] == before_r[i] && ks2[j] == before_r[j - 1]);
                } else {
                    assert(ks2[i] == before_r[i - 1] && ks2[j] == before_r[j - 1]);
                }
            }
            assert(ks2.to_multiset().add(kv(rest@).to_multiset()) =~= orig.to_multiset());
        }
    }
    proof {
        assert(kv(rest@) =~= Seq::<Seq<int>>::empty());
        assert(kv(rest@).to_multiset() =~= Multiset::<Seq<int>>::empty());
        assert(kv(r@).to_multiset() =~= orig.to_multiset());
        lemma_sorted_is_sort_keys(kv(r@), orig);
    }
    r
}

/// Removes adjacent repeats.
pub fn dedup_keys(ks: Vec<Vec<u64>>) -> (r: Vec<Vec<u64>>)
    ensures
        kv(r@) == dedup(kv(ks@)),
{
    let ghost s = kv(ks@);
    let mut r: Vec<Vec<u64>> = Vec::new();
    let mut i: usize = ks.len();
    proof {
        assert(s.skip(s.len() as int) =~= Seq::<Seq<int>>::empty());
        assert(kv(r@) =~= Seq::<Seq<int>>::empty());
    }
    while i > 0
        invariant
            s == kv(ks@),
            i <= ks.len(),
            kv(r@) == dedup(s.skip(i as int)),
            i < ks.len() ==> r.len() > 0 && kv(r@)[0] == s[i as int],
        decreases i,
    {
        let ghost before = kv(r@);
        assert(s.skip(i - 1).drop_first() =~= s.skip(i as int));
        if i < ks.len() && key_eq(&ks[i - 1], &ks[i]) {
        } else {
            let x = ks[i - 1].clone();
            r.insert(0, x);
            assert(kv(r@) =~= seq![s[i - 1]] + before);
        }
        i = i - 1;
    }
    assert(s.skip(0) =~= s);
    r
}

/// No two neighbours are equal.
pub open spec fn no_adjacent_repeats(s: Seq<Seq<int>>) -> bool {
    forall|i: int| 0 <= i < s.len() - 1 ==> #[trigger] s[i] != s[i + 1]
}

proof fn lemma_dedup_props(s: Seq<Seq<int>>)
    requires
        sorted_by(s, key_order()),
        total_ordering(key_order()),
    ensures
        sorted_by(dedup(s), key_order()),
        no_adjacent_repeats(dedup(s)),
        s.len() > 0 ==> dedup(s).len() > 0 && dedup(s)[0] == s[0],
        forall|x: Seq<int>| dedup(s).contains(x) ==> s.contains(x),
    decreases s.len(),
{
    if s.len() > 1 {
        let t = s.drop_first();
        assert(sorted_by(t, key_order())) by {
            assert forall|i: int, j: int| 0 <= i < j < t.len() implies #[trigger] key_order()(t[i], t[j]) by {
                assert(t[i] == s[i + 1] && t[j] == s[j + 1]);
            }
        }
        lemma_dedup_props(t);
        let d = dedup(t);
        assert forall|x: Seq<int>| d.contains(x) implies s.contains(x) by {
            let k = choose|k: int| 0 <= k < d.len() && d[k] == x;
            assert(t.contains(x));
            let m = choose|m: int| 0 <= m < t.len() && t[m] == x;
            assert(s[m + 1] == x);
        }
        if s[0] != s[1] {
            let r = seq![s[0]] + d;
            assert(dedup(s) == r);
            assert forall|i: int, j: int| 0 <= i < j < r.len() implies #[trigger] key_order()(r[i], r[j]) by {
                if i == 0 {
                    assert(r[j] == d[j - 1]);
                    assert(d.contains(r[j]));
                    assert(t.contains(r[j]));
                    let m = choose|m: int| 0 <= m < t.len() && t[m] == r[j];
                    assert(t[m] == s[m + 1]);
                    assert(key_order()(s[0], s[m + 1]));
                } else {
                    assert(r[i] == d[i - 1] && r[j] == d[j - 1]);
                }
            }
            assert forall|i: int| 0 <= i < r.len() - 1 implies #[trigger] r[i] != r[i + 1] by {
                if i == 0 {
                    assert(r[1] == d[0] && d[0] == t[0]);
                } else {
                    assert(r[i] == d[i - 1] && r[i + 1] == d[i]);
                }
            }
            assert forall|x: Seq<int>| r.contains(x) implies s.contains(x) by {
                if x != s[0] {
                    let k = choose|k: int| 0 <= k < r.len() && r[k] == x;
                    assert(d[k - 1] == x);
                    assert(d.contains(x));
                }
            }
        }
    } else {
        assert forall|x: Seq<int>| dedup(s).contains(x) implies s.contains(x) by {}
    }
}

proof fn lemma_dedup_fixed(s: Seq<Seq<int>>)
    requires
        no_adjacent_repeats(s),
    ensures
        dedup(s) == s,
    decreases s.len(),
{
    if s.len() > 1 {
        let t = s.drop_first();
        assert(no_adjacent_repeats(t)) by {
            assert forall|i: int| 0 <= i < t.len() - 1 implies #[trigger] t[i] != t[i + 1] by {
                assert(t[i] == s[i + 1] && t[i + 1] == s[i + 2]);
            }
        }
        lemma_dedup_fixed(t);
        assert(s[0] != s[1]);
        assert(s =~= seq![s[0]] + t);
    }
}

/// A sorted set of keys is its own sorted set.
pub proof fn lemma_sorted_set_idempotent(s: Seq<Seq<int>>)
    ensures
        dedup(sort_keys(dedup(sort_keys(s)))) == dedup(sort_keys(s)),
{
    lemma_key_order_total();
    s.lemma_sort_by_ensures(key_order());
    lemma_dedup_props(sort_keys(s));
    let d = dedup(sort_keys(s));
    lemma_sorted_is_sort_keys(d, d);
    lemma_dedup_fixed(d);
}

} // verus!
