//! The normalizer: rebuilds a plan with the children of every parallel node
//! in key order, and the variable usages of every fetch as a sorted set and
//! its rewrites sorted, so that equivalent plans line up child by child.
use vstd::prelude::*;
use vstd::relations::sorted_by;
use crate::key::{
    deferred_key, deferred_keys, lemma_deferred_keys_map, lemma_nodes_keys_map, node_key, node_key_of,
    nodes_keys, rewrite_key, rewrite_key_of, rewrites_key, str_key, str_key_of, strs_keys,
};
use crate::order::{
    dedup, ints, key_eq, key_le, key_order, kv, lemma_key_order_total, lemma_sorted_is_sort_keys,
    lemma_sorted_set_idempotent, sort_keys,
};
use crate::plan::{DataRewrite, DeferredNode, FetchNode, FlattenNode, PlanNode, Primary};

verus! {

broadcast use vstd::seq::axiom_seq_index_decreases, vstd::std_specs::vec::axiom_vec_decreases_to_view,
    vstd::std_specs::vec::axiom_vec_index_decreases, vstd::multiset::group_multiset_axioms,
    vstd::seq_lib::group_to_multiset_ensures;

/// Every parallel node of the tree lists its children in key order, and
/// every fetch lists its variable usages sorted and without repeats and its
/// rewrites sorted.
pub open spec fn in_normal_form(n: PlanNode) -> bool
    decreases n,
{
    match n {
        PlanNode::Sequence { nodes } => forall|i: int| 0 <= i < nodes@.len() ==> in_normal_form(#[trigger] nodes@[i]),
        PlanNode::Parallel { nodes } => sorted_by(nodes_keys(nodes@), key_order()) && forall|i: int|
            0 <= i < nodes@.len() ==> in_normal_form(#[trigger] nodes@[i]),
        PlanNode::Fetch(f) => fetch_in_normal_form(f),
        PlanNode::Flatten(f) => in_normal_form(*f.node),
        PlanNode::Defer { primary, deferred } => opt_in_normal_form(primary.node) && forall|i: int|
            0 <= i < deferred@.len() ==> opt_in_normal_form(#[trigger] deferred@[i].node),
        PlanNode::Subscription { rest, .. } => opt_in_normal_form(rest),
        PlanNode::Condition { if_clause, else_clause, .. } => opt_in_normal_form(if_clause) && opt_in_normal_form(else_clause),
    }
}

pub open spec fn rewrites_sorted(o: Option<Vec<DataRewrite>>) -> bool {
    match o {
        Some(v) => sorted_by(v@.map_values(|r: DataRewrite| rewrite_key(r)), key_order()),
        None => true,
    }
}

/// Variable usages form a sorted set and each rewrite list is sorted.
pub open spec fn fetch_in_normal_form(f: FetchNode) -> bool {
    &&& strs_keys(f.variable_usages@) == dedup(sort_keys(strs_keys(f.variable_usages@)))
    &&& rewrites_sorted(f.input_rewrites)
    &&& rewrites_sorted(f.output_rewrites)
    &&& rewrites_sorted(f.context_rewrites)
}

pub open spec fn opt_in_normal_form(o: Option<Box<PlanNode>>) -> bool
    decreases o,
{
    match o {
        Some(b) => in_normal_form(*b),
        None => true,
    }
}

/// Normalizes each node of a list, in place of the list.
#[verifier::loop_isolation(false)]
fn normalize_all(nodes: Vec<PlanNode>) -> (r: Vec<PlanNode>)
    ensures
        nodes_keys(r@) == nodes_keys(nodes@),
        forall|i: int| 0 <= i < r@.len() ==> in_normal_form(#[trigger] r@[i]),
    decreases nodes,
{
    let ghost orig = nodes@;
    let mut rest = nodes;
    let mut out: Vec<PlanNode> = Vec::new();
    proof {
        lemma_nodes_keys_map(orig);
        assert(orig.subrange(orig.len() as int, orig.len() as int) =~= Seq::<PlanNode>::empty());
    }
    while rest.len() > 0
        invariant
            rest@ == orig.subrange(0, rest@.len() as int),
            out@.len() + rest@.len() == orig.len(),
            out@.map_values(|n: PlanNode| node_key(n)) == orig.subrange(rest@.len() as int, orig.len() as int).map_values(|n: PlanNode| node_key(n)),
            forall|i: int| 0 <= i < out@.len() ==> in_normal_form(#[trigger] out@[i]),
        decreases rest.len(),
    {
        let ghost k = rest@.len() - 1;
        let x = rest.pop().unwrap();
        assert(x == orig[k]);
        assert(decreases_to!(nodes => x));
        let ghost before = out@;
        let y = normalize(x);
        out.insert(0, y);
        proof {
            assert(out@ =~= seq![y] + before);
            assert(orig.subrange(k, orig.len() as int) =~= seq![orig[k]] + orig.subrange(k + 1, orig.len() as int));
            let tail = orig.subrange(k + 1, orig.len() as int);
            assert(before.map_values(|n: PlanNode| node_key(n)) == tail.map_values(|n: PlanNode| node_key(n)));
            assert(node_key(y) == node_key(orig[k]));
            assert(out@.map_values(|n: PlanNode| node_key(n)) =~= seq![node_key(y)] + before.map_values(|n: PlanNode| node_key(n)));
            assert(orig.subrange(k, orig.len() as int).map_values(|n: PlanNode| node_key(n)) =~= seq![node_key(orig[k])] + tail.map_values(|n: PlanNode| node_key(n)));
            assert forall|i: int| 0 <= i < out@.len() implies in_normal_form(#[trigger] out@[i]) by {
                if i > 0 {
                    assert(out@[i] == before[i - 1]);
                }
            }
        }
    }
    proof {
        assert(orig.subrange(0, orig.len() as int) =~= orig);
        lemma_nodes_keys_map(out@);
    }
    out
}

/// Orders nodes by their keys; `ks` holds the key of each node.
fn sort_nodes(ks: Vec<Vec<u64>>, ns: Vec<PlanNode>) -> (r: Vec<PlanNode>)
    requires
        ks@.len() == ns@.len(),
        forall|i: int| 0 <= i < ks@.len() ==> ints(#[trigger] ks@[i]@) == node_key(ns@[i]),
        forall|i: int| 0 <= i < ns@.len() ==> in_normal_form(#[trigger] ns@[i]),
    ensures
        nodes_keys(r@) == sort_keys(nodes_keys(ns@)),
        forall|i: int| 0 <= i < r@.len() ==> in_normal_form(#[trigger] r@[i]),
{
    proof {
        lemma_key_order_total();
        lemma_nodes_keys_map(ns@);
        assert(kv(ks@) =~= nodes_keys(ns@));
    }
    let ghost orig = kv(ks@);
    let mut rk = ks;
    let mut rn = ns;
    let mut sk: Vec<Vec<u64>> = Vec::new();
    let mut sn: Vec<PlanNode> = Vec::new();
    assert(kv(sk@) =~= Seq::<Seq<int>>::empty());
    assert(kv(sk@).to_multiset().add(kv(rk@).to_multiset()) =~= orig.to_multiset());
    while rk.len() > 0
        invariant
            vstd::relations::total_ordering(key_order()),
            rk@.len() == rn@.len(),
            sk@.len() == sn@.len(),
            forall|i: int| 0 <= i < rk@.len() ==> ints(#[trigger] rk@[i]@) == node_key(rn@[i]),
            forall|i: int| 0 <= i < rn@.len() ==> in_normal_form(#[trigger] rn@[i]),
            forall|i: int| 0 <= i < sk@.len() ==> ints(#[trigger] sk@[i]@) == node_key(sn@[i]),
            forall|i: int| 0 <= i < sn@.len() ==> in_normal_form(#[trigger] sn@[i]),
            sorted_by(kv(sk@), key_order()),
            kv(sk@).to_multiset().add(kv(rk@).to_multiset()) == orig.to_multiset(),
        decreases rk.len(),
    {
        let ghost before_rest = kv(rk@);
        let ghost before_s = kv(sk@);
        let ghost before_rn = rn@;
        let ghost before_sn = sn@;
        proof {
            assert forall|i: int| 0 <= i < before_s.len() implies before_s[i] == node_key(before_sn[i]) by {
                assert(before_s[i] == ints(sk@[i]@));
            }
        }
        let x = rk.pop().unwrap();
        let y = rn.pop().unwrap();
        proof {
            assert(before_rest =~= kv(rk@).push(ints(x@)));
            vstd::seq_lib::to_multiset_build(kv(rk@), ints(x@));
            assert(ints(x@) == node_key(y));
            assert(in_normal_form(y));
        }
        let mut p: usize = 0;
        while p < sk.len() && key_le(&sk[p], &x)
            invariant
                vstd::relations::total_ordering(key_order()),
                p <= sk@.len(),
                forall|j: int| 0 <= j < p ==> crate::order::lex_le(#[trigger] kv(sk@)[j], ints(x@)),
            decreases sk.len() - p,
        {
            p = p + 1;
        }
        proof {
            if p < sk.len() {
                assert(kv(sk@)[p as int] == ints(sk@[p as int]@));
                assert(!key_order()(kv(sk@)[p as int], ints(x@)));
                assert(key_order()(ints(x@), kv(sk@)[p as int]));
            }
        }
        sk.insert(p, x);
        sn.insert(p, y);
        proof {
            let ks2 = kv(sk@);
            assert(ks2 =~= before_s.insert(p as int, ints(x@)));
            vstd::seq_lib::to_multiset_insert(before_s, p as int, ints(x@));
            assert forall|i: int, j: int| 0 <= i < j < ks2.len() implies #[trigger] key_order()(ks2[i], ks2[j]) by {
                if j < p {
                    assert(ks2[i] == before_s[i] && ks2[j] == before_s[j]);
                } else if j == p {
                    assert(ks2[i] == before_s[i]);
                } else if i == p {
                    assert(ks2[j] == before_s[j - 1]);
                    if j - 1 > p {
                        assert(key_order()(before_s[p as int], before_s[j - 1]));
                    }
                } else if i < p {
                    assert(ks2[i] == before_s[i] && ks2[j] == before_s[j - 1]);
                } else {
                    assert(ks2[i] == before_s[i - 1] && ks2[j] == before_s[j - 1]);
                }
            }
            assert(ks2.to_multiset().add(kv(rk@).to_multiset()) =~= orig.to_multiset());
            assert(sn@ =~= before_sn.insert(p as int, y));
            assert forall|i: int| 0 <= i < sk@.len() implies ints(#[trigger] sk@[i]@) == node_key(sn@[i]) by {
                assert(ints(sk@[i]@) == ks2[i]);
                if i < p {
                    assert(ks2[i] == before_s[i] && sn@[i] == before_sn[i]);
                } else if i > p {
                    assert(ks2[i] == before_s[i - 1] && sn@[i] == before_sn[i - 1]);
                }
            }
            assert forall|i: int| 0 <= i < sn@.len() implies in_normal_form(#[trigger] sn@[i]) by {
                if i < p {
                    assert(sn@[i] == before_sn[i]);
                } else if i > p {
                    assert(sn@[i] == before_sn[i - 1]);
                }
            }
        }
    }
    proof {
        assert(kv(rk@) =~= Seq::<Seq<int>>::empty());
        assert(kv(rk@).to_multiset() =~= vstd::multiset::Multiset::<Seq<int>>::empty());
        assert(kv(sk@).to_multiset() =~= orig.to_multiset());
        lemma_sorted_is_sort_keys(kv(sk@), orig);
        lemma_nodes_keys_map(sn@);
        assert(kv(sk@) =~= nodes_keys(sn@));
    }
    sn
}

fn normalize_opt(o: Option<Box<PlanNode>>) -> (r: Option<Box<PlanNode>>)
    ensures
        crate::key::opt_node_key(r) == crate::key::opt_node_key(o),
        opt_in_normal_form(r),
    decreases o,
{
    match o {
        Some(b) => Some(Box::new(normalize(*b))),
        None => None,
    }
}

#[verifier::loop_isolation(false)]
fn normalize_deferred(ds: Vec<DeferredNode>) -> (r: Vec<DeferredNode>)
    ensures
        deferred_keys(r@) == deferred_keys(ds@),
        forall|i: int| 0 <= i < r@.len() ==> opt_in_normal_form(#[trigger] r@[i].node),
    decreases ds,
{
    let ghost orig = ds@;
    let mut rest = ds;
    let mut out: Vec<DeferredNode> = Vec::new();
    proof {
        assert(orig.subrange(orig.len() as int, orig.len() as int) =~= Seq::<DeferredNode>::empty());
    }
    while rest.len() > 0
        invariant
            rest@ == orig.subrange(0, rest@.len() as int),
            out@.len() + rest@.len() == orig.len(),
            out@.map_values(|d: DeferredNode| deferred_key(d)) == orig.subrange(rest@.len() as int, orig.len() as int).map_values(|d: DeferredNode| deferred_key(d)),
            forall|i: int| 0 <= i < out@.len() ==> opt_in_normal_form(#[trigger] out@[i].node),
        decreases rest.len(),
    {
        let ghost k = rest@.len() - 1;
        let d = rest.pop().unwrap();
        assert(d == orig[k]);
        assert(decreases_to!(ds => d));
        let ghost before = out@;
        let DeferredNode { depends, label, query_path, subselection, node } = d;
        let nd = DeferredNode { depends, label, query_path, subselection, node: normalize_opt(node) };
        assert(deferred_key(nd) =~= deferred_key(d));
        out.insert(0, nd);
        proof {
            assert(out@ =~= seq![nd] + before);
            assert(orig.subrange(k, orig.len() as int) =~= seq![orig[k]] + orig.subrange(k + 1, orig.len() as int));
            let tail = orig.subrange(k + 1, orig.len() as int);
            assert(before.map_values(|d: DeferredNode| deferred_key(d)) == tail.map_values(|d: DeferredNode| deferred_key(d)));
            assert(out@.map_values(|d: DeferredNode| deferred_key(d)) =~= seq![deferred_key(nd)] + before.map_values(|d: DeferredNode| deferred_key(d)));
            assert(orig.subrange(k, orig.len() as int).map_values(|d: DeferredNode| deferred_key(d)) =~= seq![deferred_key(orig[k])] + tail.map_values(|d: DeferredNode| deferred_key(d)));
            assert forall|i: int| 0 <= i < out@.len() implies opt_in_normal_form(#[trigger] out@[i].node) by {
                if i > 0 {
                    assert(out@[i] == before[i - 1]);
                }
            }
        }
    }
    proof {
        assert(orig.subrange(0, orig.len() as int) =~= orig);
        lemma_deferred_keys_map(out@);
        lemma_deferred_keys_map(orig);
    }
    out
}

/// Rebuilds a plan with the children of every parallel node in key order;
/// the result is equivalent to the input.
pub fn normalize(n: PlanNode) -> (r: PlanNode)
    ensures
        node_key(r) == node_key(n),
        in_normal_form(r),
    decreases n,
{
    match n {
        PlanNode::Sequence { nodes } => {
            let out = normalize_all(nodes);
            PlanNode::Sequence { nodes: out }
        },
        PlanNode::Parallel { nodes } => {
            let out = normalize_all(nodes);
            let mut ks: Vec<Vec<u64>> = Vec::new();
            let mut i: usize = 0;
            while i < out.len()
                invariant
                    i <= out@.len(),
                    ks@.len() == i,
                    forall|j: int| 0 <= j < i ==> ints(#[trigger] ks@[j]@) == node_key(out@[j]),
                decreases out.len() - i,
            {
                ks.push(node_key_of(&out[i]));
                i = i + 1;
            }
            let sorted = sort_nodes(ks, out);
            proof {
                // The children's keys are sorted already, so sorting them again changes nothing.
                lemma_key_order_total();
                nodes_keys(out@).lemma_sort_by_ensures(key_order());
                lemma_sorted_is_sort_keys(nodes_keys(sorted@), nodes_keys(sorted@));
            }
            PlanNode::Parallel { nodes: sorted }
        },
        PlanNode::Fetch(f) => PlanNode::Fetch(normalize_fetch(f)),
        PlanNode::Flatten(f) => {
            let FlattenNode { path, node } = f;
            PlanNode::Flatten(FlattenNode { path, node: Box::new(normalize(*node)) })
        },
        PlanNode::Defer { primary, deferred } => {
            let Primary { subselection, node } = primary;
            let r = PlanNode::Defer {
                primary: Primary { subselection, node: normalize_opt(node) },
                deferred: normalize_deferred(deferred),
            };
            r
        },
        PlanNode::Subscription { primary, rest } => PlanNode::Subscription { primary, rest: normalize_opt(rest) },
        PlanNode::Condition { condition, if_clause, else_clause } => PlanNode::Condition {
            condition,
            if_clause: normalize_opt(if_clause),
            else_clause: normalize_opt(else_clause),
        },
    }
}

/// Orders strings by their keys.
fn sort_strings(v: Vec<String>) -> (r: Vec<String>)
    ensures
        strs_keys(r@) == sort_keys(strs_keys(v@)),
{
    proof {
        lemma_key_order_total();
    }
    let ghost orig = strs_keys(v@);
    let mut rest = v;
    let mut out: Vec<String> = Vec::new();
    assert(strs_keys(out@) =~= Seq::<Seq<int>>::empty());
    assert(strs_keys(out@).to_multiset().add(strs_keys(rest@).to_multiset()) =~= orig.to_multiset());
    while rest.len() > 0
        invariant
            vstd::relations::total_ordering(key_order()),
            sorted_by(strs_keys(out@), key_order()),
            strs_keys(out@).to_multiset().add(strs_keys(rest@).to_multiset()) == orig.to_multiset(),
        decreases rest.len(),
    {
        let ghost before_rest = strs_keys(rest@);
        let ghost before = strs_keys(out@);
        let x = rest.pop().unwrap();
        let kx = str_key_of(x.as_str());
        proof {
            assert(before_rest =~= strs_keys(rest@).push(str_key(x@)));
            vstd::seq_lib::to_multiset_build(strs_keys(rest@), str_key(x@));
        }
        let mut p: usize = 0;
        while p < out.len() && key_le(&str_key_of(out[p].as_str()), &kx)
            invariant
                vstd::relations::total_ordering(key_order()),
                p <= out@.len(),
                ints(kx@) == str_key(x@),
                forall|j: int| 0 <= j < p ==> crate::order::lex_le(#[trigger] strs_keys(out@)[j], str_key(x@)),
            decreases out.len() - p,
        {
            p = p + 1;
        }
        proof {
            if p < out.len() {
                assert(!key_order()(strs_keys(out@)[p as int], str_key(x@)));
                assert(key_order()(str_key(x@), strs_keys(out@)[p as int]));
            }
        }
        out.insert(p, x);
        proof {
            let ks2 = strs_keys(out@);
            assert(ks2 =~= before.insert(p as int, str_key(x@)));
            vstd::seq_lib::to_multiset_insert(before, p as int, str_key(x@));
            assert forall|i: int, j: int| 0 <= i < j < ks2.len() implies #[trigger] key_order()(ks2[i], ks2[j]) by {
                if j < p {
                    assert(ks2[i] == before[i] && ks2[j] == before[j]);
                } else if j == p {
                    assert(ks2[i] == before[i]);
                } else if i == p {
                    assert(ks2[j] == before[j - 1]);
                    if j - 1 > p {
                        assert(key_order()(before[p as int], before[j - 1]));
                    }
                } else if i < p {
                    assert(ks2[i] == before[i] && ks2[j] == before[j - 1]);
                } else {
                    assert(ks2[i] == before[i - 1] && ks2[j] == before[j - 1]);
                }
            }
            assert(ks2.to_multiset().add(strs_keys(rest@).to_multiset()) =~= orig.to_multiset());
        }
    }
    proof {
        assert(strs_keys(rest@) =~= Seq::<Seq<int>>::empty());
        assert(strs_keys(rest@).to_multiset() =~= vstd::multiset::Multiset::<Seq<int>>::empty());
        assert(strs_keys(out@).to_multiset() =~= orig.to_multiset());
        lemma_sorted_is_sort_keys(strs_keys(out@), orig);
    }
    out
}

/// Orders rewrites by their keys.
fn sort_rewrites(v: Vec<DataRewrite>) -> (r: Vec<DataRewrite>)
    ensures
        rkeys(r@) == sort_keys(rkeys(v@)),
{
    proof {
        lemma_key_order_total();
    }
    let ghost orig = rkeys(v@);
    let mut rest = v;
    let mut out: Vec<DataRewrite> = Vec::new();
    assert(rkeys(out@) =~= Seq::<Seq<int>>::empty());
    assert(rkeys(out@).to_multiset().add(rkeys(rest@).to_multiset()) =~= orig.to_multiset());
    while rest.len() > 0
        invariant
            vstd::relations::total_ordering(key_order()),
            sorted_by(rkeys(out@), key_order()),
            rkeys(out@).to_multiset().add(rkeys(rest@).to_multiset()) == orig.to_multiset(),
        decreases rest.len(),
    {
        let ghost before_rest = rkeys(rest@);
        let ghost before = rkeys(out@);
        let x = rest.pop().unwrap();
        let kx = rewrite_key_of(&x);
        proof {
            assert(before_rest =~= rkeys(rest@).push(rewrite_key(x)));
            vstd::seq_lib::to_multiset_build(rkeys(rest@), rewrite_key(x));
        }
        let mut p: usize = 0;
        while p < out.len() && key_le(&rewrite_key_of(&out[p]), &kx)
            invariant
                vstd::relations::total_ordering(key_order()),
                p <= out@.len(),
                ints(kx@) == rewrite_key(x),
                forall|j: int| 0 <= j < p ==> crate::order::lex_le(#[trigger] rkeys(out@)[j], rewrite_key(x)),
            decreases out.len() - p,
        {
            p = p + 1;
        }
        proof {
            if p < out.len() {
                assert(!key_order()(rkeys(out@)[p as int], rewrite_key(x)));
                assert(key_order()(rewrite_key(x), rkeys(out@)[p as int]));
            }
        }
        out.insert(p, x);
        proof {
            let ks2 = rkeys(out@);
            assert(ks2 =~= before.insert(p as int, rewrite_key(x)));
            vstd::seq_lib::to_multiset_insert(before, p as int, rewrite_key(x));
            assert forall|i: int, j: int| 0 <= i < j < ks2.len() implies #[trigger] key_order()(ks2[i], ks2[j]) by {
                if j < p {
                    assert(ks2[i] == before[i] && ks2[j] == before[j]);
                } else if j == p {
                    assert(ks2[i] == before[i]);
                } else if i == p {
                    assert(ks2[j] == before[j - 1]);
                    if j - 1 > p {
                        assert(key_order()(before[p as int], before[j - 1]));
                    }
                } else if i < p {
                    assert(ks2[i] == before[i] && ks2[j] == before[j - 1]);
                } else {
                    assert(ks2[i] == before[i - 1] && ks2[j] == before[j - 1]);
                }
            }
            assert(ks2.to_multiset().add(rkeys(rest@).to_multiset()) =~= orig.to_multiset());
        }
    }
    proof {
        assert(rkeys(rest@) =~= Seq::<Seq<int>>::empty());
        assert(rkeys(rest@).to_multiset() =~= vstd::multiset::Multiset::<Seq<int>>::empty());
        assert(rkeys(out@).to_multiset() =~= orig.to_multiset());
        lemma_sorted_is_sort_keys(rkeys(out@), orig);
    }
    out
}

/// Drops each string whose key equals its successor's.
fn dedup_strings(v: Vec<String>) -> (r: Vec<String>)
    ensures
        strs_keys(r@) == dedup(strs_keys(v@)),
{
    let ghost s = strs_keys(v@);
    let mut rest = v;
    let mut out: Vec<String> = Vec::new();
    proof {
        assert(s.skip(s.len() as int) =~= Seq::<Seq<int>>::empty());
        assert(strs_keys(out@) =~= Seq::<Seq<int>>::empty());
    }
    while rest.len() > 0
        invariant
            rest@.len() <= s.len(),
            strs_keys(rest@) == s.take(rest@.len() as int),
            strs_keys(out@) == dedup(s.skip(rest@.len() as int)),
            rest@.len() < s.len() ==> out@.len() > 0 && strs_keys(out@)[0] == s[rest@.len() as int],
        decreases rest.len(),
    {
        let ghost i = rest@.len() as int;
        let ghost before = strs_keys(out@);
        assert(s.skip(i - 1).drop_first() =~= s.skip(i));
        let x = rest.pop().unwrap();
        assert(strs_keys(rest@) =~= s.take(i - 1));
        assert(str_key(x@) == s[i - 1]) by {
            assert(s.take(i)[i - 1] == s[i - 1]);
        }
        let kx = str_key_of(x.as_str());
        let repeat = out.len() > 0 && key_eq(&kx, &str_key_of(out[0].as_str()));
        if repeat {
            assert(strs_keys(out@)[0] == str_key(out@[0]@));
        } else {
            out.insert(0, x);
            assert(strs_keys(out@) =~= seq![s[i - 1]] + before);
        }
    }
    assert(s.skip(0) =~= s);
    out
}

pub open spec fn rkeys(v: Seq<DataRewrite>) -> Seq<Seq<int>> {
    v.map_values(|r: DataRewrite| rewrite_key(r))
}

fn sort_rewrite_list(o: Option<Vec<DataRewrite>>) -> (r: Option<Vec<DataRewrite>>)
    ensures
        rewrites_key(r) == rewrites_key(o),
        rewrites_sorted(r),
{
    match o {
        Some(v) => {
            let ghost k = rkeys(v@);
            let sorted = sort_rewrites(v);
            proof {
                lemma_key_order_total();
                k.lemma_sort_by_ensures(key_order());
                lemma_sorted_is_sort_keys(rkeys(sorted@), rkeys(sorted@));
            }
            Some(sorted)
        },
        None => None,
    }
}

fn normalize_fetch(f: FetchNode) -> (r: FetchNode)
    ensures
        crate::key::fetch_key(r) == crate::key::fetch_key(f),
        fetch_in_normal_form(r),
{
    let FetchNode {
        service_name,
        requires: required,
        variable_usages,
        operation,
        operation_name,
        operation_kind,
        id,
        input_rewrites,
        output_rewrites,
        context_rewrites,
    } = f;
    let ghost vu = variable_usages@;
    let vs = dedup_strings(sort_strings(variable_usages));
    proof {
        lemma_sorted_set_idempotent(strs_keys(vu));
    }
    let r = FetchNode {
        service_name,
        requires: required,
        variable_usages: vs,
        operation,
        operation_name,
        operation_kind,
        id,
        input_rewrites: sort_rewrite_list(input_rewrites),
        output_rewrites: sort_rewrite_list(output_rewrites),
        context_rewrites: sort_rewrite_list(context_rewrites),
    };
    assert(crate::key::fetch_key(r) =~= crate::key::fetch_key(f));
    r
}


} // verus!
