//! Laws of plan matching, proved over the canonical keys.
use vstd::prelude::*;
use crate::compare::{fetch_differences, fetch_field_names, differing, FieldName};
use crate::key::{
    cat, deferred_key, deferred_keys, fetch_field_keys, lemma_deferred_keys_map, lemma_nodes_keys_map,
    list_key, node_key, nodes_keys, nodes_match, opt_node_key, rewrite_key, rewrites_key, str_key,
};
use crate::path::Path;
use crate::order::{lemma_key_order_total, lemma_sort_keys_multiset, key_order, sort_keys};
use crate::plan::{
    DataRewrite, DeferredNode, FetchNode, FlattenNode, PlanNode, Primary, SubscriptionNode,
};

verus! {

broadcast use vstd::multiset::group_multiset_axioms, vstd::seq_lib::group_to_multiset_ensures;

proof fn lemma_map_multiset<A, B>(s1: Seq<A>, s2: Seq<A>, f: spec_fn(A) -> B)
    requires
        s1.to_multiset() == s2.to_multiset(),
    ensures
        s1.map_values(f).to_multiset() == s2.map_values(f).to_multiset(),
    decreases s1.len(),
{
    vstd::seq_lib::to_multiset_len(s1);
    vstd::seq_lib::to_multiset_len(s2);
    if s1.len() == 0 {
        assert(s2.len() == 0);
        assert(s1.map_values(f) =~= s2.map_values(f));
    } else {
        let x = s1[0];
        vstd::seq_lib::to_multiset_contains(s1, x);
        vstd::seq_lib::to_multiset_contains(s2, x);
        assert(s1.contains(x));
        assert(s2.to_multiset().contains(x));
        let j = choose|j: int| 0 <= j < s2.len() && s2[j] == x;
        let t1 = s1.remove(0);
        let t2 = s2.remove(j);
        vstd::seq_lib::to_multiset_remove(s1, 0);
        vstd::seq_lib::to_multiset_remove(s2, j);
        lemma_map_multiset(t1, t2, f);
        let m1 = s1.map_values(f);
        let m2 = s2.map_values(f);
        assert(m1.remove(0) =~= t1.map_values(f));
        assert(m2.remove(j) =~= t2.map_values(f));
        vstd::seq_lib::to_multiset_remove(m1, 0);
        vstd::seq_lib::to_multiset_remove(m2, j);
        assert(m1.to_multiset().contains(f(x)));
        assert(m2.to_multiset().contains(f(x)));
        assert(m1.to_multiset() =~= m1.to_multiset().remove(f(x)).insert(f(x)));
        assert(m2.to_multiset() =~= m2.to_multiset().remove(f(x)).insert(f(x)));
    }
}

proof fn lemma_cat_injective(a: Seq<Seq<int>>, b: Seq<Seq<int>>)
    requires
        a.len() == b.len(),
        cat(a) == cat(b),
    ensures
        a == b,
    decreases a.len(),
{
    if a.len() > 0 {
        let n = a[0].len() as int;
        assert(cat(a)[0] == n);
        assert(cat(b)[0] == b[0].len());
        assert(a[0] =~= cat(a).subrange(1, n + 1));
        assert(b[0] =~= cat(b).subrange(1, n + 1));
        assert(cat(a.drop_first()) =~= cat(a).skip(n + 1));
        assert(cat(b.drop_first()) =~= cat(b).skip(n + 1));
        lemma_cat_injective(a.drop_first(), b.drop_first());
        assert(a =~= seq![a[0]] + a.drop_first());
        assert(b =~= seq![b[0]] + b.drop_first());
    } else {
        assert(a =~= b);
    }
}

/// Keys of lists, order kept, are equal only for equal lists.
pub proof fn lemma_list_key_injective(a: Seq<Seq<int>>, b: Seq<Seq<int>>)
    requires
        list_key(a) == list_key(b),
    ensures
        a == b,
{
    assert(list_key(a)[0] == a.len());
    assert(list_key(b)[0] == b.len());
    assert(cat(a) =~= list_key(a).drop_first());
    assert(cat(b) =~= list_key(b).drop_first());
    lemma_cat_injective(a, b);
}

/// Reflexivity: every plan matches itself.
pub proof fn lemma_match_reflexive(t: PlanNode)
    ensures
        nodes_match(t, t),
{
}

/// Permutation invariance: reordering the children of a parallel node
/// gives a plan that matches the plan before the reordering.
pub proof fn lemma_parallel_permutation(xs: Vec<PlanNode>, ys: Vec<PlanNode>)
    requires
        ys@.to_multiset() == xs@.to_multiset(),
    ensures
        nodes_match(PlanNode::Parallel { nodes: xs }, PlanNode::Parallel { nodes: ys }),
{
    lemma_nodes_keys_map(xs@);
    lemma_nodes_keys_map(ys@);
    lemma_map_multiset(xs@, ys@, |n: PlanNode| node_key(n));
    lemma_sort_keys_multiset(nodes_keys(xs@), nodes_keys(ys@));
}

/// Order sensitivity: two sequence nodes, one a reordering of the other,
/// match exactly when their children match position by position.
pub proof fn lemma_sequence_order(xs: Vec<PlanNode>, ys: Vec<PlanNode>)
    requires
        ys@.to_multiset() == xs@.to_multiset(),
    ensures
        nodes_match(PlanNode::Sequence { nodes: xs }, PlanNode::Sequence { nodes: ys }) <==> (forall|i: int|
            0 <= i < xs@.len() ==> nodes_match(#[trigger] xs@[i], ys@[i])),
{
    lemma_nodes_keys_map(xs@);
    lemma_nodes_keys_map(ys@);
    vstd::seq_lib::to_multiset_len(xs@);
    vstd::seq_lib::to_multiset_len(ys@);
    assert(xs@.len() == ys@.len());
    let a = PlanNode::Sequence { nodes: xs };
    let b = PlanNode::Sequence { nodes: ys };
    if nodes_match(a, b) {
        assert(list_key(nodes_keys(xs@)) =~= node_key(a).drop_first());
        assert(list_key(nodes_keys(ys@)) =~= node_key(b).drop_first());
        lemma_list_key_injective(nodes_keys(xs@), nodes_keys(ys@));
        assert forall|i: int| 0 <= i < xs@.len() implies nodes_match(#[trigger] xs@[i], ys@[i]) by {
            assert(nodes_keys(xs@)[i] == nodes_keys(ys@)[i]);
        }
    }
    if forall|i: int| 0 <= i < xs@.len() ==> nodes_match(#[trigger] xs@[i], ys@[i]) {
        assert(nodes_keys(xs@) =~= nodes_keys(ys@));
    }
}

/// Parallel children that match position by position give matching
/// parallel nodes; with the permutation law, a reordering nested anywhere
/// below matching parents still matches.
pub proof fn lemma_parallel_congruence(xs: Vec<PlanNode>, ys: Vec<PlanNode>)
    requires
        xs@.len() == ys@.len(),
        forall|i: int| 0 <= i < xs@.len() ==> nodes_match(#[trigger] xs@[i], ys@[i]),
    ensures
        nodes_match(PlanNode::Parallel { nodes: xs }, PlanNode::Parallel { nodes: ys }),
{
    lemma_nodes_keys_map(xs@);
    lemma_nodes_keys_map(ys@);
    assert(nodes_keys(xs@) =~= nodes_keys(ys@));
}

/// A flatten node whose child is replaced by a matching one still matches.
pub proof fn lemma_flatten_congruence(p: Path, x: PlanNode, y: PlanNode)
    requires
        nodes_match(x, y),
    ensures
        nodes_match(
            PlanNode::Flatten(FlattenNode { path: p, node: Box::new(x) }),
            PlanNode::Flatten(FlattenNode { path: p, node: Box::new(y) }),
        ),
{
}

/// A condition node whose branches are replaced by matching ones still matches.
pub proof fn lemma_condition_congruence(c: String, i1: Option<Box<PlanNode>>, i2: Option<Box<PlanNode>>, e1: Option<Box<PlanNode>>, e2: Option<Box<PlanNode>>)
    requires
        opt_node_key(i1) == opt_node_key(i2),
        opt_node_key(e1) == opt_node_key(e2),
    ensures
        nodes_match(
            PlanNode::Condition { condition: c, if_clause: i1, else_clause: e1 },
            PlanNode::Condition { condition: c, if_clause: i2, else_clause: e2 },
        ),
{
}

/// A subscription node whose rest is replaced by a matching one still matches.
pub proof fn lemma_subscription_congruence(s: SubscriptionNode, r1: Option<Box<PlanNode>>, r2: Option<Box<PlanNode>>)
    requires
        opt_node_key(r1) == opt_node_key(r2),
    ensures
        nodes_match(
            PlanNode::Subscription { primary: s, rest: r1 },
            PlanNode::Subscription { primary: s, rest: r2 },
        ),
{
}

/// A defer node whose primary plan is replaced by a matching one still matches.
pub proof fn lemma_defer_congruence(sub: Option<String>, p1: Option<Box<PlanNode>>, p2: Option<Box<PlanNode>>, deferred: Vec<DeferredNode>)
    requires
        opt_node_key(p1) == opt_node_key(p2),
    ensures
        nodes_match(
            PlanNode::Defer { primary: Primary { subselection: sub, node: p1 }, deferred },
            PlanNode::Defer { primary: Primary { subselection: sub, node: p2 }, deferred },
        ),
{
}

/// Rewrite-order independence: fetches that differ only in the listed order
/// of their output rewrites match, with no differing field.
pub proof fn lemma_rewrite_order(a: FetchNode, b: FetchNode, x: Vec<DataRewrite>, y: Vec<DataRewrite>)
    requires
        a.service_name@ == b.service_name@,
        a.operation_kind == b.operation_kind,
        a.operation_name == b.operation_name,
        a.variable_usages == b.variable_usages,
        a.requires == b.requires,
        a.operation == b.operation,
        a.input_rewrites == b.input_rewrites,
        a.context_rewrites == b.context_rewrites,
        a.output_rewrites == Some(x),
        b.output_rewrites == Some(y),
        y@.to_multiset() == x@.to_multiset(),
    ensures
        fetch_differences(a, b) == Seq::<FieldName>::empty(),
        nodes_match(PlanNode::Fetch(a), PlanNode::Fetch(b)),
{
    lemma_map_multiset(x@, y@, |r: DataRewrite| rewrite_key(r));
    lemma_sort_keys_multiset(x@.map_values(|r: DataRewrite| rewrite_key(r)), y@.map_values(|r: DataRewrite| rewrite_key(r)));
    assert(rewrites_key(a.output_rewrites) == rewrites_key(b.output_rewrites));
    assert(fetch_field_keys(a) =~= fetch_field_keys(b));
    reveal_with_fuel(differing, 10);
}

proof fn lemma_rewrites_len(v: Vec<DataRewrite>)
    ensures
        rewrites_key(Some(v))[0] == v@.len(),
{
    lemma_key_order_total();
    let k = v@.map_values(|r: DataRewrite| rewrite_key(r));
    k.lemma_sort_by_ensures(key_order());
    vstd::seq_lib::to_multiset_len(k);
    vstd::seq_lib::to_multiset_len(sort_keys(k));
}

proof fn lemma_fetch_node_key(f: FetchNode)
    ensures
        node_key(PlanNode::Fetch(f)) == fetch_prefix(f) + fetch_field_keys(f)[7] + fetch_field_keys(f)[8],
{
    let k = fetch_field_keys(f);
    assert(node_key(PlanNode::Fetch(f)) =~= fetch_prefix(f) + k[7] + k[8]);
}

spec fn fetch_prefix(f: FetchNode) -> Seq<int> {
    let k = fetch_field_keys(f);
    seq![3] + k[0] + k[1] + k[2] + k[3] + k[4] + k[5] + k[6]
}

proof fn lemma_differing_only_output(fa: Seq<Seq<int>>, fb: Seq<Seq<int>>)
    requires
        fa.len() == 9 && fb.len() == 9,
        fa[7] != fb[7],
        forall|i: int| 0 <= i < 9 && i != 7 ==> fa[i] == fb[i],
    ensures
        differing(fa, fb, 9) == seq![FieldName::OutputRewrites],
{
    reveal_with_fuel(differing, 10);
    assert(differing(fa, fb, 7) == Seq::<FieldName>::empty());
    assert(differing(fa, fb, 9) =~= seq![FieldName::OutputRewrites]);
}

/// An extra key renamer among the output rewrites shows as exactly one
/// differing field: the output rewrites.
pub proof fn lemma_extra_rewrite(a: FetchNode, b: FetchNode, x: Vec<DataRewrite>, y: Vec<DataRewrite>)
    requires
        a.service_name@ == b.service_name@,
        a.operation_kind == b.operation_kind,
        a.operation_name == b.operation_name,
        a.variable_usages == b.variable_usages,
        a.requires == b.requires,
        a.operation == b.operation,
        a.input_rewrites == b.input_rewrites,
        a.context_rewrites == b.context_rewrites,
        a.output_rewrites == Some(x),
        b.output_rewrites == Some(y),
        y@.len() == x@.len() + 1,
        y@.drop_last() == x@,
        y@.last() is KeyRenamer,
    ensures
        fetch_differences(a, b) == seq![FieldName::OutputRewrites],
        !nodes_match(PlanNode::Fetch(a), PlanNode::Fetch(b)),
{
    lemma_rewrites_len(x);
    lemma_rewrites_len(y);
    let fa = fetch_field_keys(a);
    let fb = fetch_field_keys(b);
    assert(fa[7][0] != fb[7][0]);
    assert(forall|i: int| 0 <= i < 9 && i != 7 ==> fa[i] == fb[i]);
    lemma_differing_only_output(fa, fb);
    lemma_fetch_node_key(a);
    lemma_fetch_node_key(b);
    let na = node_key(PlanNode::Fetch(a));
    let nb = node_key(PlanNode::Fetch(b));
    let pre = fetch_prefix(a);
    assert(pre == fetch_prefix(b));
    assert(na[pre.len() as int] == fa[7][0]);
    assert(nb[pre.len() as int] == fb[7][0]);
}

proof fn lemma_str_key_injective(s: Seq<char>, t: Seq<char>)
    requires
        str_key(s) == str_key(t),
    ensures
        s == t,
{
    assert(str_key(s)[0] == s.len());
    assert(str_key(t)[0] == t.len());
    assert forall|i: int| 0 <= i < s.len() implies s[i] == t[i] by {
        assert(str_key(s)[i + 1] == str_key(t)[i + 1]);
        assert(str_key(s)[i + 1] == s[i] as int);
        assert(str_key(t)[i + 1] == t[i] as int);
    }
    assert(s =~= t);
}

proof fn lemma_differing_keeps(a: Seq<Seq<int>>, b: Seq<Seq<int>>, n: int, i: int)
    requires
        0 <= i < n <= a.len(),
        n <= b.len(),
        n <= 9,
        a[i] != b[i],
    ensures
        differing(a, b, n).contains(fetch_field_names()[i]),
    decreases n,
{
    if i < n - 1 {
        lemma_differing_keeps(a, b, n - 1, i);
        let d = differing(a, b, n - 1);
        let k = choose|k: int| 0 <= k < d.len() && d[k] == fetch_field_names()[i];
        if a[n - 1] != b[n - 1] {
            assert(differing(a, b, n)[k] == d[k]);
        }
    } else {
        assert(differing(a, b, n).last() == fetch_field_names()[i]);
    }
}

/// Fetches of different services differ in `service_name`, and so do not
/// match; in a mismatch report the divergence sits at the fetches' place.
pub proof fn lemma_service_name_difference(a: FetchNode, b: FetchNode)
    requires
        a.service_name@ != b.service_name@,
    ensures
        fetch_differences(a, b).contains(FieldName::ServiceName),
        !nodes_match(PlanNode::Fetch(a), PlanNode::Fetch(b)),
{
    if str_key(a.service_name@) == str_key(b.service_name@) {
        lemma_str_key_injective(a.service_name@, b.service_name@);
    }
    lemma_differing_keeps(fetch_field_keys(a), fetch_field_keys(b), 9, 0);
    let ka = node_key(PlanNode::Fetch(a));
    let kb = node_key(PlanNode::Fetch(b));
    if ka == kb {
        let n = a.service_name@.len();
        assert(ka[1] == n as int);
        assert(kb[1] == b.service_name@.len() as int);
        assert forall|i: int| 0 <= i < n implies a.service_name@[i] == b.service_name@[i] by {
            assert(ka[i + 2] == kb[i + 2]);
        }
        assert(a.service_name@ =~= b.service_name@);
    }
}

/// Sequence children that match position by position give matching
/// sequence nodes.
pub proof fn lemma_sequence_congruence(xs: Vec<PlanNode>, ys: Vec<PlanNode>)
    requires
        xs@.len() == ys@.len(),
        forall|i: int| 0 <= i < xs@.len() ==> nodes_match(#[trigger] xs@[i], ys@[i]),
    ensures
        nodes_match(PlanNode::Sequence { nodes: xs }, PlanNode::Sequence { nodes: ys }),
{
    lemma_nodes_keys_map(xs@);
    lemma_nodes_keys_map(ys@);
    assert(nodes_keys(xs@) =~= nodes_keys(ys@));
}

/// A deferred block whose plan is replaced by a matching one keeps its key.
pub proof fn lemma_deferred_block_congruence(d: DeferredNode, e: DeferredNode)
    requires
        d.depends == e.depends,
        d.label == e.label,
        d.query_path == e.query_path,
        d.subselection == e.subselection,
        opt_node_key(d.node) == opt_node_key(e.node),
    ensures
        deferred_key(d) == deferred_key(e),
{
}

/// Deferred blocks whose keys agree position by position give matching
/// defer nodes.
pub proof fn lemma_deferred_congruence(p: Primary, xs: Vec<DeferredNode>, ys: Vec<DeferredNode>)
    requires
        xs@.len() == ys@.len(),
        forall|i: int| 0 <= i < xs@.len() ==> deferred_key(#[trigger] xs@[i]) == deferred_key(ys@[i]),
    ensures
        nodes_match(PlanNode::Defer { primary: p, deferred: xs }, PlanNode::Defer { primary: p, deferred: ys }),
{
    lemma_deferred_keys_map(xs@);
    lemma_deferred_keys_map(ys@);
    assert(deferred_keys(xs@) =~= deferred_keys(ys@));
}

} // verus!
