//! Canonical keys: a token sequence for each plan value; two plans are
//! equivalent exactly when their keys are equal. Order-insensitive parts
//! (parallel children, variable usages, rewrites, deferred blocks, type
//! conditions, dependency ids) enter their key sorted, sets also without
//! repeats; absent and empty lists are alike; operation texts enter as the
//! GraphQL printer reprints them; fetch ids are left out. Each string and
//! each list member is preceded by its length, so keys never run together.
use vstd::prelude::*;
use crate::order::{append_key, dedup, dedup_keys, ints, kv, push_tok, sort_keys, sort_vec_keys};
use crate::path::{ElemModel, Path, PathElement};
use crate::operation::{normalize_operation, operation_text};
use crate::plan::{
    DataRewrite, DeferredNode, FetchNode, OperationKind, PlanNode, Selection, SubscriptionNode,
};

verus! {

broadcast use vstd::seq::axiom_seq_index_decreases, vstd::std_specs::vec::axiom_vec_decreases_to_view,
    vstd::std_specs::vec::axiom_vec_index_decreases;

/// A key preceded by its length, so that keys can stand side by side.
pub open spec fn seg(k: Seq<int>) -> Seq<int> {
    seq![k.len() as int] + k
}

pub open spec fn cat(ks: Seq<Seq<int>>) -> Seq<int>
    decreases ks.len(),
{
    if ks.len() == 0 {
        Seq::<int>::empty()
    } else {
        seg(ks[0]) + cat(ks.drop_first())
    }
}

/// The key of a list of keys, order kept.
pub open spec fn list_key(ks: Seq<Seq<int>>) -> Seq<int> {
    seq![ks.len() as int] + cat(ks)
}

pub open spec fn str_key(s: Seq<char>) -> Seq<int> {
    seq![s.len() as int] + s.map_values(|c: char| c as int)
}

pub open spec fn opt_str_key(o: Option<String>) -> Seq<int> {
    match o {
        Some(s) => seq![1] + str_key(s@),
        None => seq![0],
    }
}

pub open spec fn strs_keys(v: Seq<String>) -> Seq<Seq<int>> {
    v.map_values(|s: String| str_key(s@))
}

/// Type conditions as a set: absent and empty are alike.
pub open spec fn conds_key(c: Option<Seq<Seq<char>>>) -> Seq<int> {
    match c {
        Some(names) => list_key(dedup(sort_keys(names.map_values(|n: Seq<char>| str_key(n))))),
        None => list_key(Seq::<Seq<int>>::empty()),
    }
}

pub open spec fn elem_key(e: ElemModel) -> Seq<int> {
    match e {
        ElemModel::Flatten(c) => seq![0] + conds_key(c),
        ElemModel::Index(n) => seq![1, n as int],
        ElemModel::Fragment(t) => seq![2] + str_key(t),
        ElemModel::Key(k, c) => seq![3] + str_key(k) + conds_key(c),
    }
}

pub open spec fn path_key(p: Seq<ElemModel>) -> Seq<int> {
    list_key(p.map_values(|e: ElemModel| elem_key(e)))
}

pub open spec fn kind_token(k: OperationKind) -> int {
    match k {
        OperationKind::Query => 0,
        OperationKind::Mutation => 1,
        OperationKind::Subscription => 2,
    }
}

pub open spec fn rewrite_key(r: DataRewrite) -> Seq<int> {
    match r {
        DataRewrite::ValueSetter(v) => path_key(v.path@) + seq![0] + str_key(v.set_value_to@),
        DataRewrite::KeyRenamer(k) => path_key(k.path@) + seq![1] + str_key(k.rename_key_to@),
    }
}

/// A rewrite list as a multiset: absent and empty are alike.
pub open spec fn rewrites_key(o: Option<Vec<DataRewrite>>) -> Seq<int> {
    match o {
        Some(v) => list_key(sort_keys(v@.map_values(|r: DataRewrite| rewrite_key(r)))),
        None => list_key(Seq::<Seq<int>>::empty()),
    }
}

pub open spec fn selection_key(s: Selection) -> Seq<int>
    decreases s,
{
    match s {
        Selection::Field(f) => seq![0] + opt_str_key(f.alias) + str_key(f.name@) + match f.selections {
            Some(v) => seq![1] + list_key(selections_keys(v@)),
            None => seq![0],
        },
        Selection::InlineFragment(i) => seq![1] + opt_str_key(i.type_condition) + list_key(
            selections_keys(i.selections@),
        ),
    }
}

pub open spec fn selections_keys(s: Seq<Selection>) -> Seq<Seq<int>>
    decreases s,
{
    if s.len() == 0 {
        Seq::<Seq<int>>::empty()
    } else {
        seq![selection_key(s[0])] + selections_keys(s.drop_first())
    }
}

pub open spec fn fetch_key(f: FetchNode) -> Seq<int> {
    str_key(f.service_name@)
        + seq![kind_token(f.operation_kind)]
        + opt_str_key(f.operation_name)
        + list_key(dedup(sort_keys(strs_keys(f.variable_usages@))))
        + list_key(selections_keys(f.requires@))
        + str_key(operation_text(f.operation.text()))
        + rewrites_key(f.input_rewrites)
        + rewrites_key(f.output_rewrites)
        + rewrites_key(f.context_rewrites)
}

pub open spec fn subscription_key(s: SubscriptionNode) -> Seq<int> {
    str_key(s.service_name@)
        + seq![kind_token(s.operation_kind)]
        + opt_str_key(s.operation_name)
        + list_key(dedup(sort_keys(strs_keys(s.variable_usages@))))
        + str_key(operation_text(s.operation.text()))
        + rewrites_key(s.input_rewrites)
        + rewrites_key(s.output_rewrites)
}

/// The canonical key of a plan node: equal keys, equivalent plans.
pub open spec fn node_key(n: PlanNode) -> Seq<int>
    decreases n,
{
    match n {
        PlanNode::Sequence { nodes } => seq![1] + list_key(nodes_keys(nodes@)),
        PlanNode::Parallel { nodes } => seq![2] + list_key(sort_keys(nodes_keys(nodes@))),
        PlanNode::Fetch(f) => seq![3] + fetch_key(f),
        PlanNode::Flatten(f) => seq![4] + path_key(f.path@) + node_key(*f.node),
        PlanNode::Defer { primary, deferred } => seq![5] + opt_str_key(primary.subselection)
            + opt_node_key(primary.node) + list_key(sort_keys(deferred_keys(deferred@))),
        PlanNode::Subscription { primary, rest } => seq![6] + subscription_key(primary)
            + opt_node_key(rest),
        PlanNode::Condition { condition, if_clause, else_clause } => seq![7] + str_key(condition@)
            + opt_node_key(if_clause) + opt_node_key(else_clause),
    }
}

pub open spec fn opt_node_key(o: Option<Box<PlanNode>>) -> Seq<int>
    decreases o,
{
    match o {
        Some(b) => seq![1] + node_key(*b),
        None => seq![0],
    }
}

pub open spec fn nodes_keys(s: Seq<PlanNode>) -> Seq<Seq<int>>
    decreases s,
{
    if s.len() == 0 {
        Seq::<Seq<int>>::empty()
    } else {
        seq![node_key(s[0])] + nodes_keys(s.drop_first())
    }
}

pub open spec fn deferred_key(d: DeferredNode) -> Seq<int>
    decreases d,
{
    path_key(d.query_path@)
        + list_key(dedup(sort_keys(d.depends@.map_values(|x: crate::plan::Depends| str_key(x.id@)))))
        + opt_str_key(d.label)
        + opt_str_key(d.subselection)
        + opt_node_key(d.node)
}

pub open spec fn deferred_keys(s: Seq<DeferredNode>) -> Seq<Seq<int>>
    decreases s,
{
    if s.len() == 0 {
        Seq::<Seq<int>>::empty()
    } else {
        seq![deferred_key(s[0])] + deferred_keys(s.drop_first())
    }
}

/// Two plan nodes match when their canonical keys are equal.
pub open spec fn nodes_match(a: PlanNode, b: PlanNode) -> bool {
    node_key(a) == node_key(b)
}

proof fn lemma_cat_push(ks: Seq<Seq<int>>, k: Seq<int>)
    ensures
        cat(ks.push(k)) == cat(ks) + seg(k),
    decreases ks.len(),
{
    if ks.len() == 0 {
        assert(ks.push(k).drop_first() =~= Seq::<Seq<int>>::empty());
        assert(cat(Seq::<Seq<int>>::empty()) == Seq::<int>::empty());
        assert(cat(ks) == Seq::<int>::empty());
        assert(cat(ks.push(k)) =~= cat(ks) + seg(k));
    } else {
        lemma_cat_push(ks.drop_first(), k);
        assert(ks.push(k).drop_first() =~= ks.drop_first().push(k));
        assert(cat(ks.push(k)) =~= cat(ks) + seg(k));
    }
}

pub proof fn lemma_nodes_keys_map(s: Seq<PlanNode>)
    ensures
        nodes_keys(s) == s.map_values(|n: PlanNode| node_key(n)),
    decreases s.len(),
{
    if s.len() > 0 {
        lemma_nodes_keys_map(s.drop_first());
    }
    assert(nodes_keys(s) =~= s.map_values(|n: PlanNode| node_key(n)));
}

proof fn lemma_selections_keys_map(s: Seq<Selection>)
    ensures
        selections_keys(s) == s.map_values(|n: Selection| selection_key(n)),
    decreases s.len(),
{
    if s.len() > 0 {
        lemma_selections_keys_map(s.drop_first());
    }
    assert(selections_keys(s) =~= s.map_values(|n: Selection| selection_key(n)));
}

pub proof fn lemma_deferred_keys_map(s: Seq<DeferredNode>)
    ensures
        deferred_keys(s) == s.map_values(|n: DeferredNode| deferred_key(n)),
    decreases s.len(),
{
    if s.len() > 0 {
        lemma_deferred_keys_map(s.drop_first());
    }
    assert(deferred_keys(s) =~= s.map_values(|n: DeferredNode| deferred_key(n)));
}

fn write_list_key(k: &mut Vec<u64>, ks: &Vec<Vec<u64>>)
    ensures
        ints(final(k)@) == ints(old(k)@) + list_key(kv(ks@)),
{
    push_tok(k, ks.len() as u64);
    let mut i: usize = 0;
    while i < ks.len()
        invariant
            i <= ks.len(),
            ints(k@) == ints(old(k)@) + seq![ks@.len() as int] + cat(kv(ks@).take(i as int)),
        decreases ks.len() - i,
    {
        push_tok(k, ks[i].len() as u64);
        append_key(k, &ks[i]);
        proof {
            lemma_cat_push(kv(ks@).take(i as int), ints(ks@[i as int]@));
            assert(kv(ks@).take(i + 1) =~= kv(ks@).take(i as int).push(ints(ks@[i as int]@)));
            assert(ints(k@) =~= ints(old(k)@) + seq![ks@.len() as int] + cat(kv(ks@).take(i + 1)));
        }
        i = i + 1;
    }
    assert(kv(ks@).take(i as int) =~= kv(ks@));
    assert(ints(k@) =~= ints(old(k)@) + list_key(kv(ks@)));
}

fn write_str_key(k: &mut Vec<u64>, s: &str)
    ensures
        ints(final(k)@) == ints(old(k)@) + str_key(s@),
{
    let n = s.unicode_len();
    push_tok(k, n as u64);
    let mut i: usize = 0;
    while i < n
        invariant
            n == s@.len(),
            i <= n,
            ints(k@) == ints(old(k)@) + seq![n as int] + s@.take(i as int).map_values(|c: char| c as int),
        decreases n - i,
    {
        let c = s.get_char(i);
        push_tok(k, c as u32 as u64);
        assert(s@.take(i + 1).map_values(|c: char| c as int) =~= s@.take(i as int).map_values(|c: char| c as int).push(c as int));
        i = i + 1;
    }
    assert(s@.take(n as int) =~= s@);
    assert(ints(k@) =~= ints(old(k)@) + str_key(s@));
}

pub fn write_opt_str_key(k: &mut Vec<u64>, o: &Option<String>)
    ensures
        ints(final(k)@) == ints(old(k)@) + opt_str_key(*o),
{
    match o {
        Some(s) => {
            push_tok(k, 1);
            write_str_key(k, s.as_str());
            assert(ints(final(k)@) =~= ints(old(k)@) + opt_str_key(*o));
        },
        None => {
            push_tok(k, 0);
        },
    }
}

pub fn str_key_of(s: &str) -> (r: Vec<u64>)
    ensures
        ints(r@) == str_key(s@),
{
    let mut r: Vec<u64> = Vec::new();
    write_str_key(&mut r, s);
    assert(ints(r@) =~= str_key(s@));
    r
}

fn strs_key_vec(v: &Vec<String>) -> (r: Vec<Vec<u64>>)
    ensures
        kv(r@) == strs_keys(v@),
{
    let mut r: Vec<Vec<u64>> = Vec::new();
    let mut i: usize = 0;
    while i < v.len()
        invariant
            i <= v.len(),
            kv(r@) == strs_keys(v@.take(i as int)),
        decreases v.len() - i,
    {
        let ghost before = kv(r@);
        let item = str_key_of(v[i].as_str());
        r.push(item);
        assert(kv(r@) =~= before.push(ints(item@)));
        assert(v@.take(i + 1) =~= v@.take(i as int).push(v@[i as int]));
        assert(kv(r@) =~= strs_keys(v@.take(i + 1)));
        i = i + 1;
    }
    assert(v@.take(i as int) =~= v@);
    r
}

/// Appends the key of a set of strings.
fn write_str_set_key(k: &mut Vec<u64>, v: &Vec<String>)
    ensures
        ints(final(k)@) == ints(old(k)@) + list_key(dedup(sort_keys(strs_keys(v@)))),
{
    let ks = dedup_keys(sort_vec_keys(strs_key_vec(v)));
    write_list_key(k, &ks);
}

fn write_conds_key(k: &mut Vec<u64>, c: &Option<Vec<String>>)
    ensures
        ints(final(k)@) == ints(old(k)@) + conds_key(crate::path::conds_view(*c)),
{
    match c {
        Some(v) => {
            write_str_set_key(k, v);
            assert(v@.map_values(|x: String| x@).map_values(|n: Seq<char>| str_key(n)) =~= strs_keys(v@));
        },
        None => {
            let e: Vec<Vec<u64>> = Vec::new();
            assert(kv(e@) =~= Seq::<Seq<int>>::empty());
            write_list_key(k, &e);
        },
    }
}

fn elem_key_of(e: &PathElement) -> (r: Vec<u64>)
    ensures
        ints(r@) == elem_key(e@),
{
    let mut k: Vec<u64> = Vec::new();
    match e {
        PathElement::Flatten(c) => {
            push_tok(&mut k, 0);
            write_conds_key(&mut k, c);
        },
        PathElement::Index(n) => {
            push_tok(&mut k, 1);
            push_tok(&mut k, *n as u64);
        },
        PathElement::Fragment(t) => {
            push_tok(&mut k, 2);
            write_str_key(&mut k, t.as_str());
        },
        PathElement::Key(name, c) => {
            push_tok(&mut k, 3);
            write_str_key(&mut k, name.as_str());
            write_conds_key(&mut k, c);
        },
    }
    assert(ints(k@) =~= elem_key(e@));
    k
}

pub fn write_path_key(k: &mut Vec<u64>, p: &Path)
    ensures
        ints(final(k)@) == ints(old(k)@) + path_key(p@),
{
    let mut ks: Vec<Vec<u64>> = Vec::new();
    let mut i: usize = 0;
    while i < p.0.len()
        invariant
            i <= p.0.len(),
            kv(ks@) == p@.take(i as int).map_values(|e: ElemModel| elem_key(e)),
        decreases p.0.len() - i,
    {
        let ghost before = kv(ks@);
        let item = elem_key_of(&p.0[i]);
        ks.push(item);
        assert(kv(ks@) =~= before.push(ints(item@)));
        assert(p@.take(i + 1) =~= p@.take(i as int).push(p@[i as int]));
        assert(kv(ks@) =~= p@.take(i + 1).map_values(|e: ElemModel| elem_key(e)));
        i = i + 1;
    }
    assert(p@.take(i as int) =~= p@);
    write_list_key(k, &ks);
}

pub fn rewrite_key_of(r: &DataRewrite) -> (out: Vec<u64>)
    ensures
        ints(out@) == rewrite_key(*r),
{
    let mut k: Vec<u64> = Vec::new();
    match r {
        DataRewrite::ValueSetter(v) => {
            write_path_key(&mut k, &v.path);
            push_tok(&mut k, 0);
            write_str_key(&mut k, v.set_value_to.as_str());
        },
        DataRewrite::KeyRenamer(n) => {
            write_path_key(&mut k, &n.path);
            push_tok(&mut k, 1);
            write_str_key(&mut k, n.rename_key_to.as_str());
        },
    }
    assert(ints(k@) =~= rewrite_key(*r));
    k
}

fn write_rewrites_key(k: &mut Vec<u64>, o: &Option<Vec<DataRewrite>>)
    ensures
        ints(final(k)@) == ints(old(k)@) + rewrites_key(*o),
{
    match o {
        Some(v) => {
            let mut ks: Vec<Vec<u64>> = Vec::new();
            let mut i: usize = 0;
            while i < v.len()
                invariant
                    i <= v.len(),
                    kv(ks@) == v@.take(i as int).map_values(|r: DataRewrite| rewrite_key(r)),
                decreases v.len() - i,
            {
                let ghost before = kv(ks@);
                let item = rewrite_key_of(&v[i]);
                ks.push(item);
                assert(kv(ks@) =~= before.push(ints(item@)));
                assert(v@.take(i + 1) =~= v@.take(i as int).push(v@[i as int]));
                assert(kv(ks@) =~= v@.take(i + 1).map_values(|r: DataRewrite| rewrite_key(r)));
                i = i + 1;
            }
            assert(v@.take(i as int) =~= v@);
            let sorted = sort_vec_keys(ks);
            write_list_key(k, &sorted);
        },
        None => {
            let e: Vec<Vec<u64>> = Vec::new();
            assert(kv(e@) =~= Seq::<Seq<int>>::empty());
            write_list_key(k, &e);
        },
    }
}

fn selection_key_of(s: &Selection) -> (r: Vec<u64>)
    ensures
        ints(r@) == selection_key(*s),
    decreases s,
{
    let mut k: Vec<u64> = Vec::new();
    match s {
        Selection::Field(f) => {
            push_tok(&mut k, 0);
            write_opt_str_key(&mut k, &f.alias);
            write_str_key(&mut k, f.name.as_str());
            match &f.selections {
                Some(v) => {
                    push_tok(&mut k, 1);
                    let ks = selections_key_vec(v);
                    write_list_key(&mut k, &ks);
                },
                None => {
                    push_tok(&mut k, 0);
                },
            }
        },
        Selection::InlineFragment(i) => {
            push_tok(&mut k, 1);
            write_opt_str_key(&mut k, &i.type_condition);
            let ks = selections_key_vec(&i.selections);
            write_list_key(&mut k, &ks);
        },
    }
    assert(ints(k@) =~= selection_key(*s));
    k
}

fn selections_key_vec(v: &Vec<Selection>) -> (r: Vec<Vec<u64>>)
    ensures
        kv(r@) == selections_keys(v@),
    decreases v,
{
    let mut r: Vec<Vec<u64>> = Vec::new();
    let mut i: usize = 0;
    while i < v.len()
        invariant
            i <= v.len(),
            kv(r@) == v@.take(i as int).map_values(|n: Selection| selection_key(n)),
        decreases v.len() - i,
    {
        let ghost before = kv(r@);
        let item = selection_key_of(&v[i]);
        r.push(item);
        assert(kv(r@) =~= before.push(ints(item@)));
        assert(v@.take(i + 1) =~= v@.take(i as int).push(v@[i as int]));
        assert(kv(r@) =~= v@.take(i + 1).map_values(|n: Selection| selection_key(n)));
        i = i + 1;
    }
    proof {
        assert(v@.take(i as int) =~= v@);
        lemma_selections_keys_map(v@);
    }
    r
}

fn write_fetch_key(k: &mut Vec<u64>, f: &FetchNode)
    ensures
        ints(final(k)@) == ints(old(k)@) + fetch_key(*f),
{
    write_str_key(k, f.service_name.as_str());
    push_tok(k, kind_tok(f.operation_kind));
    write_opt_str_key(k, &f.operation_name);
    write_str_set_key(k, &f.variable_usages);
    let req = selections_key_vec(&f.requires);
    write_list_key(k, &req);
    let op = normalize_operation(f.operation.as_serialized());
    write_str_key(k, op.as_str());
    write_rewrites_key(k, &f.input_rewrites);
    write_rewrites_key(k, &f.output_rewrites);
    write_rewrites_key(k, &f.context_rewrites);
    assert(ints(final(k)@) =~= ints(old(k)@) + fetch_key(*f));
}

pub fn write_subscription_key(k: &mut Vec<u64>, s: &SubscriptionNode)
    ensures
        ints(final(k)@) == ints(old(k)@) + subscription_key(*s),
{
    write_str_key(k, s.service_name.as_str());
    push_tok(k, kind_tok(s.operation_kind));
    write_opt_str_key(k, &s.operation_name);
    write_str_set_key(k, &s.variable_usages);
    let op = normalize_operation(s.operation.as_serialized());
    write_str_key(k, op.as_str());
    write_rewrites_key(k, &s.input_rewrites);
    write_rewrites_key(k, &s.output_rewrites);
    assert(ints(final(k)@) =~= ints(old(k)@) + subscription_key(*s));
}

fn kind_tok(kind: OperationKind) -> (r: u64)
    ensures
        r as int == kind_token(kind),
{
    match kind {
        OperationKind::Query => 0,
        OperationKind::Mutation => 1,
        OperationKind::Subscription => 2,
    }
}

/// The canonical key of a plan node.
pub fn node_key_of(n: &PlanNode) -> (r: Vec<u64>)
    ensures
        ints(r@) == node_key(*n),
    decreases n,
{
    let mut k: Vec<u64> = Vec::new();
    match n {
        PlanNode::Sequence { nodes } => {
            push_tok(&mut k, 1);
            let ks = nodes_key_vec(nodes);
            write_list_key(&mut k, &ks);
        },
        PlanNode::Parallel { nodes } => {
            push_tok(&mut k, 2);
            let ks = sort_vec_keys(nodes_key_vec(nodes));
            write_list_key(&mut k, &ks);
        },
        PlanNode::Fetch(f) => {
            push_tok(&mut k, 3);
            write_fetch_key(&mut k, f);
        },
        PlanNode::Flatten(f) => {
            push_tok(&mut k, 4);
            write_path_key(&mut k, &f.path);
            let c = node_key_of(&f.node);
            append_key(&mut k, &c);
        },
        PlanNode::Defer { primary, deferred } => {
            push_tok(&mut k, 5);
            write_opt_str_key(&mut k, &primary.subselection);
            write_opt_node_key(&mut k, &primary.node);
            let ks = sort_vec_keys(deferred_key_vec(deferred));
            write_list_key(&mut k, &ks);
        },
        PlanNode::Subscription { primary, rest } => {
            push_tok(&mut k, 6);
            write_subscription_key(&mut k, primary);
            write_opt_node_key(&mut k, rest);
        },
        PlanNode::Condition { condition, if_clause, else_clause } => {
            push_tok(&mut k, 7);
            write_str_key(&mut k, condition.as_str());
            write_opt_node_key(&mut k, if_clause);
            write_opt_node_key(&mut k, else_clause);
        },
    }
    assert(ints(k@) =~= node_key(*n));
    k
}

fn write_opt_node_key(k: &mut Vec<u64>, o: &Option<Box<PlanNode>>)
    ensures
        ints(final(k)@) == ints(old(k)@) + opt_node_key(*o),
    decreases o,
{
    match o {
        Some(b) => {
            push_tok(k, 1);
            let c = node_key_of(b);
            append_key(k, &c);
            assert(ints(final(k)@) =~= ints(old(k)@) + opt_node_key(*o));
        },
        None => {
            push_tok(k, 0);
        },
    }
}

fn nodes_key_vec(v: &Vec<PlanNode>) -> (r: Vec<Vec<u64>>)
    ensures
        kv(r@) == nodes_keys(v@),
    decreases v,
{
    let mut r: Vec<Vec<u64>> = Vec::new();
    let mut i: usize = 0;
    while i < v.len()
        invariant
            i <= v.len(),
            kv(r@) == v@.take(i as int).map_values(|n: PlanNode| node_key(n)),
        decreases v.len() - i,
    {
        let ghost before = kv(r@);
        let item = node_key_of(&v[i]);
        r.push(item);
        assert(kv(r@) =~= before.push(ints(item@)));
        assert(v@.take(i + 1) =~= v@.take(i as int).push(v@[i as int]));
        assert(kv(r@) =~= v@.take(i + 1).map_values(|n: PlanNode| node_key(n)));
        i = i + 1;
    }
    proof {
        assert(v@.take(i as int) =~= v@);
        lemma_nodes_keys_map(v@);
    }
    r
}

pub fn deferred_key_of(d: &DeferredNode) -> (r: Vec<u64>)
    ensures
        ints(r@) == deferred_key(*d),
    decreases d,
{
    let mut k: Vec<u64> = Vec::new();
    write_path_key(&mut k, &d.query_path);
    let mut ids: Vec<Vec<u64>> = Vec::new();
    let mut i: usize = 0;
    while i < d.depends.len()
        invariant
            i <= d.depends.len(),
            kv(ids@) == d.depends@.take(i as int).map_values(|x: crate::plan::Depends| str_key(x.id@)),
        decreases d.depends.len() - i,
    {
        let ghost before = kv(ids@);
        let item = str_key_of(d.depends[i].id.as_str());
        ids.push(item);
        assert(kv(ids@) =~= before.push(ints(item@)));
        assert(d.depends@.take(i + 1) =~= d.depends@.take(i as int).push(d.depends@[i as int]));
        assert(kv(ids@) =~= d.depends@.take(i + 1).map_values(|x: crate::plan::Depends| str_key(x.id@)));
        i = i + 1;
    }
    assert(d.depends@.take(i as int) =~= d.depends@);
    let ids = dedup_keys(sort_vec_keys(ids));
    write_list_key(&mut k, &ids);
    write_opt_str_key(&mut k, &d.label);
    write_opt_str_key(&mut k, &d.subselection);
    write_opt_node_key(&mut k, &d.node);
    assert(ints(k@) =~= deferred_key(*d));
    k
}

fn deferred_key_vec(v: &Vec<DeferredNode>) -> (r: Vec<Vec<u64>>)
    ensures
        kv(r@) == deferred_keys(v@),
    decreases v,
{
    let mut r: Vec<Vec<u64>> = Vec::new();
    let mut i: usize = 0;
    while i < v.len()
        invariant
            i <= v.len(),
            kv(r@) == v@.take(i as int).map_values(|n: DeferredNode| deferred_key(n)),
        decreases v.len() - i,
    {
        let ghost before = kv(r@);
        let item = deferred_key_of(&v[i]);
        r.push(item);
        assert(kv(r@) =~= before.push(ints(item@)));
        assert(v@.take(i + 1) =~= v@.take(i as int).push(v@[i as int]));
        assert(kv(r@) =~= v@.take(i + 1).map_values(|n: DeferredNode| deferred_key(n)));
        i = i + 1;
    }
    proof {
        assert(v@.take(i as int) =~= v@);
        lemma_deferred_keys_map(v@);
    }
    r
}

/// The keys of a fetch's compared fields, in comparison order.
pub open spec fn fetch_field_keys(f: FetchNode) -> Seq<Seq<int>> {
    seq![
        str_key(f.service_name@),
        seq![kind_token(f.operation_kind)],
        opt_str_key(f.operation_name),
        list_key(dedup(sort_keys(strs_keys(f.variable_usages@)))),
        list_key(selections_keys(f.requires@)),
        str_key(operation_text(f.operation.text())),
        rewrites_key(f.input_rewrites),
        rewrites_key(f.output_rewrites),
        rewrites_key(f.context_rewrites),
    ]
}

/// The keys of a fetch's compared fields.
pub fn fetch_field_keys_of(f: &FetchNode) -> (r: Vec<Vec<u64>>)
    ensures
        kv(r@) == fetch_field_keys(*f),
{
    let mut r: Vec<Vec<u64>> = Vec::new();
    let mut k0: Vec<u64> = Vec::new();
    write_str_key(&mut k0, f.service_name.as_str());
    r.push(k0);
    let mut k1: Vec<u64> = Vec::new();
    push_tok(&mut k1, kind_tok(f.operation_kind));
    r.push(k1);
    let mut k2: Vec<u64> = Vec::new();
    write_opt_str_key(&mut k2, &f.operation_name);
    r.push(k2);
    let mut k3: Vec<u64> = Vec::new();
    write_str_set_key(&mut k3, &f.variable_usages);
    r.push(k3);
    let mut k4: Vec<u64> = Vec::new();
    let req = selections_key_vec(&f.requires);
    write_list_key(&mut k4, &req);
    r.push(k4);
    let mut k5: Vec<u64> = Vec::new();
    let op = normalize_operation(f.operation.as_serialized());
    write_str_key(&mut k5, op.as_str());
    r.push(k5);
    let mut k6: Vec<u64> = Vec::new();
    write_rewrites_key(&mut k6, &f.input_rewrites);
    r.push(k6);
    let mut k7: Vec<u64> = Vec::new();
    write_rewrites_key(&mut k7, &f.output_rewrites);
    r.push(k7);
    let mut k8: Vec<u64> = Vec::new();
    write_rewrites_key(&mut k8, &f.context_rewrites);
    r.push(k8);
    proof {
        assert(ints(Seq::<u64>::empty()) =~= Seq::<int>::empty());
        assert forall|i: int| 0 <= i < 9 implies #[trigger] kv(r@)[i] == fetch_field_keys(*f)[i] by {
            assert(Seq::<int>::empty() + seq![kind_token(f.operation_kind)] =~= seq![kind_token(f.operation_kind)]);
        }
        assert(kv(r@) =~= fetch_field_keys(*f));
    }
    r
}

proof fn lemma_nodes_keys_len(s: Seq<PlanNode>)
    ensures
        nodes_keys(s).len() == s.len(),
    decreases s.len(),
{
    if s.len() > 0 {
        lemma_nodes_keys_len(s.drop_first());
    }
}

/// The second token of a sequence or parallel node's key is its number of children.
pub proof fn lemma_child_count_token(n: PlanNode)
    ensures
        n matches PlanNode::Sequence { nodes } ==> node_key(n)[1] == nodes@.len(),
        n matches PlanNode::Parallel { nodes } ==> node_key(n)[1] == nodes@.len(),
{
    match n {
        PlanNode::Sequence { nodes } => {
            lemma_nodes_keys_len(nodes@);
        },
        PlanNode::Parallel { nodes } => {
            lemma_nodes_keys_len(nodes@);
            crate::order::lemma_key_order_total();
            nodes_keys(nodes@).lemma_sort_by_ensures(crate::order::key_order());
            vstd::seq_lib::to_multiset_len(nodes_keys(nodes@));
            vstd::seq_lib::to_multiset_len(sort_keys(nodes_keys(nodes@)));
        },
        _ => {},
    }
}

} // verus!
