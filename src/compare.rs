//! The matcher: two plans match exactly when their canonical keys are equal;
//! on a mismatch a structural walk localizes the divergences.
use vstd::prelude::*;
use crate::key::{
    deferred_key_of, fetch_field_keys, fetch_field_keys_of, node_key, node_key_of, nodes_match,
    str_key_of, write_opt_str_key, write_path_key, write_subscription_key,
};
use crate::order::{ints, key_eq, kv};
use crate::plan::{FetchNode, PlanNode};
use crate::render::{field_value, field_value_of};

verus! {

broadcast use vstd::multiset::group_multiset_axioms, vstd::seq_lib::group_to_multiset_ensures;

/// The kind of a plan node.
#[derive(Copy, Clone, Debug, PartialEq, Eq, Structural)]
pub enum NodeKind {
    Sequence,
    Parallel,
    Fetch,
    Flatten,
    Defer,
    Subscription,
    Condition,
}

/// A field of a plan node that is compared on its own.
#[derive(Copy, Clone, Debug, PartialEq, Eq)]
pub enum FieldName {
    ServiceName,
    OperationKind,
    OperationName,
    VariableUsages,
    Requires,
    Operation,
    InputRewrites,
    OutputRewrites,
    ContextRewrites,
    Path,
    Subselection,
    Subscription,
    Condition,
}

/// What differs at one place of two plans.
#[derive(Copy, Clone, Debug, PartialEq, Eq)]
pub enum DivergenceKind {
    NodeKindMismatch { expected: NodeKind, actual: NodeKind },
    ChildCountMismatch { expected: usize, actual: usize },
    FieldMismatch { field: FieldName },
    /// A member of an order-insensitive list with no counterpart on the other side.
    UnmatchedSetMember { index: usize },
    /// The nodes differ in a part that no finer divergence names.
    NodeMismatch,
}

/// One localized difference: where (child indices from the root) and what;
/// for a field mismatch of a fetch, also the field's text on each side.
#[derive(Clone, Debug)]
pub struct Divergence {
    pub location: Vec<usize>,
    pub kind: DivergenceKind,
    pub expected: String,
    pub actual: String,
}

pub open spec fn node_kind(n: PlanNode) -> NodeKind {
    match n {
        PlanNode::Sequence { .. } => NodeKind::Sequence,
        PlanNode::Parallel { .. } => NodeKind::Parallel,
        PlanNode::Fetch(_) => NodeKind::Fetch,
        PlanNode::Flatten(_) => NodeKind::Flatten,
        PlanNode::Defer { .. } => NodeKind::Defer,
        PlanNode::Subscription { .. } => NodeKind::Subscription,
        PlanNode::Condition { .. } => NodeKind::Condition,
    }
}

/// The compared fields of a fetch, in comparison order.
pub open spec fn fetch_field_names() -> Seq<FieldName> {
    seq![
        FieldName::ServiceName,
        FieldName::OperationKind,
        FieldName::OperationName,
        FieldName::VariableUsages,
        FieldName::Requires,
        FieldName::Operation,
        FieldName::InputRewrites,
        FieldName::OutputRewrites,
        FieldName::ContextRewrites,
    ]
}

/// The names of the fields, among the first `n`, whose keys differ.
pub open spec fn differing(a: Seq<Seq<int>>, b: Seq<Seq<int>>, n: int) -> Seq<FieldName>
    decreases n,
{
    if n <= 0 {
        Seq::<FieldName>::empty()
    } else if a[n - 1] != b[n - 1] {
        differing(a, b, n - 1).push(fetch_field_names()[n - 1])
    } else {
        differing(a, b, n - 1)
    }
}

/// The fields in which two fetches differ, in comparison order.
pub open spec fn fetch_differences(a: FetchNode, b: FetchNode) -> Seq<FieldName> {
    differing(fetch_field_keys(a), fetch_field_keys(b), 9)
}

pub open spec fn field_mismatches(fs: Seq<FieldName>) -> Seq<DivergenceKind> {
    fs.map_values(|f: FieldName| DivergenceKind::FieldMismatch { field: f })
}

pub open spec fn kinds(ds: Seq<Divergence>) -> Seq<DivergenceKind> {
    ds.map_values(|d: Divergence| d.kind)
}

fn field_name_at(i: usize) -> (r: FieldName)
    requires
        i < 9,
    ensures
        r == fetch_field_names()[i as int],
{
    if i == 0 { FieldName::ServiceName } else if i == 1 { FieldName::OperationKind }
    else if i == 2 { FieldName::OperationName } else if i == 3 { FieldName::VariableUsages }
    else if i == 4 { FieldName::Requires } else if i == 5 { FieldName::Operation }
    else if i == 6 { FieldName::InputRewrites } else if i == 7 { FieldName::OutputRewrites }
    else { FieldName::ContextRewrites }
}

/// One field mismatch for each compared field in which the fetches differ.
pub fn compare_fetch(a: &FetchNode, b: &FetchNode, location: &Vec<usize>) -> (r: Vec<Divergence>)
    ensures
        kinds(r@) == field_mismatches(fetch_differences(*a, *b)),
        forall|k: int| 0 <= k < r@.len() ==> (#[trigger] r@[k]).location@ == location@,
        forall|k: int| 0 <= k < r@.len() ==> ((#[trigger] r@[k]).kind matches DivergenceKind::FieldMismatch { field }
            ==> r@[k].expected@ == field_value(*a, field) && r@[k].actual@ == field_value(*b, field)),
{
    let ka = fetch_field_keys_of(a);
    let kb = fetch_field_keys_of(b);
    let mut r: Vec<Divergence> = Vec::new();
    let mut i: usize = 0;
    assert(kv(ka@).len() == 9 && kv(kb@).len() == 9);
    assert(kinds(r@) =~= field_mismatches(differing(fetch_field_keys(*a), fetch_field_keys(*b), 0)));
    while i < 9
        invariant
            i <= 9,
            ka@.len() == 9 && kb@.len() == 9,
            kv(ka@) == fetch_field_keys(*a),
            kv(kb@) == fetch_field_keys(*b),
            kinds(r@) == field_mismatches(differing(fetch_field_keys(*a), fetch_field_keys(*b), i as int)),
            forall|k: int| 0 <= k < r@.len() ==> (#[trigger] r@[k]).location@ == location@,
            forall|k: int| 0 <= k < r@.len() ==> ((#[trigger] r@[k]).kind matches DivergenceKind::FieldMismatch { field }
                ==> r@[k].expected@ == field_value(*a, field) && r@[k].actual@ == field_value(*b, field)),
        decreases 9 - i,
    {
        let ghost before = kinds(r@);
        assert(kv(ka@)[i as int] == ints(ka@[i as int]@));
        assert(kv(kb@)[i as int] == ints(kb@[i as int]@));
        if !key_eq(&ka[i], &kb[i]) {
            let field = field_name_at(i);
            let expected = field_value_of(a, field);
            let actual = field_value_of(b, field);
            r.push(Divergence { location: copy_location(location), kind: DivergenceKind::FieldMismatch { field }, expected, actual });
            assert(kinds(r@) =~= before.push(DivergenceKind::FieldMismatch { field }));
            let ghost prev = differing(fetch_field_keys(*a), fetch_field_keys(*b), i as int);
            assert(differing(fetch_field_keys(*a), fetch_field_keys(*b), i + 1) == prev.push(field));
            assert(field_mismatches(prev.push(field)) =~= field_mismatches(prev).push(DivergenceKind::FieldMismatch { field }));
            assert(kinds(r@) =~= field_mismatches(differing(fetch_field_keys(*a), fetch_field_keys(*b), i + 1)));
        }
        i = i + 1;
    }
    r
}

/// The divergence of two sequence nodes, or two parallel nodes, whose
/// numbers of children differ.
pub open spec fn count_mismatch(a: PlanNode, b: PlanNode) -> Option<DivergenceKind> {
    match (a, b) {
        (PlanNode::Sequence { nodes: x }, PlanNode::Sequence { nodes: y }) => if x.len() != y.len() {
            Some(DivergenceKind::ChildCountMismatch { expected: x.len(), actual: y.len() })
        } else {
            None
        },
        (PlanNode::Parallel { nodes: x }, PlanNode::Parallel { nodes: y }) => if x.len() != y.len() {
            Some(DivergenceKind::ChildCountMismatch { expected: x.len(), actual: y.len() })
        } else {
            None
        },
        _ => None,
    }
}

fn kind_of(n: &PlanNode) -> (r: NodeKind)
    ensures
        r == node_kind(*n),
{
    match n {
        PlanNode::Sequence { .. } => NodeKind::Sequence,
        PlanNode::Parallel { .. } => NodeKind::Parallel,
        PlanNode::Fetch(_) => NodeKind::Fetch,
        PlanNode::Flatten(_) => NodeKind::Flatten,
        PlanNode::Defer { .. } => NodeKind::Defer,
        PlanNode::Subscription { .. } => NodeKind::Subscription,
        PlanNode::Condition { .. } => NodeKind::Condition,
    }
}

fn child_location(location: &Vec<usize>, i: usize) -> (r: Vec<usize>)
    ensures
        r@ == location@.push(i),
{
    let mut r: Vec<usize> = Vec::new();
    let mut j: usize = 0;
    while j < location.len()
        invariant
            j <= location.len(),
            r@ == location@.take(j as int),
        decreases location.len() - j,
    {
        r.push(location[j]);
        assert(r@ =~= location@.take(j + 1));
        j = j + 1;
    }
    assert(location@.take(j as int) =~= location@);
    r.push(i);
    r
}

fn copy_location(location: &Vec<usize>) -> (r: Vec<usize>)
    ensures
        r@ == location@,
{
    let mut r: Vec<usize> = Vec::new();
    let mut j: usize = 0;
    while j < location.len()
        invariant
            j <= location.len(),
            r@ == location@.take(j as int),
        decreases location.len() - j,
    {
        r.push(location[j]);
        assert(r@ =~= location@.take(j + 1));
        j = j + 1;
    }
    assert(location@.take(j as int) =~= location@);
    r
}

/// `l` starts with `p`.
pub open spec fn extends(p: Seq<usize>, l: Seq<usize>) -> bool {
    p.len() <= l.len() && l.subrange(0, p.len() as int) == p
}

/// `new` keeps `old` as its beginning, and every divergence added after it
/// lies at `loc` or below.
pub open spec fn added_under(old: Seq<Divergence>, new: Seq<Divergence>, loc: Seq<usize>) -> bool {
    &&& old.len() <= new.len()
    &&& new.subrange(0, old.len() as int) == old
    &&& forall|k: int| old.len() <= k < new.len() ==> extends(loc, #[trigger] new[k].location@)
}

/// Some divergence added after `old` lies at `l` or below.
pub open spec fn reported_under(old: Seq<Divergence>, new: Seq<Divergence>, l: Seq<usize>) -> bool {
    exists|k: int| old.len() <= k < new.len() && extends(l, #[trigger] new[k].location@)
}

/// A field mismatch on `f` at exactly `l` was added after `old`.
pub open spec fn field_reported(old: Seq<Divergence>, new: Seq<Divergence>, l: Seq<usize>, f: FieldName) -> bool {
    exists|k: int| old.len() <= k < new.len() && #[trigger] new[k].location@ == l
        && new[k].kind == DivergenceKind::FieldMismatch { field: f }
}

/// What is reported for one pair of children at `l`: something below `l`
/// where they do not match, and for two fetches each differing field at `l`.
pub open spec fn child_reported(x: PlanNode, y: PlanNode, old: Seq<Divergence>, new: Seq<Divergence>, l: Seq<usize>) -> bool {
    &&& !nodes_match(x, y) ==> reported_under(old, new, l)
    &&& (x is Fetch && y is Fetch && !nodes_match(x, y)) ==> forall|f: FieldName|
        #[trigger] fetch_differences(x->Fetch_0, y->Fetch_0).contains(f) ==> field_reported(old, new, l, f)
}

/// For two sequences of equal length, each pair of children is reported
/// under its own index.
pub open spec fn sequence_children_reported(a: PlanNode, b: PlanNode, old: Seq<Divergence>, new: Seq<Divergence>, loc: Seq<usize>) -> bool {
    match (a, b) {
        (PlanNode::Sequence { nodes: xs }, PlanNode::Sequence { nodes: ys }) => xs@.len() == ys@.len()
            ==> forall|i: int| 0 <= i < xs@.len() ==> child_reported(
            #[trigger] xs@[i],
            ys@[i],
            old,
            new,
            loc.push(i as usize),
        ),
        _ => true,
    }
}

fn push_divergence(out: &mut Vec<Divergence>, location: &Vec<usize>, kind: DivergenceKind)
    ensures
        kinds(final(out)@) == kinds(old(out)@).push(kind),
        final(out)@.len() == old(out)@.len() + 1,
        final(out)@.subrange(0, old(out)@.len() as int) == old(out)@,
        final(out)@.last().location@ == location@,
        final(out)@.last().kind == kind,
{
    out.push(Divergence { location: copy_location(location), kind, expected: String::new(), actual: String::new() });
    assert(final(out)@.subrange(0, old(out)@.len() as int) =~= old(out)@);
    proof {
        assert(kinds(final(out)@) =~= kinds(old(out)@).push(kind));
    }
}

proof fn lemma_under_push(old: Seq<Divergence>, mid: Seq<Divergence>, new: Seq<Divergence>, loc: Seq<usize>)
    requires
        added_under(old, mid, loc),
        new.len() == mid.len() + 1,
        new.subrange(0, mid.len() as int) == mid,
        extends(loc, new.last().location@),
    ensures
        added_under(old, new, loc),
{
    assert forall|k: int| old.len() <= k < new.len() implies extends(loc, #[trigger] new[k].location@) by {
        if k < mid.len() {
            assert(new[k] == new.subrange(0, mid.len() as int)[k]);
        }
    }
    assert(new.subrange(0, old.len() as int) =~= mid.subrange(0, old.len() as int));
}

proof fn lemma_under_trans(old: Seq<Divergence>, mid: Seq<Divergence>, new: Seq<Divergence>, loc: Seq<usize>, l2: Seq<usize>)
    requires
        added_under(old, mid, loc),
        added_under(mid, new, l2),
        extends(loc, l2),
    ensures
        added_under(old, new, loc),
{
    assert forall|k: int| old.len() <= k < new.len() implies extends(loc, #[trigger] new[k].location@) by {
        if k < mid.len() {
            assert(new[k] == new.subrange(0, mid.len() as int)[k]);
        } else {
            let l = new[k].location@;
            assert(extends(l2, l));
            assert(l.subrange(0, loc.len() as int) =~= l2.subrange(0, loc.len() as int));
        }
    }
    assert(new.subrange(0, old.len() as int) =~= mid.subrange(0, old.len() as int));
}

proof fn lemma_extends_child(loc: Seq<usize>, i: usize)
    ensures
        extends(loc, loc.push(i)),
        extends(loc, loc),
{
    assert(loc.push(i).subrange(0, loc.len() as int) =~= loc);
    assert(loc.subrange(0, loc.len() as int) =~= loc);
}

proof fn lemma_under_refl(old: Seq<Divergence>, loc: Seq<usize>)
    ensures
        added_under(old, old, loc),
{
    assert(old.subrange(0, old.len() as int) =~= old);
}

/// Reports made after `old` stay when more is added.
proof fn lemma_reports_kept(x: PlanNode, y: PlanNode, old: Seq<Divergence>, mid: Seq<Divergence>, new: Seq<Divergence>, l: Seq<usize>)
    requires
        child_reported(x, y, old, mid, l),
        old.len() <= mid.len() <= new.len(),
        new.subrange(0, mid.len() as int) == mid,
    ensures
        child_reported(x, y, old, new, l),
{
    if !nodes_match(x, y) {
        let k = choose|k: int| old.len() <= k < mid.len() && extends(l, #[trigger] mid[k].location@);
        assert(new[k] == new.subrange(0, mid.len() as int)[k]);
        assert(extends(l, new[k].location@));
    }
    if x is Fetch && y is Fetch && !nodes_match(x, y) {
        assert forall|f: FieldName| #[trigger] fetch_differences(x->Fetch_0, y->Fetch_0).contains(f)
            implies field_reported(old, new, l, f) by {
            let k = choose|k: int| old.len() <= k < mid.len() && #[trigger] mid[k].location@ == l
                && mid[k].kind == DivergenceKind::FieldMismatch { field: f };
            assert(new[k] == new.subrange(0, mid.len() as int)[k]);
            assert(new[k].location@ == l);
        }
    }
}

/// Reports the members of `ka` that no distinct member of `kb` equals.
fn unmatched_members(ka: &Vec<Vec<u64>>, kb: &Vec<Vec<u64>>, location: &Vec<usize>, out: &mut Vec<Divergence>)
    ensures
        added_under(old(out)@, final(out)@, location@),
{
    proof {
        lemma_under_refl(old(out)@, location@);
        lemma_extends_child(location@, 0);
    }
    let mut used: Vec<bool> = Vec::new();
    let mut j: usize = 0;
    while j < kb.len()
        invariant
            j <= kb.len(),
            used@.len() == j,
        decreases kb.len() - j,
    {
        used.push(false);
        j = j + 1;
    }
    let mut i: usize = 0;
    while i < ka.len()
        invariant
            i <= ka.len(),
            used@.len() == kb@.len(),
            added_under(old(out)@, out@, location@),
            extends(location@, location@),
        decreases ka.len() - i,
    {
        let mut found = false;
        let mut j: usize = 0;
        while j < kb.len() && !found
            invariant
                i < ka.len(),
                j <= kb.len(),
                used@.len() == kb@.len(),
            decreases kb.len() - j,
        {
            if !used[j] && key_eq(&ka[i], &kb[j]) {
                used.set(j, true);
                found = true;
            }
            j = j + 1;
        }
        if !found {
            let ghost mid = out@;
            push_divergence(out, location, DivergenceKind::UnmatchedSetMember { index: i });
            proof {
                lemma_under_push(old(out)@, mid, out@, location@);
            }
        }
        i = i + 1;
    }
}

fn compare_opt_into(a: &Option<Box<PlanNode>>, b: &Option<Box<PlanNode>>, location: &Vec<usize>, out: &mut Vec<Divergence>)
    ensures
        added_under(old(out)@, final(out)@, location@),
    decreases a,
{
    proof {
        lemma_under_refl(old(out)@, location@);
        lemma_extends_child(location@, 0);
    }
    match (a, b) {
        (Some(x), Some(y)) => compare_into(x, y, location, out),
        (None, None) => {},
        _ => {
            push_divergence(out, location, DivergenceKind::NodeMismatch);
            proof {
                lemma_under_push(old(out)@, old(out)@, out@, location@);
            }
        },
    }
}

#[verifier::loop_isolation(false)]
#[verifier::rlimit(60)]
fn compare_into(a: &PlanNode, b: &PlanNode, location: &Vec<usize>, out: &mut Vec<Divergence>)
    ensures
        nodes_match(*a, *b) ==> final(out)@ == old(out)@,
        !nodes_match(*a, *b) ==> final(out)@.len() > old(out)@.len(),
        added_under(old(out)@, final(out)@, location@),
        node_kind(*a) != node_kind(*b) ==> kinds(final(out)@) == kinds(old(out)@).push(
            DivergenceKind::NodeKindMismatch { expected: node_kind(*a), actual: node_kind(*b) },
        ),
        (a is Fetch && b is Fetch && !nodes_match(*a, *b)) ==> kinds(final(out)@) == kinds(old(out)@)
            + field_mismatches(fetch_differences(a->Fetch_0, b->Fetch_0)) && forall|k: int|
            old(out)@.len() <= k < final(out)@.len() ==> (#[trigger] final(out)@[k]).location@ == location@,
        (a is Fetch && b is Fetch && !nodes_match(*a, *b)) ==> forall|k: int|
            old(out)@.len() <= k < final(out)@.len() ==> ((#[trigger] final(out)@[k]).kind matches DivergenceKind::FieldMismatch { field }
            ==> final(out)@[k].expected@ == field_value(a->Fetch_0, field) && final(out)@[k].actual@ == field_value(b->Fetch_0, field)),
        count_mismatch(*a, *b) is Some ==> kinds(final(out)@) == kinds(old(out)@).push(
            count_mismatch(*a, *b)->0,
        ),
        !nodes_match(*a, *b) ==> sequence_children_reported(*a, *b, old(out)@, final(out)@, location@),
    decreases a,
{
    let ghost start = out@;
    let start_len = out.len();
    proof {
        lemma_under_refl(start, location@);
        lemma_extends_child(location@, 0);
    }
    let key_a = node_key_of(a);
    let key_b = node_key_of(b);
    if key_eq(&key_a, &key_b) {
        proof {
            if count_mismatch(*a, *b) is Some {
                crate::key::lemma_child_count_token(*a);
                crate::key::lemma_child_count_token(*b);
                assert(node_key(*a)[1] != node_key(*b)[1]);
            }
            if node_kind(*a) != node_kind(*b) {
                assert(node_key(*a)[0] != node_key(*b)[0]);
            }
        }
        return;
    }
    let ka = kind_of(a);
    let kb = kind_of(b);
    if ka != kb {
        push_divergence(out, location, DivergenceKind::NodeKindMismatch { expected: ka, actual: kb });
        proof {
            lemma_under_push(start, start, out@, location@);
        }
        return;
    }
    match (a, b) {
        (PlanNode::Sequence { nodes: xs }, PlanNode::Sequence { nodes: ys }) => {
            if xs.len() != ys.len() {
                push_divergence(out, location, DivergenceKind::ChildCountMismatch { expected: xs.len(), actual: ys.len() });
                proof {
                    lemma_under_push(start, start, out@, location@);
                }
            } else {
                let mut i: usize = 0;
                while i < xs.len()
                    invariant
                        i <= xs.len(),
                        xs.len() == ys.len(),
                        added_under(start, out@, location@),
                        forall|j: int| 0 <= j < i ==> child_reported(
                            #[trigger] xs@[j],
                            ys@[j],
                            start,
                            out@,
                            location@.push(j as usize),
                        ),
                    decreases xs.len() - i,
                {
                    let loc = child_location(location, i);
                    let ghost mid = out@;
                    compare_into(&xs[i], &ys[i], &loc, out);
                    proof {
                        lemma_extends_child(location@, i);
                        lemma_under_trans(start, mid, out@, location@, loc@);
                        assert forall|j: int| 0 <= j < i + 1 implies child_reported(
                            #[trigger] xs@[j],
                            ys@[j],
                            start,
                            out@,
                            location@.push(j as usize),
                        ) by {
                            if j < i {
                                lemma_reports_kept(xs@[j], ys@[j], start, mid, out@, location@.push(j as usize));
                            } else {
                                lemma_child_now_reported(xs@[j], ys@[j], start, mid, out@, loc@);
                            }
                        }
                    }
                    i = i + 1;
                }
            }
        },
        (PlanNode::Parallel { nodes: xs }, PlanNode::Parallel { nodes: ys }) => {
            if xs.len() != ys.len() {
                push_divergence(out, location, DivergenceKind::ChildCountMismatch { expected: xs.len(), actual: ys.len() });
                proof {
                    lemma_under_push(start, start, out@, location@);
                }
            } else {
                let mut kx: Vec<Vec<u64>> = Vec::new();
                let mut ky: Vec<Vec<u64>> = Vec::new();
                let mut i: usize = 0;
                while i < xs.len()
                    invariant
                        i <= xs.len(),
                        xs.len() == ys.len(),
                        out@ == start,
                    decreases xs.len() - i,
                {
                    kx.push(node_key_of(&xs[i]));
                    ky.push(node_key_of(&ys[i]));
                    i = i + 1;
                }
                unmatched_members(&kx, &ky, location, out);
            }
        },
        (PlanNode::Fetch(x), PlanNode::Fetch(y)) => {
            let mut ds = compare_fetch(x, y, location);
            let ghost added = ds@;
            out.append(&mut ds);
            proof {
                assert(out@ =~= start + added);
                assert(kinds(out@) =~= kinds(start) + kinds(added));
                assert forall|k: int| start.len() <= k < out@.len() implies extends(location@, #[trigger] out@[k].location@) by {
                    assert(out@[k] == added[k - start.len()]);
                }
                assert(out@.subrange(0, start.len() as int) =~= start);
                if fetch_differences(*x, *y).len() == 0 {
                    lemma_no_differences_fetch_match(*x, *y);
                }
                assert forall|k: int| start.len() <= k < out@.len() implies (#[trigger] out@[k]).location@ == location@ by {
                    assert(out@[k] == added[k - start.len()]);
                }
                assert forall|k: int| start.len() <= k < out@.len() implies ((#[trigger] out@[k]).kind matches DivergenceKind::FieldMismatch { field }
                    ==> out@[k].expected@ == field_value(*x, field) && out@[k].actual@ == field_value(*y, field)) by {
                    assert(out@[k] == added[k - start.len()]);
                }
            }
        },
        (PlanNode::Flatten(x), PlanNode::Flatten(y)) => {
            let mut px: Vec<u64> = Vec::new();
            write_path_key(&mut px, &x.path);
            let mut py: Vec<u64> = Vec::new();
            write_path_key(&mut py, &y.path);
            if !key_eq(&px, &py) {
                push_divergence(out, location, DivergenceKind::FieldMismatch { field: FieldName::Path });
                proof {
                    lemma_under_push(start, start, out@, location@);
                }
            }
            let loc = child_location(location, 0);
            let ghost mid = out@;
            compare_into(&x.node, &y.node, &loc, out);
            proof {
                lemma_under_trans(start, mid, out@, location@, loc@);
            }
        },
        (PlanNode::Defer { primary: px, deferred: dx }, PlanNode::Defer { primary: py, deferred: dy }) => {
            let mut sx: Vec<u64> = Vec::new();
            write_opt_str_key(&mut sx, &px.subselection);
            let mut sy: Vec<u64> = Vec::new();
            write_opt_str_key(&mut sy, &py.subselection);
            if !key_eq(&sx, &sy) {
                push_divergence(out, location, DivergenceKind::FieldMismatch { field: FieldName::Subselection });
                proof {
                    lemma_under_push(start, start, out@, location@);
                }
            }
            let loc = child_location(location, 0);
            let ghost mid = out@;
            compare_opt_into(&px.node, &py.node, &loc, out);
            proof {
                lemma_under_trans(start, mid, out@, location@, loc@);
            }
            if dx.len() != dy.len() {
                let ghost mid2 = out@;
                push_divergence(out, location, DivergenceKind::ChildCountMismatch { expected: dx.len(), actual: dy.len() });
                proof {
                    lemma_under_push(start, mid2, out@, location@);
                }
            } else {
                let mut kx: Vec<Vec<u64>> = Vec::new();
                let mut ky: Vec<Vec<u64>> = Vec::new();
                let mut i: usize = 0;
                let ghost mid2 = out@;
                while i < dx.len()
                    invariant
                        i <= dx.len(),
                        dx.len() == dy.len(),
                        out@ == mid2,
                    decreases dx.len() - i,
                {
                    kx.push(deferred_key_of(&dx[i]));
                    ky.push(deferred_key_of(&dy[i]));
                    i = i + 1;
                }
                unmatched_members(&kx, &ky, location, out);
                proof {
                    lemma_under_trans(start, mid2, out@, location@, location@);
                }
            }
        },
        (PlanNode::Subscription { primary: px, rest: rx }, PlanNode::Subscription { primary: py, rest: ry }) => {
            let mut sx: Vec<u64> = Vec::new();
            write_subscription_key(&mut sx, px);
            let mut sy: Vec<u64> = Vec::new();
            write_subscription_key(&mut sy, py);
            if !key_eq(&sx, &sy) {
                push_divergence(out, location, DivergenceKind::FieldMismatch { field: FieldName::Subscription });
                proof {
                    lemma_under_push(start, start, out@, location@);
                }
            }
            let loc = child_location(location, 0);
            let ghost mid = out@;
            compare_opt_into(rx, ry, &loc, out);
            proof {
                lemma_under_trans(start, mid, out@, location@, loc@);
            }
        },
        (PlanNode::Condition { condition: cx, if_clause: ix, else_clause: ex },
         PlanNode::Condition { condition: cy, if_clause: iy, else_clause: ey }) => {
            let kx = str_key_of(cx.as_str());
            let ky = str_key_of(cy.as_str());
            if !key_eq(&kx, &ky) {
                push_divergence(out, location, DivergenceKind::FieldMismatch { field: FieldName::Condition });
                proof {
                    lemma_under_push(start, start, out@, location@);
                }
            }
            let l0 = child_location(location, 0);
            let ghost mid = out@;
            compare_opt_into(ix, iy, &l0, out);
            proof {
                lemma_under_trans(start, mid, out@, location@, l0@);
                lemma_extends_child(location@, 1);
            }
            let l1 = child_location(location, 1);
            let ghost mid2 = out@;
            compare_opt_into(ex, ey, &l1, out);
            proof {
                lemma_under_trans(start, mid2, out@, location@, l1@);
            }
        },
        _ => {},
    }
    if out.len() == start_len {
        let ghost mid = out@;
        push_divergence(out, location, DivergenceKind::NodeMismatch);
        proof {
            assert(mid =~= start);
            lemma_under_push(start, mid, out@, location@);
        }
    }
}

/// After one pair of children was compared at `l`, that pair is reported.
proof fn lemma_child_now_reported(x: PlanNode, y: PlanNode, old: Seq<Divergence>, mid: Seq<Divergence>, new: Seq<Divergence>, l: Seq<usize>)
    requires
        old.len() <= mid.len(),
        !nodes_match(x, y) ==> new.len() > mid.len(),
        added_under(mid, new, l),
        (x is Fetch && y is Fetch && !nodes_match(x, y)) ==> kinds(new) == kinds(mid)
            + field_mismatches(fetch_differences(x->Fetch_0, y->Fetch_0)) && forall|k: int|
            mid.len() <= k < new.len() ==> (#[trigger] new[k]).location@ == l,
    ensures
        child_reported(x, y, old, new, l),
{
    if !nodes_match(x, y) {
        let k = mid.len() as int;
        assert(extends(l, new[k].location@));
    }
    if x is Fetch && y is Fetch && !nodes_match(x, y) {
        let fd = fetch_differences(x->Fetch_0, y->Fetch_0);
        assert forall|f: FieldName| #[trigger] fd.contains(f) implies field_reported(old, new, l, f) by {
            let m = choose|m: int| 0 <= m < fd.len() && fd[m] == f;
            let k = mid.len() + m;
            assert(kinds(new).len() == new.len());
            assert(kinds(new)[k] == field_mismatches(fd)[m]);
            assert(new[k].kind == kinds(new)[k]);
            assert(new[k].location@ == l);
        }
    }
}

proof fn lemma_differing_empty(a: Seq<Seq<int>>, b: Seq<Seq<int>>, n: int)
    requires
        0 <= n <= a.len(),
        n <= b.len(),
    ensures
        differing(a, b, n).len() == 0 <==> forall|i: int| 0 <= i < n ==> a[i] == b[i],
    decreases n,
{
    if n > 0 {
        lemma_differing_empty(a, b, n - 1);
    }
}

/// Fetch keys are made of the field keys, in comparison order.
proof fn lemma_fetch_key_fields(f: FetchNode)
    ensures
        node_key(PlanNode::Fetch(f)) == seq![3] + fetch_field_keys(f)[0] + fetch_field_keys(f)[1]
            + fetch_field_keys(f)[2] + fetch_field_keys(f)[3] + fetch_field_keys(f)[4]
            + fetch_field_keys(f)[5] + fetch_field_keys(f)[6] + fetch_field_keys(f)[7]
            + fetch_field_keys(f)[8],
{
    let k = fetch_field_keys(f);
    assert(node_key(PlanNode::Fetch(f)) =~= seq![3] + k[0] + k[1] + k[2] + k[3] + k[4] + k[5] + k[6]
        + k[7] + k[8]);
}

proof fn lemma_no_differences_fetch_match(a: FetchNode, b: FetchNode)
    requires
        fetch_differences(a, b).len() == 0,
    ensures
        nodes_match(PlanNode::Fetch(a), PlanNode::Fetch(b)),
{
    lemma_differing_empty(fetch_field_keys(a), fetch_field_keys(b), 9);
    lemma_fetch_key_fields(a);
    lemma_fetch_key_fields(b);
    assert(fetch_field_keys(a)[0] == fetch_field_keys(b)[0]);
    assert(fetch_field_keys(a)[8] == fetch_field_keys(b)[8]);
}

/// Decides whether two plans are equivalent; on a mismatch, lists every
/// divergence found, each with its location (child indices from the root).
pub fn plan_matches(a: &PlanNode, b: &PlanNode) -> (r: Result<(), Vec<Divergence>>)
    ensures
        r is Ok <==> nodes_match(*a, *b),
        r matches Err(ds) ==> ds@.len() > 0,
        node_kind(*a) != node_kind(*b) ==> (r matches Err(ds) && kinds(ds@) == seq![
            DivergenceKind::NodeKindMismatch { expected: node_kind(*a), actual: node_kind(*b) },
        ]),
        count_mismatch(*a, *b) is Some ==> (r matches Err(ds) && kinds(ds@) == seq![
            count_mismatch(*a, *b)->0,
        ]),
        (*a is Fetch && *b is Fetch) ==> (r matches Err(ds) ==> kinds(ds@) == field_mismatches(
            fetch_differences(a->Fetch_0, b->Fetch_0),
        ) && forall|k: int| 0 <= k < ds@.len() ==> (#[trigger] ds@[k]).location@.len() == 0
            && (ds@[k].kind matches DivergenceKind::FieldMismatch { field } ==> ds@[k].expected@ == field_value(
            a->Fetch_0,
            field,
        ) && ds@[k].actual@ == field_value(b->Fetch_0, field))),
        r matches Err(ds) ==> sequence_children_reported(*a, *b, Seq::<Divergence>::empty(), ds@, Seq::<usize>::empty()),
{
    let mut out: Vec<Divergence> = Vec::new();
    let root: Vec<usize> = Vec::new();
    compare_into(a, b, &root, &mut out);
    proof {
        assert(kinds(Seq::<Divergence>::empty()) =~= Seq::<DivergenceKind>::empty());
        assert(root@ =~= Seq::<usize>::empty());
    }
    if out.len() == 0 {
        Ok(())
    } else {
        proof {
            if node_kind(*a) != node_kind(*b) {
                assert(kinds(out@) =~= seq![DivergenceKind::NodeKindMismatch { expected: node_kind(*a), actual: node_kind(*b) }]);
            }
            if count_mismatch(*a, *b) is Some {
                assert(kinds(out@) =~= seq![count_mismatch(*a, *b)->0]);
            }
            if *a is Fetch && *b is Fetch {
                assert(kinds(out@) =~= field_mismatches(fetch_differences(a->Fetch_0, b->Fetch_0)));
            }
        }
        Err(out)
    }
}

/// Compares two plan roots: two empty plans match, an empty plan and a
/// non-empty one do not, and two roots are compared as plans.
pub fn roots_match(a: Option<&PlanNode>, b: Option<&PlanNode>) -> (r: Result<(), Vec<Divergence>>)
    ensures
        r is Ok <==> match (a, b) {
            (None, None) => true,
            (Some(x), Some(y)) => nodes_match(*x, *y),
            _ => false,
        },
        r matches Err(ds) ==> ds@.len() > 0,
        (a is Some != b is Some) ==> (r matches Err(ds) && kinds(ds@) == seq![DivergenceKind::NodeMismatch]),
{
    match (a, b) {
        (None, None) => Ok(()),
        (Some(x), Some(y)) => plan_matches(x, y),
        _ => {
            let mut out: Vec<Divergence> = Vec::new();
            out.push(Divergence { location: Vec::new(), kind: DivergenceKind::NodeMismatch, expected: String::new(), actual: String::new() });
            assert(kinds(out@) =~= seq![DivergenceKind::NodeMismatch]);
            Err(out)
        },
    }
}

} // verus!
