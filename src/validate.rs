//! Checks that each deferred block depends only on fetches of its primary part.
use vstd::prelude::*;
use crate::plan::{DeferredNode, PlanNode};

verus! {

broadcast use vstd::seq::axiom_seq_index_decreases, vstd::seq::axiom_seq_subrange_decreases,
    vstd::std_specs::vec::axiom_vec_decreases_to_view, vstd::std_specs::vec::axiom_vec_index_decreases;

/// A plan whose deferred blocks name a fetch id that their primary part lacks.
#[derive(Clone, Copy, Debug, PartialEq, Eq)]
pub enum AdaptationFailure {
    UnresolvedDepends,
}

/// The ids of the fetches in a plan tree, in tree order.
pub open spec fn fetch_ids(n: PlanNode) -> Seq<Seq<char>>
    decreases n,
{
    match n {
        PlanNode::Sequence { nodes } => nodes_ids(nodes@),
        PlanNode::Parallel { nodes } => nodes_ids(nodes@),
        PlanNode::Fetch(f) => match f.id {
            Some(i) => seq![i@],
            None => Seq::<Seq<char>>::empty(),
        },
        PlanNode::Flatten(f) => fetch_ids(*f.node),
        PlanNode::Defer { primary, deferred } => opt_ids(primary.node) + deferred_ids(deferred@),
        PlanNode::Subscription { rest, .. } => opt_ids(rest),
        PlanNode::Condition { if_clause, else_clause, .. } => opt_ids(if_clause) + opt_ids(else_clause),
    }
}

pub open spec fn opt_ids(o: Option<Box<PlanNode>>) -> Seq<Seq<char>>
    decreases o,
{
    match o {
        Some(b) => fetch_ids(*b),
        None => Seq::<Seq<char>>::empty(),
    }
}

pub open spec fn nodes_ids(s: Seq<PlanNode>) -> Seq<Seq<char>>
    decreases s,
{
    if s.len() == 0 {
        Seq::<Seq<char>>::empty()
    } else {
        nodes_ids(s.subrange(0, s.len() - 1)) + fetch_ids(s[s.len() - 1])
    }
}

pub open spec fn deferred_ids(s: Seq<DeferredNode>) -> Seq<Seq<char>>
    decreases s,
{
    if s.len() == 0 {
        Seq::<Seq<char>>::empty()
    } else {
        deferred_ids(s.subrange(0, s.len() - 1)) + opt_ids(s[s.len() - 1].node)
    }
}

/// Every deferred block of the tree depends only on ids that occur exactly
/// once among the fetches of its defer node's primary part.
pub open spec fn depends_resolved(n: PlanNode) -> bool
    decreases n,
{
    match n {
        PlanNode::Sequence { nodes } => nodes_resolved(nodes@),
        PlanNode::Parallel { nodes } => nodes_resolved(nodes@),
        PlanNode::Fetch(_) => true,
        PlanNode::Flatten(f) => depends_resolved(*f.node),
        PlanNode::Defer { primary, deferred } => opt_resolved(primary.node) && deferred_resolved(
            deferred@,
            opt_ids(primary.node),
        ),
        PlanNode::Subscription { rest, .. } => opt_resolved(rest),
        PlanNode::Condition { if_clause, else_clause, .. } => opt_resolved(if_clause) && opt_resolved(
            else_clause,
        ),
    }
}

pub open spec fn opt_resolved(o: Option<Box<PlanNode>>) -> bool
    decreases o,
{
    match o {
        Some(b) => depends_resolved(*b),
        None => true,
    }
}

pub open spec fn nodes_resolved(s: Seq<PlanNode>) -> bool
    decreases s,
{
    s.len() == 0 || (nodes_resolved(s.subrange(0, s.len() - 1)) && depends_resolved(s[s.len() - 1]))
}

pub open spec fn deferred_resolved(s: Seq<DeferredNode>, ids: Seq<Seq<char>>) -> bool
    decreases s,
{
    s.len() == 0 || (deferred_resolved(s.subrange(0, s.len() - 1), ids) && {
        let d = s[s.len() - 1];
        &&& forall|j: int| 0 <= j < d.depends@.len() ==> occurrences(ids, #[trigger] d.depends@[j].id@) == 1
        &&& opt_resolved(d.node)
    })
}

pub open spec fn strs(v: Seq<String>) -> Seq<Seq<char>> {
    v.map_values(|s: String| s@)
}

fn push_id(out: &mut Vec<String>, id: String)
    ensures
        strs(final(out)@) == strs(old(out)@).push(id@),
{
    out.push(id);
    assert(strs(final(out)@) =~= strs(old(out)@).push(id@));
}

#[verifier::loop_isolation(false)]
fn collect_ids(n: &PlanNode, out: &mut Vec<String>)
    ensures
        strs(final(out)@) == strs(old(out)@) + fetch_ids(*n),
    decreases n,
{
    match n {
        PlanNode::Sequence { nodes } | PlanNode::Parallel { nodes } => {
            let mut i: usize = 0;
            assert(nodes@.subrange(0, 0) =~= Seq::<PlanNode>::empty());
            assert(strs(out@) =~= strs(old(out)@) + nodes_ids(nodes@.subrange(0, 0)));
            while i < nodes.len()
                invariant
                    i <= nodes.len(),
                    strs(out@) == strs(old(out)@) + nodes_ids(nodes@.subrange(0, i as int)),
                decreases nodes.len() - i,
            {
                collect_ids(&nodes[i], out);
                assert(nodes@.subrange(0, i + 1).subrange(0, i as int) =~= nodes@.subrange(0, i as int));
                assert(strs(out@) =~= strs(old(out)@) + nodes_ids(nodes@.subrange(0, i + 1)));
                i = i + 1;
            }
            assert(nodes@.subrange(0, i as int) =~= nodes@);
        },
        PlanNode::Fetch(f) => {
            match &f.id {
                Some(id) => push_id(out, id.clone()),
                None => {
                    assert(strs(out@) =~= strs(old(out)@) + fetch_ids(*n));
                },
            }
        },
        PlanNode::Flatten(f) => collect_ids(&f.node, out),
        PlanNode::Defer { primary, deferred } => {
            collect_opt_ids(&primary.node, out);
            let ghost mid = strs(out@);
            let mut i: usize = 0;
            assert(deferred@.subrange(0, 0) =~= Seq::<DeferredNode>::empty());
            assert(strs(out@) =~= mid + deferred_ids(deferred@.subrange(0, 0)));
            while i < deferred.len()
                invariant
                    i <= deferred.len(),
                    strs(out@) == mid + deferred_ids(deferred@.subrange(0, i as int)),
                decreases deferred.len() - i,
            {
                collect_opt_ids(&deferred[i].node, out);
                assert(deferred@.subrange(0, i + 1).subrange(0, i as int) =~= deferred@.subrange(0, i as int));
                assert(strs(out@) =~= mid + deferred_ids(deferred@.subrange(0, i + 1)));
                i = i + 1;
            }
            assert(deferred@.subrange(0, i as int) =~= deferred@);
            assert(strs(out@) =~= strs(old(out)@) + fetch_ids(*n));
        },
        PlanNode::Subscription { rest, .. } => collect_opt_ids(rest, out),
        PlanNode::Condition { if_clause, else_clause, .. } => {
            collect_opt_ids(if_clause, out);
            collect_opt_ids(else_clause, out);
            assert(strs(out@) =~= strs(old(out)@) + fetch_ids(*n));
        },
    }
}

fn collect_opt_ids(o: &Option<Box<PlanNode>>, out: &mut Vec<String>)
    ensures
        strs(final(out)@) == strs(old(out)@) + opt_ids(*o),
    decreases o,
{
    match o {
        Some(b) => collect_ids(b, out),
        None => {
            assert(strs(out@) =~= strs(old(out)@) + opt_ids(*o));
        },
    }
}

/// How often `id` occurs in `ids`.
pub open spec fn occurrences(ids: Seq<Seq<char>>, id: Seq<char>) -> nat
    decreases ids.len(),
{
    if ids.len() == 0 {
        0
    } else {
        occurrences(ids.drop_last(), id) + if ids.last() == id { 1nat } else { 0nat }
    }
}

fn count_id(ids: &Vec<String>, id: &String) -> (r: usize)
    ensures
        r == occurrences(strs(ids@), id@),
{
    let mut i: usize = 0;
    let mut n: usize = 0;
    assert(strs(ids@).take(0) =~= Seq::<Seq<char>>::empty());
    while i < ids.len()
        invariant
            i <= ids.len(),
            n == occurrences(strs(ids@).take(i as int), id@),
            n <= i,
        decreases ids.len() - i,
    {
        assert(strs(ids@).take(i + 1).drop_last() =~= strs(ids@).take(i as int));
        assert(strs(ids@).take(i + 1).last() == ids@[i as int]@);
        if ids[i] == *id {
            n = n + 1;
        }
        i = i + 1;
    }
    assert(strs(ids@).take(i as int) =~= strs(ids@));
    n
}

#[verifier::loop_isolation(false)]
fn resolved(n: &PlanNode) -> (r: bool)
    ensures
        r == depends_resolved(*n),
    decreases n,
{
    match n {
        PlanNode::Sequence { nodes } | PlanNode::Parallel { nodes } => {
            let mut i: usize = 0;
            while i < nodes.len()
                invariant
                    i <= nodes.len(),
                    nodes_resolved(nodes@.subrange(0, i as int)),
                decreases nodes.len() - i,
            {
                assert(nodes@.subrange(0, i + 1).subrange(0, i as int) =~= nodes@.subrange(0, i as int));
                if !resolved(&nodes[i]) {
                    proof {
                        lemma_nodes_resolved_prefix(nodes@, i as int + 1);
                    }
                    return false;
                }
                i = i + 1;
            }
            assert(nodes@.subrange(0, i as int) =~= nodes@);
            true
        },
        PlanNode::Fetch(_) => true,
        PlanNode::Flatten(f) => resolved(&f.node),
        PlanNode::Defer { primary, deferred } => {
            if !opt_resolved_exec(&primary.node) {
                return false;
            }
            let mut ids: Vec<String> = Vec::new();
            collect_opt_ids(&primary.node, &mut ids);
            assert(strs(ids@) =~= opt_ids(primary.node));
            let ghost g = opt_ids(primary.node);
            let mut i: usize = 0;
            while i < deferred.len()
                invariant
                    i <= deferred.len(),
                    strs(ids@) == g,
                    deferred_resolved(deferred@.subrange(0, i as int), g),
                decreases deferred.len() - i,
            {
                let d = &deferred[i];
                assert(deferred@.subrange(0, i + 1).subrange(0, i as int) =~= deferred@.subrange(0, i as int));
                let mut j: usize = 0;
                while j < d.depends.len()
                    invariant
                        j <= d.depends.len(),
                        forall|k: int| 0 <= k < j ==> occurrences(g, #[trigger] d.depends@[k].id@) == 1,
                    decreases d.depends.len() - j,
                {
                    if count_id(&ids, &d.depends[j].id) != 1 {
                        proof {
                            lemma_deferred_resolved_prefix(deferred@, i as int + 1, g);
                        }
                        return false;
                    }
                    j = j + 1;
                }
                if !opt_resolved_exec(&d.node) {
                    proof {
                        lemma_deferred_resolved_prefix(deferred@, i as int + 1, g);
                    }
                    return false;
                }
                i = i + 1;
            }
            assert(deferred@.subrange(0, i as int) =~= deferred@);
            true
        },
        PlanNode::Subscription { rest, .. } => opt_resolved_exec(rest),
        PlanNode::Condition { if_clause, else_clause, .. } => {
            opt_resolved_exec(if_clause) && opt_resolved_exec(else_clause)
        },
    }
}

fn opt_resolved_exec(o: &Option<Box<PlanNode>>) -> (r: bool)
    ensures
        r == opt_resolved(*o),
    decreases o,
{
    match o {
        Some(b) => resolved(b),
        None => true,
    }
}

proof fn lemma_nodes_resolved_prefix(s: Seq<PlanNode>, i: int)
    requires
        0 <= i <= s.len(),
        !nodes_resolved(s.subrange(0, i)),
    ensures
        !nodes_resolved(s),
    decreases s.len() - i,
{
    if i < s.len() {
        assert(s.subrange(0, i + 1).subrange(0, i) =~= s.subrange(0, i));
        lemma_nodes_resolved_prefix(s, i + 1);
    } else {
        assert(s.subrange(0, i) =~= s);
    }
}

proof fn lemma_deferred_resolved_prefix(s: Seq<DeferredNode>, i: int, ids: Seq<Seq<char>>)
    requires
        0 <= i <= s.len(),
        !deferred_resolved(s.subrange(0, i), ids),
    ensures
        !deferred_resolved(s, ids),
    decreases s.len() - i,
{
    if i < s.len() {
        assert(s.subrange(0, i + 1).subrange(0, i) =~= s.subrange(0, i));
        lemma_deferred_resolved_prefix(s, i + 1, ids);
    } else {
        assert(s.subrange(0, i) =~= s);
    }
}

/// Checks that every deferred block depends only on ids that name exactly
/// one fetch of its primary part; fails before any comparison otherwise.
pub fn check_depends(n: &PlanNode) -> (r: Result<(), AdaptationFailure>)
    ensures
        r is Ok <==> depends_resolved(*n),
        r matches Err(e) ==> e == AdaptationFailure::UnresolvedDepends,
{
    if resolved(n) {
        Ok(())
    } else {
        Err(AdaptationFailure::UnresolvedDepends)
    }
}

} // verus!
