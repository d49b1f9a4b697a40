//! A deterministic, indented text rendering of plans, and a diff report.
use vstd::prelude::*;
use crate::compare::{plan_matches, Divergence, DivergenceKind, FieldName, NodeKind};
use crate::path::{decimal, path_text, write_decimal, write_path};
use crate::key::node_key;
use crate::normalize::{normalize, in_normal_form};
use crate::plan::{
    DataRewrite, DeferredNode, FetchNode, OperationKind, PlanNode, QueryPlanResult, Selection,
    SubscriptionNode,
};
use crate::text::{push_char, push_str};

verus! {

broadcast use vstd::seq::axiom_seq_index_decreases, vstd::seq::axiom_seq_subrange_decreases,
    vstd::std_specs::vec::axiom_vec_decreases_to_view, vstd::std_specs::vec::axiom_vec_index_decreases;

/// One level of indentation deeper.
pub open spec fn deeper(ind: Seq<char>) -> Seq<char> {
    ind + seq![' ', ' ']
}

pub open spec fn kind_text(k: OperationKind) -> Seq<char> {
    match k {
        OperationKind::Query => "query"@,
        OperationKind::Mutation => "mutation"@,
        OperationKind::Subscription => "subscription"@,
    }
}

/// A value between double quotes.
pub open spec fn quoted(v: Seq<char>) -> Seq<char> {
    seq!['"'] + v + seq!['"']
}

pub open spec fn opt_quoted(o: Option<String>) -> Seq<char> {
    match o {
        Some(s) => quoted(s@),
        None => seq!['-'],
    }
}

/// Strings separated by commas, each quoted.
pub open spec fn quoted_list(v: Seq<Seq<char>>) -> Seq<char>
    decreases v.len(),
{
    if v.len() == 0 {
        Seq::<char>::empty()
    } else if v.len() == 1 {
        quoted(v[0])
    } else {
        quoted_list(v.subrange(0, v.len() - 1)) + seq![','] + quoted(v[v.len() - 1])
    }
}

/// The rendering of a plan node under an indentation: one line per node,
/// children indented below their parent.
pub open spec fn render_node(n: PlanNode, ind: Seq<char>) -> Seq<char>
    decreases n,
{
    match n {
        PlanNode::Sequence { nodes } => ind + "Sequence {\n"@ + render_nodes(nodes@, deeper(ind))
            + ind + "}\n"@,
        PlanNode::Parallel { nodes } => ind + "Parallel {\n"@ + render_nodes(nodes@, deeper(ind))
            + ind + "}\n"@,
        PlanNode::Fetch(f) => render_fetch(f, ind),
        PlanNode::Flatten(f) => ind + "Flatten(path: "@ + quoted(path_text(f.path@)) + ") {\n"@
            + render_node(*f.node, deeper(ind)) + ind + "}\n"@,
        PlanNode::Defer { primary, deferred } => ind + "Defer {\n"@ + deeper(ind)
            + "Primary(subselection: "@ + opt_quoted(primary.subselection) + ") {\n"@ + render_opt(primary.node, deeper(deeper(ind))) + deeper(ind) + "}\n"@
            + render_deferred(deferred@, deeper(ind)) + ind + "}\n"@,
        PlanNode::Subscription { primary, rest } => ind + subscription_head(primary) + " {\n"@
            + render_opt(rest, deeper(ind)) + ind + "}\n"@,
        PlanNode::Condition { condition, if_clause, else_clause } => ind + "Condition(if: "@
            + quoted(condition@) + ") {\n"@ + render_opt(if_clause, deeper(ind)) + ind
            + "} else {\n"@ + render_opt(else_clause, deeper(ind)) + ind + "}\n"@,
    }
}

pub open spec fn render_fetch(f: FetchNode, ind: Seq<char>) -> Seq<char> {
    ind + "Fetch(service: "@ + fetch_identity(f) + ", requires: ["@ + fetch_data(f) + ", operation: "@
        + quoted(f.operation.text()) + ")\n"@
}

/// Service, kind, name, id and variables of a fetch.
pub open spec fn fetch_identity(f: FetchNode) -> Seq<char> {
    quoted(f.service_name@) + ", kind: "@ + kind_text(f.operation_kind) + ", name: "@ + opt_quoted(
        f.operation_name,
    ) + ", id: "@ + opt_quoted(f.id) + ", variables: ["@ + quoted_list(
        f.variable_usages@.map_values(|v: String| v@),
    ) + "]"@
}

/// Required selections and rewrites of a fetch.
pub open spec fn fetch_data(f: FetchNode) -> Seq<char> {
    selections_text(f.requires@) + "], input_rewrites: "@ + opt_rewrites_text(f.input_rewrites)
        + ", output_rewrites: "@ + opt_rewrites_text(f.output_rewrites) + ", context_rewrites: "@
        + opt_rewrites_text(f.context_rewrites)
}

pub open spec fn subscription_head(p: SubscriptionNode) -> Seq<char> {
    "Subscription(service: "@ + quoted(p.service_name@) + ", kind: "@ + kind_text(p.operation_kind)
        + ", name: "@ + opt_quoted(p.operation_name) + ", variables: ["@ + quoted_list(
        p.variable_usages@.map_values(|v: String| v@),
    ) + "], input_rewrites: "@ + opt_rewrites_text(p.input_rewrites) + ", output_rewrites: "@
        + opt_rewrites_text(p.output_rewrites) + ", operation: "@ + quoted(p.operation.text()) + ")"@
}

/// A rewrite: `"path" = value` sets a value, `"path" -> "key"` renames a key.
pub open spec fn rewrite_text(r: DataRewrite) -> Seq<char> {
    match r {
        DataRewrite::ValueSetter(v) => quoted(path_text(v.path@)) + " = "@ + v.set_value_to@,
        DataRewrite::KeyRenamer(k) => quoted(path_text(k.path@)) + " -> "@ + quoted(k.rename_key_to@),
    }
}

pub open spec fn rewrites_text(s: Seq<DataRewrite>) -> Seq<char>
    decreases s.len(),
{
    if s.len() == 0 {
        Seq::<char>::empty()
    } else if s.len() == 1 {
        rewrite_text(s[0])
    } else {
        rewrites_text(s.subrange(0, s.len() - 1)) + ", "@ + rewrite_text(s[s.len() - 1])
    }
}

pub open spec fn opt_rewrites_text(o: Option<Vec<DataRewrite>>) -> Seq<char> {
    match o {
        Some(v) => "["@ + rewrites_text(v@) + "]"@,
        None => "-"@,
    }
}

/// A required selection: `alias: name { ... }`, or `... on T { ... }`.
pub open spec fn selection_text(s: Selection) -> Seq<char>
    decreases s,
{
    match s {
        Selection::Field(f) => (match f.alias {
            Some(a) => a@ + ": "@,
            None => Seq::<char>::empty(),
        }) + f.name@ + (match f.selections {
            Some(v) => " { "@ + selections_text(v@) + " }"@,
            None => Seq::<char>::empty(),
        }),
        Selection::InlineFragment(i) => "..."@ + (match i.type_condition {
            Some(t) => " on "@ + t@,
            None => Seq::<char>::empty(),
        }) + " { "@ + selections_text(i.selections@) + " }"@,
    }
}

pub open spec fn selections_text(s: Seq<Selection>) -> Seq<char>
    decreases s,
{
    if s.len() == 0 {
        Seq::<char>::empty()
    } else if s.len() == 1 {
        selection_text(s[0])
    } else {
        selections_text(s.subrange(0, s.len() - 1)) + ", "@ + selection_text(s[s.len() - 1])
    }
}

pub open spec fn render_opt(o: Option<Box<PlanNode>>, ind: Seq<char>) -> Seq<char>
    decreases o,
{
    match o {
        Some(b) => render_node(*b, ind),
        None => Seq::<char>::empty(),
    }
}

pub open spec fn render_nodes(s: Seq<PlanNode>, ind: Seq<char>) -> Seq<char>
    decreases s,
{
    if s.len() == 0 {
        Seq::<char>::empty()
    } else {
        render_nodes(s.subrange(0, s.len() - 1), ind) + render_node(s[s.len() - 1], ind)
    }
}

pub open spec fn render_one_deferred(d: DeferredNode, ind: Seq<char>) -> Seq<char>
    decreases d,
{
    ind + "Deferred(path: "@ + quoted(path_text(d.query_path@)) + ", depends: ["@
        + quoted_list(d.depends@.map_values(|x: crate::plan::Depends| x.id@)) + "], label: "@
        + opt_quoted(d.label) + ", subselection: "@ + opt_quoted(d.subselection) + ") {\n"@ + render_opt(d.node, deeper(ind)) + ind + "}\n"@
}

pub open spec fn render_deferred(s: Seq<DeferredNode>, ind: Seq<char>) -> Seq<char>
    decreases s,
{
    if s.len() == 0 {
        Seq::<char>::empty()
    } else {
        render_deferred(s.subrange(0, s.len() - 1), ind) + render_one_deferred(s[s.len() - 1], ind)
    }
}

fn write_quoted(out: &mut String, v: &str)
    ensures
        final(out)@ == old(out)@ + quoted(v@),
{
    push_char(out, '"');
    push_str(out, v);
    push_char(out, '"');
    assert(final(out)@ =~= old(out)@ + quoted(v@));
}

fn write_opt_quoted(out: &mut String, o: &Option<String>)
    ensures
        final(out)@ == old(out)@ + opt_quoted(*o),
{
    match o {
        Some(v) => write_quoted(out, v.as_str()),
        None => {
            push_char(out, '-');
            assert(final(out)@ =~= old(out)@ + opt_quoted(*o));
        },
    }
}

fn write_depends(out: &mut String, ds: &Vec<crate::plan::Depends>)
    ensures
        final(out)@ == old(out)@ + quoted_list(ds@.map_values(|x: crate::plan::Depends| x.id@)),
{
    let ghost m = ds@.map_values(|x: crate::plan::Depends| x.id@);
    let mut i: usize = 0;
    assert(m.subrange(0, 0) =~= Seq::<Seq<char>>::empty());
    assert(out@ =~= old(out)@ + quoted_list(m.subrange(0, 0)));
    while i < ds.len()
        invariant
            i <= ds.len(),
            m == ds@.map_values(|x: crate::plan::Depends| x.id@),
            out@ == old(out)@ + quoted_list(m.subrange(0, i as int)),
        decreases ds.len() - i,
    {
        if i > 0 {
            push_char(out, ',');
        }
        write_quoted(out, ds[i].id.as_str());
        proof {
            let t = m.subrange(0, i + 1);
            assert(t.subrange(0, i as int) =~= m.subrange(0, i as int));
            if i == 0 {
                assert(m.subrange(0, 0) =~= Seq::<Seq<char>>::empty());
            }
            assert(out@ =~= old(out)@ + quoted_list(t));
        }
        i = i + 1;
    }
    assert(m.subrange(0, i as int) =~= m);
}

fn write_kind_text(out: &mut String, k: OperationKind)
    ensures
        final(out)@ == old(out)@ + kind_text(k),
{
    match k {
        OperationKind::Query => push_str(out, "query"),
        OperationKind::Mutation => push_str(out, "mutation"),
        OperationKind::Subscription => push_str(out, "subscription"),
    }
}

fn write_quoted_strings(out: &mut String, vs: &Vec<String>)
    ensures
        final(out)@ == old(out)@ + quoted_list(vs@.map_values(|v: String| v@)),
{
    let ghost m = vs@.map_values(|v: String| v@);
    let mut i: usize = 0;
    assert(m.subrange(0, 0) =~= Seq::<Seq<char>>::empty());
    assert(out@ =~= old(out)@ + quoted_list(m.subrange(0, 0)));
    while i < vs.len()
        invariant
            i <= vs.len(),
            m == vs@.map_values(|v: String| v@),
            out@ == old(out)@ + quoted_list(m.subrange(0, i as int)),
        decreases vs.len() - i,
    {
        if i > 0 {
            push_char(out, ',');
        }
        write_quoted(out, vs[i].as_str());
        proof {
            let t = m.subrange(0, i + 1);
            assert(t.subrange(0, i as int) =~= m.subrange(0, i as int));
            if i == 0 {
                assert(m.subrange(0, 0) =~= Seq::<Seq<char>>::empty());
            }
            assert(out@ =~= old(out)@ + quoted_list(t));
        }
        i = i + 1;
    }
    assert(m.subrange(0, i as int) =~= m);
}

fn deeper_of(ind: &String) -> (r: String)
    ensures
        r@ == deeper(ind@),
{
    let mut d = ind.clone();
    push_char(&mut d, ' ');
    push_char(&mut d, ' ');
    assert(d@ =~= deeper(ind@));
    d
}

#[verifier::rlimit(80)]
#[verifier::loop_isolation(false)]
fn render_into(out: &mut String, n: &PlanNode, ind: &String)
    ensures
        final(out)@ == old(out)@ + render_node(*n, ind@),
    decreases n,
{
    let inner = deeper_of(ind);
    match n {
        PlanNode::Sequence { nodes } => {
            push_str(out, ind.as_str());
            push_str(out, "Sequence {\n");
            render_children_into(out, nodes, &inner);
            push_str(out, ind.as_str());
            push_str(out, "}\n");
            assert(final(out)@ =~= old(out)@ + render_node(*n, ind@));
        },
        PlanNode::Parallel { nodes } => {
            push_str(out, ind.as_str());
            push_str(out, "Parallel {\n");
            render_children_into(out, nodes, &inner);
            push_str(out, ind.as_str());
            push_str(out, "}\n");
            assert(final(out)@ =~= old(out)@ + render_node(*n, ind@));
        },
        PlanNode::Fetch(f) => render_fetch_into(out, f, ind),
        PlanNode::Flatten(f) => {
            push_str(out, ind.as_str());
            push_str(out, "Flatten(path: ");
            let mut p = String::new();
            write_path(&mut p, &f.path);
            assert(p@ =~= path_text(f.path@));
            write_quoted(out, p.as_str());
            push_str(out, ") {\n");
            render_into(out, &f.node, &inner);
            push_str(out, ind.as_str());
            push_str(out, "}\n");
        },
        PlanNode::Defer { primary, deferred } => {
            push_str(out, ind.as_str());
            push_str(out, "Defer {\n");
            push_str(out, inner.as_str());
            push_str(out, "Primary(subselection: ");
            write_opt_quoted(out, &primary.subselection);
            push_str(out, ") {\n");
            let inner2 = deeper_of(&inner);
            render_opt_into(out, &primary.node, &inner2);
            push_str(out, inner.as_str());
            push_str(out, "}\n");
            let ghost mid = out@;
            let mut i: usize = 0;
            assert(deferred@.subrange(0, 0) =~= Seq::<DeferredNode>::empty());
            assert(out@ =~= mid + render_deferred(deferred@.subrange(0, 0), inner@));
            while i < deferred.len()
                invariant
                    i <= deferred.len(),
                    out@ == mid + render_deferred(deferred@.subrange(0, i as int), inner@),
                decreases deferred.len() - i,
            {
                render_deferred_into(out, &deferred[i], &inner);
                assert(deferred@.subrange(0, i + 1).subrange(0, i as int) =~= deferred@.subrange(0, i as int));
                assert(out@ =~= mid + render_deferred(deferred@.subrange(0, i + 1), inner@));
                i = i + 1;
            }
            assert(deferred@.subrange(0, i as int) =~= deferred@);
            push_str(out, ind.as_str());
            push_str(out, "}\n");
        },
        PlanNode::Subscription { primary, rest } => {
            push_str(out, ind.as_str());
            write_subscription_head(out, primary);
            push_str(out, " {\n");
            render_opt_into(out, rest, &inner);
            push_str(out, ind.as_str());
            push_str(out, "}\n");
        },
        PlanNode::Condition { condition, if_clause, else_clause } => {
            push_str(out, ind.as_str());
            push_str(out, "Condition(if: ");
            write_quoted(out, condition.as_str());
            push_str(out, ") {\n");
            render_opt_into(out, if_clause, &inner);
            push_str(out, ind.as_str());
            push_str(out, "} else {\n");
            render_opt_into(out, else_clause, &inner);
            push_str(out, ind.as_str());
            push_str(out, "}\n");
        },
    }
    assert(final(out)@ =~= old(out)@ + render_node(*n, ind@));
}

fn render_children_into(out: &mut String, nodes: &Vec<PlanNode>, inner: &String)
    ensures
        final(out)@ == old(out)@ + render_nodes(nodes@, inner@),
    decreases nodes,
{
    let mut i: usize = 0;
    assert(nodes@.subrange(0, 0) =~= Seq::<PlanNode>::empty());
    assert(out@ =~= old(out)@ + render_nodes(nodes@.subrange(0, 0), inner@));
    while i < nodes.len()
        invariant
            i <= nodes.len(),
            out@ == old(out)@ + render_nodes(nodes@.subrange(0, i as int), inner@),
        decreases nodes.len() - i,
    {
        render_into(out, &nodes[i], inner);
        assert(nodes@.subrange(0, i + 1).subrange(0, i as int) =~= nodes@.subrange(0, i as int));
        assert(out@ =~= old(out)@ + render_nodes(nodes@.subrange(0, i + 1), inner@));
        i = i + 1;
    }
    assert(nodes@.subrange(0, i as int) =~= nodes@);
}

fn write_fetch_identity(out: &mut String, f: &FetchNode)
    ensures
        final(out)@ == old(out)@ + fetch_identity(*f),
{
    write_quoted(out, f.service_name.as_str());
    push_str(out, ", kind: ");
    write_kind_text(out, f.operation_kind);
    push_str(out, ", name: ");
    write_opt_quoted(out, &f.operation_name);
    push_str(out, ", id: ");
    write_opt_quoted(out, &f.id);
    push_str(out, ", variables: [");
    write_quoted_strings(out, &f.variable_usages);
    push_str(out, "]");
    assert(final(out)@ =~= old(out)@ + fetch_identity(*f));
}

fn write_fetch_data(out: &mut String, f: &FetchNode)
    ensures
        final(out)@ == old(out)@ + fetch_data(*f),
{
    write_selections(out, &f.requires);
    push_str(out, "], input_rewrites: ");
    write_opt_rewrites(out, &f.input_rewrites);
    push_str(out, ", output_rewrites: ");
    write_opt_rewrites(out, &f.output_rewrites);
    push_str(out, ", context_rewrites: ");
    write_opt_rewrites(out, &f.context_rewrites);
    assert(final(out)@ =~= old(out)@ + fetch_data(*f));
}

fn render_fetch_into(out: &mut String, f: &FetchNode, ind: &String)
    ensures
        final(out)@ == old(out)@ + render_fetch(*f, ind@),
{
    push_str(out, ind.as_str());
    push_str(out, "Fetch(service: ");
    write_fetch_identity(out, f);
    push_str(out, ", requires: [");
    write_fetch_data(out, f);
    push_str(out, ", operation: ");
    write_quoted(out, f.operation.as_serialized());
    push_str(out, ")\n");
    assert(final(out)@ =~= old(out)@ + render_fetch(*f, ind@));
}

fn write_subscription_head(out: &mut String, p: &SubscriptionNode)
    ensures
        final(out)@ == old(out)@ + subscription_head(*p),
{
    push_str(out, "Subscription(service: ");
    write_quoted(out, p.service_name.as_str());
    push_str(out, ", kind: ");
    write_kind_text(out, p.operation_kind);
    push_str(out, ", name: ");
    write_opt_quoted(out, &p.operation_name);
    push_str(out, ", variables: [");
    write_quoted_strings(out, &p.variable_usages);
    push_str(out, "], input_rewrites: ");
    write_opt_rewrites(out, &p.input_rewrites);
    push_str(out, ", output_rewrites: ");
    write_opt_rewrites(out, &p.output_rewrites);
    push_str(out, ", operation: ");
    write_quoted(out, p.operation.as_serialized());
    push_str(out, ")");
    assert(final(out)@ =~= old(out)@ + subscription_head(*p));
}

fn write_path_quoted(out: &mut String, p: &crate::path::Path)
    ensures
        final(out)@ == old(out)@ + quoted(path_text(p@)),
{
    let mut t = String::new();
    write_path(&mut t, p);
    assert(t@ =~= path_text(p@));
    write_quoted(out, t.as_str());
}

fn write_rewrite(out: &mut String, r: &DataRewrite)
    ensures
        final(out)@ == old(out)@ + rewrite_text(*r),
{
    match r {
        DataRewrite::ValueSetter(v) => {
            write_path_quoted(out, &v.path);
            push_str(out, " = ");
            push_str(out, v.set_value_to.as_str());
        },
        DataRewrite::KeyRenamer(k) => {
            write_path_quoted(out, &k.path);
            push_str(out, " -> ");
            write_quoted(out, k.rename_key_to.as_str());
        },
    }
    assert(final(out)@ =~= old(out)@ + rewrite_text(*r));
}

fn write_opt_rewrites(out: &mut String, o: &Option<Vec<DataRewrite>>)
    ensures
        final(out)@ == old(out)@ + opt_rewrites_text(*o),
{
    match o {
        Some(v) => {
            push_str(out, "[");
            let ghost mid = out@;
            let mut i: usize = 0;
            assert(v@.subrange(0, 0) =~= Seq::<DataRewrite>::empty());
            assert(out@ =~= mid + rewrites_text(v@.subrange(0, 0)));
            while i < v.len()
                invariant
                    i <= v.len(),
                    out@ == mid + rewrites_text(v@.subrange(0, i as int)),
                decreases v.len() - i,
            {
                if i > 0 {
                    push_str(out, ", ");
                }
                write_rewrite(out, &v[i]);
                proof {
                    let t = v@.subrange(0, i + 1);
                    assert(t.subrange(0, i as int) =~= v@.subrange(0, i as int));
                    if i == 0 {
                        assert(v@.subrange(0, 0) =~= Seq::<DataRewrite>::empty());
                    }
                    assert(out@ =~= mid + rewrites_text(t));
                }
                i = i + 1;
            }
            assert(v@.subrange(0, i as int) =~= v@);
            push_str(out, "]");
            assert(final(out)@ =~= old(out)@ + opt_rewrites_text(*o));
        },
        None => push_str(out, "-"),
    }
}

fn write_selection(out: &mut String, s: &Selection)
    ensures
        final(out)@ == old(out)@ + selection_text(*s),
    decreases s,
{
    match s {
        Selection::Field(f) => {
            match &f.alias {
                Some(a) => {
                    push_str(out, a.as_str());
                    push_str(out, ": ");
                },
                None => {},
            }
            push_str(out, f.name.as_str());
            match &f.selections {
                Some(v) => {
                    push_str(out, " { ");
                    write_selections(out, v);
                    push_str(out, " }");
                },
                None => {},
            }
        },
        Selection::InlineFragment(i) => {
            push_str(out, "...");
            match &i.type_condition {
                Some(t) => {
                    push_str(out, " on ");
                    push_str(out, t.as_str());
                },
                None => {},
            }
            push_str(out, " { ");
            write_selections(out, &i.selections);
            push_str(out, " }");
        },
    }
    assert(final(out)@ =~= old(out)@ + selection_text(*s));
}

fn write_selections(out: &mut String, v: &Vec<Selection>)
    ensures
        final(out)@ == old(out)@ + selections_text(v@),
    decreases v,
{
    let mut i: usize = 0;
    assert(v@.subrange(0, 0) =~= Seq::<Selection>::empty());
    assert(out@ =~= old(out)@ + selections_text(v@.subrange(0, 0)));
    while i < v.len()
        invariant
            i <= v.len(),
            out@ == old(out)@ + selections_text(v@.subrange(0, i as int)),
        decreases v.len() - i,
    {
        if i > 0 {
            push_str(out, ", ");
        }
        write_selection(out, &v[i]);
        proof {
            let t = v@.subrange(0, i + 1);
            assert(t.subrange(0, i as int) =~= v@.subrange(0, i as int));
            if i == 0 {
                assert(v@.subrange(0, 0) =~= Seq::<Selection>::empty());
            }
            assert(out@ =~= old(out)@ + selections_text(t));
        }
        i = i + 1;
    }
    assert(v@.subrange(0, i as int) =~= v@);
}

fn render_opt_into(out: &mut String, o: &Option<Box<PlanNode>>, ind: &String)
    ensures
        final(out)@ == old(out)@ + render_opt(*o, ind@),
    decreases o,
{
    match o {
        Some(b) => render_into(out, b, ind),
        None => {
            assert(final(out)@ =~= old(out)@ + render_opt(*o, ind@));
        },
    }
}

fn render_deferred_into(out: &mut String, d: &DeferredNode, ind: &String)
    ensures
        final(out)@ == old(out)@ + render_one_deferred(*d, ind@),
    decreases d,
{
    push_str(out, ind.as_str());
    push_str(out, "Deferred(path: ");
    let mut p = String::new();
    write_path(&mut p, &d.query_path);
    assert(p@ =~= path_text(d.query_path@));
    write_quoted(out, p.as_str());
    push_str(out, ", depends: [");
    write_depends(out, &d.depends);
    push_str(out, "], label: ");
    write_opt_quoted(out, &d.label);
    push_str(out, ", subselection: ");
    write_opt_quoted(out, &d.subselection);
    push_str(out, ") {\n");
    let inner = deeper_of(ind);
    render_opt_into(out, &d.node, &inner);
    push_str(out, ind.as_str());
    push_str(out, "}\n");
    assert(final(out)@ =~= old(out)@ + render_one_deferred(*d, ind@));
}

/// Renders a plan tree, one node per line.
pub fn render_plan(n: &PlanNode) -> (r: String)
    ensures
        r@ == render_node(*n, Seq::<char>::empty()),
{
    let mut out = String::new();
    let ind = String::new();
    render_into(&mut out, n, &ind);
    assert(out@ =~= render_node(*n, Seq::<char>::empty()));
    out
}

/// Renders the plan of the legacy planner; empty where it has no root.
pub fn render_legacy_plan(js_plan: &QueryPlanResult) -> (r: String)
    ensures
        js_plan.query_plan.node matches Some(b) ==> r@ == render_node(*b, Seq::<char>::empty()),
        js_plan.query_plan.node is None ==> r@ == Seq::<char>::empty(),
{
    match &js_plan.query_plan.node {
        None => String::new(),
        Some(js) => render_plan(js),
    }
}

pub open spec fn kind_name(k: NodeKind) -> Seq<char> {
    match k {
        NodeKind::Sequence => "Sequence"@,
        NodeKind::Parallel => "Parallel"@,
        NodeKind::Fetch => "Fetch"@,
        NodeKind::Flatten => "Flatten"@,
        NodeKind::Defer => "Defer"@,
        NodeKind::Subscription => "Subscription"@,
        NodeKind::Condition => "Condition"@,
    }
}

pub open spec fn field_text(f: FieldName) -> Seq<char> {
    match f {
        FieldName::ServiceName => "service_name"@,
        FieldName::OperationKind => "operation_kind"@,
        FieldName::OperationName => "operation_name"@,
        FieldName::VariableUsages => "variable_usages"@,
        FieldName::Requires => "requires"@,
        FieldName::Operation => "operation"@,
        FieldName::InputRewrites => "input_rewrites"@,
        FieldName::OutputRewrites => "output_rewrites"@,
        FieldName::ContextRewrites => "context_rewrites"@,
        FieldName::Path => "path"@,
        FieldName::Subselection => "subselection"@,
        FieldName::Subscription => "subscription"@,
        FieldName::Condition => "condition"@,
    }
}

/// What a divergence says, in words.
pub open spec fn describe(k: DivergenceKind) -> Seq<char> {
    match k {
        DivergenceKind::NodeKindMismatch { expected, actual } => "NodeKindMismatch: "@ + kind_name(expected)
            + " vs "@ + kind_name(actual),
        DivergenceKind::ChildCountMismatch { expected, actual } => "ChildCountMismatch: "@ + decimal(
            expected as nat,
        ) + " vs "@ + decimal(actual as nat),
        DivergenceKind::FieldMismatch { field } => "FieldMismatch: "@ + field_text(field),
        DivergenceKind::UnmatchedSetMember { index } => "UnmatchedSetMember: "@ + decimal(index as nat),
        DivergenceKind::NodeMismatch => "NodeMismatch"@,
    }
}

/// A location as `/`-separated child indices from the root.
pub open spec fn location_text(l: Seq<usize>) -> Seq<char>
    decreases l.len(),
{
    if l.len() == 0 {
        Seq::<char>::empty()
    } else {
        location_text(l.subrange(0, l.len() - 1)) + seq!['/'] + decimal(l[l.len() - 1] as nat)
    }
}

/// The child that a location step names: a list member by index; the
/// single child of a flatten, the primary of a defer, the rest of a
/// subscription by 0; the branches of a condition by 0 and 1.
pub open spec fn child_at(n: PlanNode, i: usize) -> Option<PlanNode> {
    match n {
        PlanNode::Sequence { nodes } => if i < nodes@.len() { Some(nodes@[i as int]) } else { None },
        PlanNode::Parallel { nodes } => if i < nodes@.len() { Some(nodes@[i as int]) } else { None },
        PlanNode::Fetch(_) => None,
        PlanNode::Flatten(f) => if i == 0 { Some(*f.node) } else { None },
        PlanNode::Defer { primary, .. } => if i == 0 { unbox(primary.node) } else { None },
        PlanNode::Subscription { rest, .. } => if i == 0 { unbox(rest) } else { None },
        PlanNode::Condition { if_clause, else_clause, .. } => if i == 0 {
            unbox(if_clause)
        } else if i == 1 {
            unbox(else_clause)
        } else {
            None
        },
    }
}

pub open spec fn unbox(o: Option<Box<PlanNode>>) -> Option<PlanNode> {
    match o {
        Some(b) => Some(*b),
        None => None,
    }
}

/// The subtree at a location, if there is one.
pub open spec fn node_at(n: PlanNode, l: Seq<usize>) -> Option<PlanNode>
    decreases l.len(),
{
    if l.len() == 0 {
        Some(n)
    } else {
        match child_at(n, l[0]) {
            Some(c) => node_at(c, l.drop_first()),
            None => None,
        }
    }
}

/// The rendering of the subtree at a location, under a label.
pub open spec fn snippet(label: Seq<char>, n: PlanNode, l: Seq<usize>) -> Seq<char> {
    match node_at(n, l) {
        Some(m) => label + render_node(m, "    "@),
        None => Seq::<char>::empty(),
    }
}

/// For each divergence: a line saying where and what, then the subtree at
/// that place on each side.
pub open spec fn divergence_lines(a: PlanNode, b: PlanNode, ds: Seq<Divergence>) -> Seq<char>
    decreases ds.len(),
{
    if ds.len() == 0 {
        Seq::<char>::empty()
    } else {
        let d = ds[ds.len() - 1];
        divergence_lines(a, b, ds.subrange(0, ds.len() - 1)) + "at "@ + location_text(d.location@) + ": "@
            + describe(d.kind) + "\n"@ + snippet("  expected:\n"@, a, d.location@) + snippet(
            "  actual:\n"@,
            b,
            d.location@,
        )
    }
}

fn write_kind_name(out: &mut String, k: NodeKind)
    ensures
        final(out)@ == old(out)@ + kind_name(k),
{
    match k {
        NodeKind::Sequence => push_str(out, "Sequence"),
        NodeKind::Parallel => push_str(out, "Parallel"),
        NodeKind::Fetch => push_str(out, "Fetch"),
        NodeKind::Flatten => push_str(out, "Flatten"),
        NodeKind::Defer => push_str(out, "Defer"),
        NodeKind::Subscription => push_str(out, "Subscription"),
        NodeKind::Condition => push_str(out, "Condition"),
    }
}

fn write_field_text(out: &mut String, f: FieldName)
    ensures
        final(out)@ == old(out)@ + field_text(f),
{
    match f {
        FieldName::ServiceName => push_str(out, "service_name"),
        FieldName::OperationKind => push_str(out, "operation_kind"),
        FieldName::OperationName => push_str(out, "operation_name"),
        FieldName::VariableUsages => push_str(out, "variable_usages"),
        FieldName::Requires => push_str(out, "requires"),
        FieldName::Operation => push_str(out, "operation"),
        FieldName::InputRewrites => push_str(out, "input_rewrites"),
        FieldName::OutputRewrites => push_str(out, "output_rewrites"),
        FieldName::ContextRewrites => push_str(out, "context_rewrites"),
        FieldName::Path => push_str(out, "path"),
        FieldName::Subselection => push_str(out, "subselection"),
        FieldName::Subscription => push_str(out, "subscription"),
        FieldName::Condition => push_str(out, "condition"),
    }
}

fn write_describe(out: &mut String, k: DivergenceKind)
    ensures
        final(out)@ == old(out)@ + describe(k),
{
    match k {
        DivergenceKind::NodeKindMismatch { expected, actual } => {
            push_str(out, "NodeKindMismatch: ");
            write_kind_name(out, expected);
            push_str(out, " vs ");
            write_kind_name(out, actual);
        },
        DivergenceKind::ChildCountMismatch { expected, actual } => {
            push_str(out, "ChildCountMismatch: ");
            write_decimal(out, expected);
            push_str(out, " vs ");
            write_decimal(out, actual);
        },
        DivergenceKind::FieldMismatch { field } => {
            push_str(out, "FieldMismatch: ");
            write_field_text(out, field);
        },
        DivergenceKind::UnmatchedSetMember { index } => {
            push_str(out, "UnmatchedSetMember: ");
            write_decimal(out, index);
        },
        DivergenceKind::NodeMismatch => push_str(out, "NodeMismatch"),
    }
    assert(final(out)@ =~= old(out)@ + describe(k));
}

fn write_location(out: &mut String, l: &Vec<usize>)
    ensures
        final(out)@ == old(out)@ + location_text(l@),
{
    let mut i: usize = 0;
    assert(l@.subrange(0, 0) =~= Seq::<usize>::empty());
    assert(out@ =~= old(out)@ + location_text(l@.subrange(0, 0)));
    while i < l.len()
        invariant
            i <= l.len(),
            out@ == old(out)@ + location_text(l@.subrange(0, i as int)),
        decreases l.len() - i,
    {
        push_char(out, '/');
        write_decimal(out, l[i]);
        assert(l@.subrange(0, i + 1).subrange(0, i as int) =~= l@.subrange(0, i as int));
        assert(out@ =~= old(out)@ + location_text(l@.subrange(0, i + 1)));
        i = i + 1;
    }
    assert(l@.subrange(0, i as int) =~= l@);
}

fn child_ref(n: &PlanNode, i: usize) -> (r: Option<&PlanNode>)
    ensures
        match r {
            Some(c) => child_at(*n, i) == Some(*c),
            None => child_at(*n, i) is None,
        },
{
    match n {
        PlanNode::Sequence { nodes } | PlanNode::Parallel { nodes } => {
            if i < nodes.len() {
                Some(&nodes[i])
            } else {
                None
            }
        },
        PlanNode::Fetch(_) => None,
        PlanNode::Flatten(f) => if i == 0 {
            Some(&f.node)
        } else {
            None
        },
        PlanNode::Defer { primary, .. } => if i == 0 {
            opt_ref(&primary.node)
        } else {
            None
        },
        PlanNode::Subscription { rest, .. } => if i == 0 {
            opt_ref(rest)
        } else {
            None
        },
        PlanNode::Condition { if_clause, else_clause, .. } => if i == 0 {
            opt_ref(if_clause)
        } else if i == 1 {
            opt_ref(else_clause)
        } else {
            None
        },
    }
}

fn opt_ref(o: &Option<Box<PlanNode>>) -> (r: Option<&PlanNode>)
    ensures
        match r {
            Some(c) => unbox(*o) == Some(*c),
            None => unbox(*o) is None,
        },
{
    match o {
        Some(b) => Some(b),
        None => None,
    }
}

/// The subtree at a location, if there is one.
pub fn subtree_at<'a>(n: &'a PlanNode, l: &Vec<usize>) -> (r: Option<&'a PlanNode>)
    ensures
        match r {
            Some(m) => node_at(*n, l@) == Some(*m),
            None => node_at(*n, l@) is None,
        },
{
    let mut cur: &PlanNode = n;
    let mut i: usize = 0;
    assert(l@.skip(0) =~= l@);
    while i < l.len()
        invariant
            i <= l.len(),
            node_at(*n, l@) == node_at(*cur, l@.skip(i as int)),
        decreases l.len() - i,
    {
        assert(l@.skip(i as int).drop_first() =~= l@.skip(i + 1));
        match child_ref(cur, l[i]) {
            Some(c) => {
                cur = c;
            },
            None => {
                return None;
            },
        }
        i = i + 1;
    }
    assert(l@.skip(i as int) =~= Seq::<usize>::empty());
    Some(cur)
}

fn write_snippet(out: &mut String, label: &str, n: &PlanNode, l: &Vec<usize>)
    ensures
        final(out)@ == old(out)@ + snippet(label@, *n, l@),
{
    match subtree_at(n, l) {
        Some(m) => {
            push_str(out, label);
            let ind = String::from_str("    ");
            render_into(out, m, &ind);
            assert(final(out)@ =~= old(out)@ + snippet(label@, *n, l@));
        },
        None => {
            assert(final(out)@ =~= old(out)@ + snippet(label@, *n, l@));
        },
    }
}

/// Renders each divergence with the subtrees at its place.
pub fn render_divergences(a: &PlanNode, b: &PlanNode, ds: &Vec<Divergence>) -> (r: String)
    ensures
        r@ == divergence_lines(*a, *b, ds@),
{
    let mut out = String::new();
    let mut i: usize = 0;
    assert(ds@.subrange(0, 0) =~= Seq::<Divergence>::empty());
    assert(out@ =~= divergence_lines(*a, *b, ds@.subrange(0, 0)));
    while i < ds.len()
        invariant
            i <= ds.len(),
            out@ == divergence_lines(*a, *b, ds@.subrange(0, i as int)),
        decreases ds.len() - i,
    {
        push_str(&mut out, "at ");
        write_location(&mut out, &ds[i].location);
        push_str(&mut out, ": ");
        write_describe(&mut out, ds[i].kind);
        push_str(&mut out, "\n");
        write_snippet(&mut out, "  expected:\n", a, &ds[i].location);
        write_snippet(&mut out, "  actual:\n", b, &ds[i].location);
        assert(ds@.subrange(0, i + 1).subrange(0, i as int) =~= ds@.subrange(0, i as int));
        assert(out@ =~= divergence_lines(*a, *b, ds@.subrange(0, i + 1)));
        i = i + 1;
    }
    assert(ds@.subrange(0, i as int) =~= ds@);
    out
}

/// The report on two plans: each rendered, then each divergence with the
/// subtrees at its place.
pub open spec fn diff_report(a: PlanNode, b: PlanNode, ds: Seq<Divergence>) -> Seq<char> {
    "--- expected\n"@ + render_node(a, Seq::<char>::empty()) + "+++ actual\n"@ + render_node(
        b,
        Seq::<char>::empty(),
    ) + divergence_lines(a, b, ds)
}

/// Renders a report on two plans and the divergences found between them.
pub fn render_diff(a: &PlanNode, b: &PlanNode, ds: &Vec<Divergence>) -> (r: String)
    ensures
        r@ == diff_report(*a, *b, ds@),
{
    let mut out = String::new();
    push_str(&mut out, "--- expected\n");
    let ra = render_plan(a);
    push_str(&mut out, ra.as_str());
    push_str(&mut out, "+++ actual\n");
    let rb = render_plan(b);
    push_str(&mut out, rb.as_str());
    let rd = render_divergences(a, b, ds);
    push_str(&mut out, rd.as_str());
    assert(out@ =~= diff_report(*a, *b, ds@));
    out
}

/// The diff of two plans: empty where they match, else the report on their
/// normal forms with every divergence found between them.
pub fn diff_plan(a: PlanNode, b: PlanNode) -> (r: String)
    ensures
        crate::key::nodes_match(a, b) ==> r@ == Seq::<char>::empty(),
        !crate::key::nodes_match(a, b) ==> exists|na: PlanNode, nb: PlanNode, ds: Seq<Divergence>|
            node_key(na) == node_key(a) && node_key(nb) == node_key(b) && in_normal_form(na)
                && in_normal_form(nb) && ds.len() > 0 && crate::compare::sequence_children_reported(
                na,
                nb,
                Seq::<Divergence>::empty(),
                ds,
                Seq::<usize>::empty(),
            ) && r@ == diff_report(na, nb, ds),
{
    let na = normalize(a);
    let nb = normalize(b);
    match plan_matches(&na, &nb) {
        Ok(()) => String::new(),
        Err(ds) => render_diff(&na, &nb, &ds),
    }
}

/// The text of one compared field of a fetch, as the plan rendering shows it.
pub open spec fn field_value(f: FetchNode, name: FieldName) -> Seq<char> {
    match name {
        FieldName::ServiceName => quoted(f.service_name@),
        FieldName::OperationKind => kind_text(f.operation_kind),
        FieldName::OperationName => opt_quoted(f.operation_name),
        FieldName::VariableUsages => "["@ + quoted_list(f.variable_usages@.map_values(|v: String| v@)) + "]"@,
        FieldName::Requires => "["@ + selections_text(f.requires@) + "]"@,
        FieldName::Operation => quoted(f.operation.text()),
        FieldName::InputRewrites => opt_rewrites_text(f.input_rewrites),
        FieldName::OutputRewrites => opt_rewrites_text(f.output_rewrites),
        FieldName::ContextRewrites => opt_rewrites_text(f.context_rewrites),
        _ => Seq::<char>::empty(),
    }
}

/// The text of one compared field of a fetch.
pub fn field_value_of(f: &FetchNode, name: FieldName) -> (r: String)
    ensures
        r@ == field_value(*f, name),
{
    let mut out = String::new();
    match name {
        FieldName::ServiceName => write_quoted(&mut out, f.service_name.as_str()),
        FieldName::OperationKind => write_kind_text(&mut out, f.operation_kind),
        FieldName::OperationName => write_opt_quoted(&mut out, &f.operation_name),
        FieldName::VariableUsages => {
            push_str(&mut out, "[");
            write_quoted_strings(&mut out, &f.variable_usages);
            push_str(&mut out, "]");
        },
        FieldName::Requires => {
            push_str(&mut out, "[");
            write_selections(&mut out, &f.requires);
            push_str(&mut out, "]");
        },
        FieldName::Operation => write_quoted(&mut out, f.operation.as_serialized()),
        FieldName::InputRewrites => write_opt_rewrites(&mut out, &f.input_rewrites),
        FieldName::OutputRewrites => write_opt_rewrites(&mut out, &f.output_rewrites),
        FieldName::ContextRewrites => write_opt_rewrites(&mut out, &f.context_rewrites),
        _ => {},
    }
    assert(out@ =~= field_value(*f, name));
    out
}

} // verus!
