use qp_compare::operation::normalize_operation;
use qp_compare::plan::{
    DataKeyRenamer, DataRewrite, DataValueSetter, DeferredNode, Depends, FetchNode, FlattenNode, Primary,
    Selection, SubgraphOperation,
};
use qp_compare::{
    check_depends, diff_plan, normalize, plan_matches, roots_match, render_legacy_plan, render_plan, AdaptationFailure, DivergenceKind,
    FieldName, NodeKind, OperationKind, Path, PathElement, PlanNode, QueryPlan, QueryPlanResult,
};

fn fetch_node(service: &str, op: &str) -> FetchNode {
    FetchNode {
        service_name: service.to_string(),
        requires: vec![],
        variable_usages: vec!["id".to_string()],
        operation: SubgraphOperation::from_string(op.to_string()),
        operation_name: None,
        operation_kind: OperationKind::Query,
        id: None,
        input_rewrites: None,
        output_rewrites: None,
        context_rewrites: None,
    }
}

fn fetch(service: &str) -> PlanNode {
    PlanNode::Fetch(fetch_node(service, &format!("{{ {service} {{ id }} }}")))
}

fn renamer(path: &str, to: &str) -> DataRewrite {
    DataRewrite::KeyRenamer(DataKeyRenamer { path: Path::parse(path).unwrap(), rename_key_to: to.to_string() })
}

fn setter(path: &str, value: &str) -> DataRewrite {
    DataRewrite::ValueSetter(DataValueSetter { path: Path::parse(path).unwrap(), set_value_to: value.to_string() })
}

#[test]
fn single_fetch_plans_match() {
    let a = fetch("accounts");
    let b = fetch("accounts");
    assert!(plan_matches(&a, &b).is_ok());
    assert_eq!(diff_plan(a, b), "");
}

#[test]
fn parallel_order_ignored() {
    let a = PlanNode::Parallel { nodes: vec![fetch("accounts"), fetch("products")] };
    let b = PlanNode::Parallel { nodes: vec![fetch("products"), fetch("accounts")] };
    assert!(plan_matches(&a, &b).is_ok());
}

#[test]
fn sequence_order_matters() {
    let a = PlanNode::Sequence { nodes: vec![fetch("accounts"), fetch("products")] };
    let b = PlanNode::Sequence { nodes: vec![fetch("products"), fetch("accounts")] };
    let ds = plan_matches(&a, &b).unwrap_err();
    assert_eq!(ds[0].location, vec![0]);
    assert_eq!(ds[0].kind, DivergenceKind::FieldMismatch { field: FieldName::ServiceName });
    assert!(ds.iter().any(|d| d.location == vec![1]));
}

#[test]
fn unresolved_depends_fails_adaptation() {
    let primary_fetch = || {
        let mut f = fetch_node("accounts", "{ me { id } }");
        f.id = Some("1".to_string());
        f
    };
    let defer = |id: &str, primary_fetch: FetchNode| PlanNode::Defer {
        primary: Primary { subselection: None, node: Some(Box::new(PlanNode::Fetch(primary_fetch))) },
        deferred: vec![DeferredNode {
            depends: vec![Depends { id: id.to_string() }],
            label: None,
            query_path: Path::parse("/me").unwrap(),
            subselection: None,
            node: Some(Box::new(fetch("reviews"))),
        }],
    };
    let a = defer("1", primary_fetch());
    let b = defer("2", primary_fetch());
    assert_eq!(check_depends(&a), Ok(()));
    assert_eq!(check_depends(&b), Err(AdaptationFailure::UnresolvedDepends));
}

#[test]
fn match_is_reflexive_on_a_large_tree() {
    let t = PlanNode::Sequence {
        nodes: vec![
            fetch("accounts"),
            PlanNode::Parallel {
                nodes: vec![
                    PlanNode::Flatten(FlattenNode { path: Path::parse("/me/@").unwrap(), node: Box::new(fetch("reviews")) }),
                    PlanNode::Condition {
                        condition: "cond".to_string(),
                        if_clause: Some(Box::new(fetch("products"))),
                        else_clause: None,
                    },
                ],
            },
        ],
    };
    assert!(plan_matches(&t, &t).is_ok());
}

#[test]
fn kind_mismatch_is_one_divergence() {
    let a = fetch("accounts");
    let b = PlanNode::Sequence { nodes: vec![fetch("accounts")] };
    let ds = plan_matches(&a, &b).unwrap_err();
    assert_eq!(ds.len(), 1);
    assert_eq!(ds[0].kind, DivergenceKind::NodeKindMismatch { expected: NodeKind::Fetch, actual: NodeKind::Sequence });
}

#[test]
fn child_count_mismatch() {
    let a = PlanNode::Sequence { nodes: vec![fetch("accounts")] };
    let b = PlanNode::Sequence { nodes: vec![fetch("accounts"), fetch("products")] };
    let ds = plan_matches(&a, &b).unwrap_err();
    assert_eq!(ds.len(), 1);
    assert_eq!(ds[0].kind, DivergenceKind::ChildCountMismatch { expected: 1, actual: 2 });
}

#[test]
fn parallel_unmatched_member() {
    let a = PlanNode::Parallel { nodes: vec![fetch("accounts"), fetch("products")] };
    let b = PlanNode::Parallel { nodes: vec![fetch("products"), fetch("reviews")] };
    let ds = plan_matches(&a, &b).unwrap_err();
    assert_eq!(ds.len(), 1);
    assert_eq!(ds[0].kind, DivergenceKind::UnmatchedSetMember { index: 0 });
}

#[test]
fn rewrite_order_is_ignored() {
    let mut a = fetch_node("accounts", "{ me { id } }");
    let mut b = fetch_node("accounts", "{ me { id } }");
    a.output_rewrites = Some(vec![renamer("/a", "x"), setter("/b", "1")]);
    b.output_rewrites = Some(vec![setter("/b", "1"), renamer("/a", "x")]);
    assert!(plan_matches(&PlanNode::Fetch(a), &PlanNode::Fetch(b)).is_ok());
}

#[test]
fn extra_renamer_is_one_field_mismatch() {
    let mut a = fetch_node("accounts", "{ me { id } }");
    let mut b = fetch_node("accounts", "{ me { id } }");
    a.output_rewrites = Some(vec![setter("/b", "1")]);
    b.output_rewrites = Some(vec![setter("/b", "1"), renamer("/a", "x")]);
    let ds = plan_matches(&PlanNode::Fetch(a), &PlanNode::Fetch(b)).unwrap_err();
    assert_eq!(ds.len(), 1);
    assert_eq!(ds[0].kind, DivergenceKind::FieldMismatch { field: FieldName::OutputRewrites });
}

#[test]
fn variable_usages_are_a_set() {
    let mut a = fetch_node("accounts", "{ me { id } }");
    let mut b = fetch_node("accounts", "{ me { id } }");
    a.variable_usages = vec!["x".to_string(), "y".to_string()];
    b.variable_usages = vec!["y".to_string(), "x".to_string(), "y".to_string()];
    assert!(plan_matches(&PlanNode::Fetch(a), &PlanNode::Fetch(b)).is_ok());
}

#[test]
fn type_conditions_are_a_set() {
    let a = PlanNode::Flatten(FlattenNode { path: Path::parse("/a|[A,B]/@").unwrap(), node: Box::new(fetch("x")) });
    let b = PlanNode::Flatten(FlattenNode { path: Path::parse("/a|[B,A]/@").unwrap(), node: Box::new(fetch("x")) });
    let c = PlanNode::Flatten(FlattenNode { path: Path::parse("/a|[B]/@").unwrap(), node: Box::new(fetch("x")) });
    assert!(plan_matches(&a, &b).is_ok());
    let ds = plan_matches(&a, &c).unwrap_err();
    assert_eq!(ds[0].kind, DivergenceKind::FieldMismatch { field: FieldName::Path });
}

#[test]
fn operation_formatting_is_ignored() {
    let a = PlanNode::Fetch(fetch_node("accounts", "query Q { me { id name } }"));
    let b = PlanNode::Fetch(fetch_node("accounts", "query Q {\n  me {\n    id\n    name\n  }\n}\n"));
    let c = PlanNode::Fetch(fetch_node("accounts", "query Q { me { name id } }"));
    assert!(plan_matches(&a, &b).is_ok());
    let ds = plan_matches(&a, &c).unwrap_err();
    assert_eq!(ds[0].kind, DivergenceKind::FieldMismatch { field: FieldName::Operation });
}

#[test]
fn operation_is_reprinted() {
    let raw = "query   Q {  me { id } }";
    let printed = normalize_operation(raw);
    assert_ne!(printed, raw);
    assert_eq!(printed, normalize_operation("query Q {\n me {\n id\n }\n}"));
    assert_eq!(normalize_operation("{{{"), "{{{");
}

#[test]
fn render_exact() {
    let t = PlanNode::Sequence {
        nodes: vec![
            fetch("accounts"),
            PlanNode::Flatten(FlattenNode { path: Path(vec![PathElement::Key("me".to_string(), None)]), node: Box::new(fetch("reviews")) }),
        ],
    };
    let expected = "Sequence {\n  Fetch(service: \"accounts\", kind: query, name: -, id: -, variables: [\"id\"], requires: [], input_rewrites: -, output_rewrites: -, context_rewrites: -, operation: \"{ accounts { id } }\")\n  Flatten(path: \"/me\") {\n    Fetch(service: \"reviews\", kind: query, name: -, id: -, variables: [\"id\"], requires: [], input_rewrites: -, output_rewrites: -, context_rewrites: -, operation: \"{ reviews { id } }\")\n  }\n}\n";
    assert_eq!(render_plan(&t), expected);
    let legacy = QueryPlanResult { formatted_query_plan: None, query_plan: QueryPlan { node: Some(Box::new(t)) } };
    assert_eq!(render_legacy_plan(&legacy), expected);
    let empty = QueryPlanResult { formatted_query_plan: None, query_plan: QueryPlan { node: None } };
    assert_eq!(render_legacy_plan(&empty), "");
}

#[test]
fn diff_lists_divergences() {
    let a = PlanNode::Sequence { nodes: vec![fetch("accounts")] };
    let b = PlanNode::Sequence { nodes: vec![fetch("accounts"), fetch("products")] };
    let d = diff_plan(a, b);
    let a = PlanNode::Sequence { nodes: vec![fetch("accounts")] };
    assert!(d.starts_with("--- expected\nSequence {\n"));
    assert!(d.contains("+++ actual\nSequence {\n"));
    assert!(d.contains("at : ChildCountMismatch: 1 vs 2\n  expected:\n    Sequence {\n"));
    let c = PlanNode::Sequence { nodes: vec![fetch("products")] };
    let fa = "    Fetch(service: \"accounts\", kind: query, name: -, id: -, variables: [\"id\"], requires: [], input_rewrites: -, output_rewrites: -, context_rewrites: -, operation: \"{ accounts { id } }\")\n";
    let fc = "    Fetch(service: \"products\", kind: query, name: -, id: -, variables: [\"id\"], requires: [], input_rewrites: -, output_rewrites: -, context_rewrites: -, operation: \"{ products { id } }\")\n";
    let expected = format!(
        "--- expected\nSequence {{\n{}}}\n+++ actual\nSequence {{\n{}}}\n\
         at /0: FieldMismatch: service_name\n  expected:\n{fa}  actual:\n{fc}\
         at /0: FieldMismatch: operation\n  expected:\n{fa}  actual:\n{fc}",
        &fa[2..],
        &fc[2..]
    );
    assert_eq!(diff_plan(a, c), expected);
}

#[test]
fn sequence_of_identical_children_matches_reversed() {
    let a = PlanNode::Sequence { nodes: vec![fetch("accounts"), fetch("accounts")] };
    let b = PlanNode::Sequence { nodes: vec![fetch("accounts"), fetch("accounts")] };
    assert!(plan_matches(&a, &b).is_ok());
}

#[test]
fn missing_branch_is_node_mismatch() {
    let a = PlanNode::Condition { condition: "c".to_string(), if_clause: Some(Box::new(fetch("a"))), else_clause: None };
    let b = PlanNode::Condition { condition: "c".to_string(), if_clause: None, else_clause: None };
    let ds = plan_matches(&a, &b).unwrap_err();
    assert_eq!(ds.len(), 1);
    assert_eq!(ds[0].kind, DivergenceKind::NodeMismatch);
    assert_eq!(ds[0].location, vec![0]);
}

#[test]
fn condition_name_mismatch() {
    let a = PlanNode::Condition { condition: "c".to_string(), if_clause: None, else_clause: None };
    let b = PlanNode::Condition { condition: "d".to_string(), if_clause: None, else_clause: None };
    let ds = plan_matches(&a, &b).unwrap_err();
    assert_eq!(ds[0].kind, DivergenceKind::FieldMismatch { field: FieldName::Condition });
}

fn deferred(path: &str, id: &str, service: &str) -> DeferredNode {
    DeferredNode {
        depends: vec![Depends { id: id.to_string() }],
        label: None,
        query_path: Path::parse(path).unwrap(),
        subselection: None,
        node: Some(Box::new(fetch(service))),
    }
}

#[test]
fn deferred_blocks_are_a_set() {
    let primary = || Primary { subselection: Some("{ me }".to_string()), node: Some(Box::new(fetch("accounts"))) };
    let a = PlanNode::Defer { primary: primary(), deferred: vec![deferred("/me", "0", "x"), deferred("/you", "0", "y")] };
    let b = PlanNode::Defer { primary: primary(), deferred: vec![deferred("/you", "0", "y"), deferred("/me", "0", "x")] };
    let c = PlanNode::Defer { primary: primary(), deferred: vec![deferred("/you", "0", "y"), deferred("/me", "1", "x")] };
    assert!(plan_matches(&a, &b).is_ok());
    let ds = plan_matches(&a, &c).unwrap_err();
    assert_eq!(ds.len(), 1);
    assert_eq!(ds[0].kind, DivergenceKind::UnmatchedSetMember { index: 0 });
}

#[test]
fn subscription_primary_mismatch() {
    let sub = |service: &str| qp_compare::plan::SubscriptionNode {
        service_name: service.to_string(),
        variable_usages: vec![],
        operation: SubgraphOperation::from_string("subscription { s }".to_string()),
        operation_name: None,
        operation_kind: OperationKind::Subscription,
        input_rewrites: None,
        output_rewrites: None,
    };
    let a = PlanNode::Subscription { primary: sub("a"), rest: Some(Box::new(fetch("b"))) };
    let b = PlanNode::Subscription { primary: sub("z"), rest: Some(Box::new(fetch("b"))) };
    let ds = plan_matches(&a, &b).unwrap_err();
    assert_eq!(ds.len(), 1);
    assert_eq!(ds[0].kind, DivergenceKind::FieldMismatch { field: FieldName::Subscription });
}

#[test]
fn empty_and_absent_rewrites_are_alike() {
    let mut a = fetch_node("accounts", "{ me { id } }");
    let b = fetch_node("accounts", "{ me { id } }");
    a.input_rewrites = Some(vec![]);
    assert!(plan_matches(&PlanNode::Fetch(a), &PlanNode::Fetch(b)).is_ok());
}

#[test]
fn fetch_id_is_not_compared() {
    let mut a = fetch_node("accounts", "{ me { id } }");
    let b = fetch_node("accounts", "{ me { id } }");
    a.id = Some("7".to_string());
    assert!(plan_matches(&PlanNode::Fetch(a), &PlanNode::Fetch(b)).is_ok());
}

#[test]
fn requires_selections_compared_in_order() {
    let field = |n: &str| Selection::Field(qp_compare::plan::Field { alias: None, name: n.to_string(), selections: None });
    let mut a = fetch_node("accounts", "{ me { id } }");
    let mut b = fetch_node("accounts", "{ me { id } }");
    a.requires = vec![field("id"), field("name")];
    b.requires = vec![field("name"), field("id")];
    let ds = plan_matches(&PlanNode::Fetch(a), &PlanNode::Fetch(b)).unwrap_err();
    assert_eq!(ds.len(), 1);
    assert_eq!(ds[0].kind, DivergenceKind::FieldMismatch { field: FieldName::Requires });
}

#[test]
fn response_name_prefers_alias() {
    let f = qp_compare::plan::Field { alias: Some("a".to_string()), name: "n".to_string(), selections: None };
    assert_eq!(f.response_name(), "a");
    let g = qp_compare::plan::Field { alias: None, name: "n".to_string(), selections: None };
    assert_eq!(g.response_name(), "n");
}

#[test]
fn render_defer_and_condition() {
    let mut f = fetch_node("accounts", "{ me }");
    f.id = Some("1".to_string());
    let t = PlanNode::Defer {
        primary: Primary { subselection: None, node: Some(Box::new(PlanNode::Fetch(f))) },
        deferred: vec![DeferredNode {
            depends: vec![Depends { id: "1".to_string() }, Depends { id: "2".to_string() }],
            label: Some("L".to_string()),
            query_path: Path::parse("/me").unwrap(),
            subselection: None,
            node: Some(Box::new(PlanNode::Condition { condition: "c".to_string(), if_clause: None, else_clause: None })),
        }],
    };
    let expected = "Defer {\n  Primary(subselection: -) {\n    Fetch(service: \"accounts\", kind: query, name: -, id: \"1\", variables: [\"id\"], requires: [], input_rewrites: -, output_rewrites: -, context_rewrites: -, operation: \"{ me }\")\n  }\n  Deferred(path: \"/me\", depends: [\"1\",\"2\"], label: \"L\", subselection: -) {\n    Condition(if: \"c\") {\n    } else {\n    }\n  }\n}\n";
    assert_eq!(render_plan(&t), expected);
}

#[test]
fn normalize_orders_parallel_children() {
    let t = PlanNode::Parallel { nodes: vec![fetch("products"), fetch("accounts")] };
    let expected = "Parallel {\n  Fetch(service: \"accounts\", kind: query, name: -, id: -, variables: [\"id\"], requires: [], input_rewrites: -, output_rewrites: -, context_rewrites: -, operation: \"{ accounts { id } }\")\n  Fetch(service: \"products\", kind: query, name: -, id: -, variables: [\"id\"], requires: [], input_rewrites: -, output_rewrites: -, context_rewrites: -, operation: \"{ products { id } }\")\n}\n";
    let n = normalize(t);
    assert_eq!(render_plan(&n), expected);
    let again = normalize(n);
    assert_eq!(render_plan(&again), expected);
}

#[test]
fn diff_aligns_parallel_children() {
    let a = PlanNode::Parallel { nodes: vec![fetch("products"), fetch("accounts")] };
    let b = PlanNode::Parallel { nodes: vec![fetch("accounts"), fetch("products"), fetch("reviews")] };
    let d = diff_plan(a, b);
    assert!(d.starts_with("--- expected\nParallel {\n  Fetch(service: \"accounts\""));
    assert!(d.contains("at : ChildCountMismatch: 2 vs 3\n"));
}

#[test]
fn normalize_makes_variable_usages_a_sorted_set() {
    let mut f = fetch_node("accounts", "{ me }");
    f.variable_usages = vec!["y".to_string(), "x".to_string(), "y".to_string(), "ab".to_string()];
    let n = normalize(PlanNode::Fetch(f));
    match &n {
        PlanNode::Fetch(g) => assert_eq!(g.variable_usages, vec!["x".to_string(), "y".to_string(), "ab".to_string()]),
        _ => panic!("normalizing a fetch gives a fetch"),
    }
}

#[test]
fn normalize_sorts_rewrites() {
    let mut f = fetch_node("accounts", "{ me }");
    f.output_rewrites = Some(vec![setter("/b", "1"), renamer("/a", "x")]);
    let n = normalize(PlanNode::Fetch(f));
    match &n {
        PlanNode::Fetch(g) => {
            let rs = g.output_rewrites.as_ref().unwrap();
            assert!(matches!(&rs[0], DataRewrite::KeyRenamer(k) if k.rename_key_to == "x"));
            assert!(matches!(&rs[1], DataRewrite::ValueSetter(v) if v.set_value_to == "1"));
        }
        _ => panic!("normalizing a fetch gives a fetch"),
    }
}

#[test]
fn render_requires_and_rewrites() {
    let mut f = fetch_node("accounts", "{ me }");
    f.requires = vec![
        Selection::Field(qp_compare::plan::Field { alias: Some("a".to_string()), name: "id".to_string(), selections: None }),
        Selection::InlineFragment(qp_compare::plan::InlineFragment {
            type_condition: Some("User".to_string()),
            selections: vec![Selection::Field(qp_compare::plan::Field {
                alias: None,
                name: "name".to_string(),
                selections: Some(vec![]),
            })],
        }),
    ];
    f.output_rewrites = Some(vec![setter("/b", "1"), renamer("/a", "x")]);
    f.context_rewrites = Some(vec![]);
    let expected = "Fetch(service: \"accounts\", kind: query, name: -, id: -, variables: [\"id\"], requires: [a: id, ... on User { name {  } }], input_rewrites: -, output_rewrites: [\"/b\" = 1, \"/a\" -> \"x\"], context_rewrites: [], operation: \"{ me }\")\n";
    assert_eq!(render_plan(&PlanNode::Fetch(f)), expected);
}

#[test]
fn roots_match_handles_empty_plans() {
    assert!(roots_match(None, None).is_ok());
    let a = fetch("accounts");
    let ds = roots_match(Some(&a), None).unwrap_err();
    assert_eq!(ds.len(), 1);
    assert_eq!(ds[0].kind, DivergenceKind::NodeMismatch);
    assert!(roots_match(Some(&a), Some(&fetch("accounts"))).is_ok());
}

#[test]
fn duplicate_dependency_target_fails_adaptation() {
    let with_id = |service: &str| {
        let mut f = fetch_node(service, "{ me { id } }");
        f.id = Some("1".to_string());
        PlanNode::Fetch(f)
    };
    let plan = PlanNode::Defer {
        primary: Primary {
            subselection: None,
            node: Some(Box::new(PlanNode::Sequence { nodes: vec![with_id("a"), with_id("b")] })),
        },
        deferred: vec![deferred("/me", "1", "x")],
    };
    assert_eq!(check_depends(&plan), Err(AdaptationFailure::UnresolvedDepends));
}

#[test]
fn every_differing_sequence_child_is_reported() {
    let a = PlanNode::Sequence { nodes: vec![fetch("a"), fetch("same"), fetch("b")] };
    let b = PlanNode::Sequence { nodes: vec![fetch("x"), fetch("same"), fetch("y")] };
    let ds = plan_matches(&a, &b).unwrap_err();
    assert!(ds.iter().any(|d| d.location == vec![0] && d.kind == DivergenceKind::FieldMismatch { field: FieldName::ServiceName }));
    assert!(ds.iter().any(|d| d.location == vec![2] && d.kind == DivergenceKind::FieldMismatch { field: FieldName::ServiceName }));
    assert!(ds.iter().all(|d| d.location != vec![1]));
}

#[test]
fn field_mismatch_carries_both_values() {
    let a = fetch("accounts");
    let b = fetch("products");
    let ds = plan_matches(&a, &b).unwrap_err();
    assert_eq!(ds[0].kind, DivergenceKind::FieldMismatch { field: FieldName::ServiceName });
    assert_eq!(ds[0].expected, "\"accounts\"");
    assert_eq!(ds[0].actual, "\"products\"");
    assert!(ds[0].location.is_empty());
}
