//! The plan data model: a tagged tree of plan nodes with fetch metadata.
use vstd::prelude::*;
use crate::path::Path;

verus! {

/// GraphQL operation type.
#[derive(Copy, Clone, Debug, PartialEq, Eq, Hash, Default)]
pub enum OperationKind {
    #[default]
    Query,
    Mutation,
    Subscription,
}

/// A selection that is part of a fetch; used to describe required data.
#[derive(Debug)]
pub enum Selection {
    Field(Field),
    InlineFragment(InlineFragment),
}

/// A field selection.
#[derive(Debug)]
pub struct Field {
    pub alias: Option<String>,
    pub name: String,
    pub selections: Option<Vec<Selection>>,
}

impl Field {
    /// The name under which the field appears in a response: its alias, if any.
    pub fn response_name(&self) -> (r: &String)
        ensures
            r == match self.alias {
                Some(a) => &a,
                None => &self.name,
            },
    {
        match &self.alias {
            Some(a) => a,
            None => &self.name,
        }
    }
}

/// An inline fragment selection.
#[derive(Debug)]
pub struct InlineFragment {
    pub type_condition: Option<String>,
    pub selections: Vec<Selection>,
}

/// Sets the value at `path` to `set_value_to` (a JSON value, as text).
#[derive(Clone, Debug, PartialEq)]
pub struct DataValueSetter {
    pub path: Path,
    pub set_value_to: String,
}

/// Renames the key at `path` to `rename_key_to`.
#[derive(Clone, Debug, PartialEq)]
pub struct DataKeyRenamer {
    pub path: Path,
    pub rename_key_to: String,
}

/// A rewrite applied to data flowing into or out of a fetch.
#[derive(Clone, Debug, PartialEq)]
pub enum DataRewrite {
    ValueSetter(DataValueSetter),
    KeyRenamer(DataKeyRenamer),
}

/// The serialized text of a subgraph operation.
#[derive(Clone, Debug, PartialEq)]
pub struct SubgraphOperation {
    serialized: String,
}

impl SubgraphOperation {
    pub closed spec fn text(&self) -> Seq<char> {
        self.serialized@
    }

    pub fn from_string(serialized: String) -> (r: Self)
        ensures
            r.text() == serialized@,
    {
        SubgraphOperation { serialized }
    }

    pub fn as_serialized(&self) -> (r: &str)
        ensures
            r@ == self.text(),
    {
        self.serialized.as_str()
    }
}

/// One request to one backend service.
#[derive(Debug)]
pub struct FetchNode {
    pub service_name: String,
    pub requires: Vec<Selection>,
    pub variable_usages: Vec<String>,
    pub operation: SubgraphOperation,
    pub operation_name: Option<String>,
    pub operation_kind: OperationKind,
    pub id: Option<String>,
    pub input_rewrites: Option<Vec<DataRewrite>>,
    pub output_rewrites: Option<Vec<DataRewrite>>,
    pub context_rewrites: Option<Vec<DataRewrite>>,
}

/// Merges the child's result at `path`.
#[derive(Debug)]
pub struct FlattenNode {
    pub path: Path,
    pub node: Box<PlanNode>,
}

/// The non-deferred part of a defer node.
#[derive(Debug)]
pub struct Primary {
    pub subselection: Option<String>,
    pub node: Option<Box<PlanNode>>,
}

/// A deferred part of a defer node.
#[derive(Debug)]
pub struct DeferredNode {
    pub depends: Vec<Depends>,
    pub label: Option<String>,
    pub query_path: Path,
    pub subselection: Option<String>,
    pub node: Option<Box<PlanNode>>,
}

/// A reference, by id, to a fetch of the primary part.
#[derive(Clone, Debug, PartialEq)]
pub struct Depends {
    pub id: String,
}

/// The subscription part of a subscription node.
#[derive(Clone, Debug, PartialEq)]
pub struct SubscriptionNode {
    pub service_name: String,
    pub variable_usages: Vec<String>,
    pub operation: SubgraphOperation,
    pub operation_name: Option<String>,
    pub operation_kind: OperationKind,
    pub input_rewrites: Option<Vec<DataRewrite>>,
    pub output_rewrites: Option<Vec<DataRewrite>>,
}

/// Query plans are composed of a tree of nodes.
#[derive(Debug)]
pub enum PlanNode {
    /// These nodes must be executed in order.
    Sequence { nodes: Vec<PlanNode> },
    /// These nodes may be executed in parallel.
    Parallel { nodes: Vec<PlanNode> },
    /// Fetch some data from a subgraph.
    Fetch(FetchNode),
    /// Merge the current result set with the response.
    Flatten(FlattenNode),
    Defer { primary: Primary, deferred: Vec<DeferredNode> },
    Subscription { primary: SubscriptionNode, rest: Option<Box<PlanNode>> },
    Condition {
        condition: String,
        if_clause: Option<Box<PlanNode>>,
        else_clause: Option<Box<PlanNode>>,
    },
}

/// The root query plan container.
#[derive(Debug)]
pub struct QueryPlan {
    pub node: Option<Box<PlanNode>>,
}

/// A plan as the legacy planner hands it over.
#[derive(Debug)]
pub struct QueryPlanResult {
    pub formatted_query_plan: Option<String>,
    pub query_plan: QueryPlan,
}

/// The options of a comparison run: where the schema and the operation are,
/// and how the planners are configured.
#[derive(Clone, Debug)]
pub struct PlanArgs {
    pub schema: String,
    pub operation: String,
    pub generate_fragments: bool,
    pub type_conditioned_fetching: bool,
    pub dump_plans: bool,
}

} // verus!
