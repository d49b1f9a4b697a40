//! Semantic comparison of federated query plans: a plan data model, path
//! syntax, canonical keys for order-insensitive constructs, a normalizer, a
//! matcher that localizes divergences, a dependency check, and a
//! deterministic renderer of plans and diffs.

pub mod text;
pub mod path;
pub mod operation;
pub mod plan;
pub mod order;
pub mod key;
pub mod compare;
pub mod laws;
pub mod validate;
pub mod normalize;
pub mod render;

pub use crate::compare::{plan_matches, roots_match, Divergence, DivergenceKind, FieldName, NodeKind};
pub use crate::path::{Path, PathElement, PathError};
pub use crate::plan::{OperationKind, PlanArgs, PlanNode, QueryPlan, QueryPlanResult};
pub use crate::normalize::normalize;
pub use crate::render::{diff_plan, render_diff, render_legacy_plan, render_plan};
pub use crate::validate::{check_depends, AdaptationFailure};
