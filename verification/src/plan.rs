//! Physical plans as trees of plain values.
//!
//! A [`PlanNode`] holds what the planner and the benchmark runner read of an operator: whether
//! it is a network boundary, how it repartitions, how it aggregates. The operator itself is
//! found again by [`PlanNode::origin`], its position in the table that the tree was made from.

use crate::text::strings_view;
use vstd::prelude::*;

verus! {

/// The stage of an aggregation that an operator performs.
#[derive(Clone, Copy, Debug, PartialEq, Eq, Structural)]
pub enum AggregateMode {
    Partial,
    PartialReduce,
    Final,
    FinalPartitioned,
    Single,
    SinglePartitioned,
}

/// How rows are distributed over the output partitions.
#[derive(Debug)]
pub enum Distribution {
    Hash { exprs: Vec<KeyExpr>, partitions: usize },
    RoundRobinBatch(usize),
    Unknown(usize),
}

/// The expression that a key is computed by.
#[derive(Debug)]
pub enum KeyExpr {
    /// The column at `index` of the input, called `name`.
    Column { name: String, index: usize },
    /// Any other expression.
    Computed,
}

/// A grouping key and the name under which it appears in the output.
#[derive(Debug)]
pub struct GroupKey {
    pub expr: KeyExpr,
    pub alias: String,
}

/// A `GROUP BY` clause, with the null masks of its grouping sets.
#[derive(Debug)]
pub struct GroupBy {
    pub exprs: Vec<GroupKey>,
    pub null_exprs: Vec<GroupKey>,
    pub groups: Vec<Vec<bool>>,
    pub has_grouping_set: bool,
}

/// An aggregation: its stage, its keys and the functions that it computes.
#[derive(Debug)]
pub struct Aggregate {
    pub mode: AggregateMode,
    pub group_by: GroupBy,
    /// The names of the aggregate functions.
    pub functions: Vec<String>,
    /// The `FILTER` clause of each function, where it has one, as it is displayed.
    pub filters: Vec<Option<String>>,
    /// The names of the columns before any aggregation.
    pub input_schema: Vec<String>,
    /// The types of the columns before any aggregation, as they are displayed.
    pub input_types: Vec<String>,
}

/// A metric that an operator recorded.
#[derive(Debug)]
pub enum Metric {
    Custom { name: String, value: usize },
    BuiltIn,
}

/// What an operator does.
#[derive(Debug)]
pub enum Operator {
    /// A boundary across which rows travel between stages: the number of tasks of the stage
    /// that feeds it, and the metrics recorded at it, if it keeps any.
    NetworkBoundary { input_tasks: usize, metrics: Option<Vec<Metric>> },
    /// Distributes rows anew, and may keep the order that they have.
    Repartition { distribution: Distribution, preserve_order: bool },
    Aggregate(Aggregate),
    Other,
}

/// An operator and the operators that feed it.
#[derive(Debug)]
pub struct PlanNode {
    /// The operator's position in the table that the tree was made from; `None` for an operator
    /// that was inserted since.
    pub origin: Option<usize>,
    pub operator: Operator,
    pub children: Vec<PlanNode>,
}

/// Why a plan cannot be rewritten.
#[derive(Clone, Copy, Debug, PartialEq, Eq, Structural)]
pub enum PlanError {
    /// An operator that must have exactly one child has this many.
    ExpectedOneChild(usize),
}

/// The model of [`Distribution`].
pub enum DistributionView {
    Hash { exprs: Seq<KeyExprView>, partitions: usize },
    RoundRobinBatch(usize),
    Unknown(usize),
}

/// The model of [`KeyExpr`].
pub enum KeyExprView {
    Column { name: Seq<char>, index: usize },
    Computed,
}

/// The model of [`GroupKey`].
pub struct GroupKeyView {
    pub expr: KeyExprView,
    pub alias: Seq<char>,
}

/// The model of [`GroupBy`].
#[verifier::ext_equal]
pub struct GroupByView {
    pub exprs: Seq<GroupKeyView>,
    pub null_exprs: Seq<GroupKeyView>,
    pub groups: Seq<Seq<bool>>,
    pub has_grouping_set: bool,
}

/// The model of [`Aggregate`].
#[verifier::ext_equal]
pub struct AggregateView {
    pub mode: AggregateMode,
    pub group_by: GroupByView,
    pub functions: Seq<Seq<char>>,
    pub filters: Seq<Option<Seq<char>>>,
    pub input_schema: Seq<Seq<char>>,
    pub input_types: Seq<Seq<char>>,
}

/// The model of [`Metric`].
pub enum MetricView {
    Custom { name: Seq<char>, value: usize },
    BuiltIn,
}

/// The model of [`Operator`].
#[verifier::ext_equal]
pub enum OperatorView {
    NetworkBoundary { input_tasks: usize, metrics: Option<Seq<MetricView>> },
    Repartition { distribution: DistributionView, preserve_order: bool },
    Aggregate(AggregateView),
    Other,
}

/// The model of [`PlanNode`].
#[verifier::ext_equal]
pub struct PlanTree {
    pub origin: Option<usize>,
    pub operator: OperatorView,
    pub children: Seq<PlanTree>,
}

impl View for Distribution {
    type V = DistributionView;

    open spec fn view(&self) -> DistributionView {
        match self {
            Distribution::Hash { exprs, partitions } => DistributionView::Hash {
                exprs: exprs_view(exprs@),
                partitions: *partitions,
            },
            Distribution::RoundRobinBatch(n) => DistributionView::RoundRobinBatch(*n),
            Distribution::Unknown(n) => DistributionView::Unknown(*n),
        }
    }
}

impl View for KeyExpr {
    type V = KeyExprView;

    open spec fn view(&self) -> KeyExprView {
        match self {
            KeyExpr::Column { name, index } => KeyExprView::Column { name: name@, index: *index },
            KeyExpr::Computed => KeyExprView::Computed,
        }
    }
}

impl View for GroupKey {
    type V = GroupKeyView;

    open spec fn view(&self) -> GroupKeyView {
        GroupKeyView { expr: self.expr@, alias: self.alias@ }
    }
}

/// The views of a list of expressions.
pub open spec fn exprs_view(exprs: Seq<KeyExpr>) -> Seq<KeyExprView> {
    exprs.map_values(|e: KeyExpr| e@)
}

/// The views of a list of grouping keys.
pub open spec fn keys_view(keys: Seq<GroupKey>) -> Seq<GroupKeyView> {
    keys.map_values(|k: GroupKey| k@)
}

/// The views of a list of filters.
pub open spec fn filters_view(filters: Seq<Option<String>>) -> Seq<Option<Seq<char>>> {
    filters.map_values(
        |f: Option<String>|
            match f {
                Some(text) => Some(text@),
                None => None,
            },
    )
}

/// The views of a list of null masks.
pub open spec fn masks_view(groups: Seq<Vec<bool>>) -> Seq<Seq<bool>> {
    groups.map_values(|g: Vec<bool>| g@)
}

/// The views of a list of metrics.
pub open spec fn metrics_view(metrics: Seq<Metric>) -> Seq<MetricView> {
    metrics.map_values(|m: Metric| m@)
}

impl View for GroupBy {
    type V = GroupByView;

    open spec fn view(&self) -> GroupByView {
        GroupByView {
            exprs: keys_view(self.exprs@),
            null_exprs: keys_view(self.null_exprs@),
            groups: masks_view(self.groups@),
            has_grouping_set: self.has_grouping_set,
        }
    }
}

impl View for Aggregate {
    type V = AggregateView;

    open spec fn view(&self) -> AggregateView {
        AggregateView {
            mode: self.mode,
            group_by: self.group_by@,
            functions: strings_view(self.functions@),
            filters: filters_view(self.filters@),
            input_schema: strings_view(self.input_schema@),
            input_types: strings_view(self.input_types@),
        }
    }
}

impl View for Metric {
    type V = MetricView;

    open spec fn view(&self) -> MetricView {
        match self {
            Metric::Custom { name, value } => MetricView::Custom { name: name@, value: *value },
            Metric::BuiltIn => MetricView::BuiltIn,
        }
    }
}

impl View for Operator {
    type V = OperatorView;

    open spec fn view(&self) -> OperatorView {
        match self {
            Operator::NetworkBoundary { input_tasks, metrics } => OperatorView::NetworkBoundary {
                input_tasks: *input_tasks,
                metrics: match metrics {
                    Some(m) => Some(metrics_view(m@)),
                    None => None,
                },
            },
            Operator::Repartition { distribution, preserve_order } => OperatorView::Repartition {
                distribution: distribution@,
                preserve_order: *preserve_order,
            },
            Operator::Aggregate(a) => OperatorView::Aggregate(a@),
            Operator::Other => OperatorView::Other,
        }
    }
}

impl PlanNode {
    /// The tree that the node is the root of.
    pub open spec fn tree(self) -> PlanTree
        decreases self,
    {
        PlanTree {
            origin: self.origin,
            operator: self.operator@,
            children: Seq::new(
                self.children@.len(),
                |i: int|
                    if 0 <= i < self.children@.len() {
                        self.children@[i].tree()
                    } else {
                        arbitrary()
                    },
            ),
        }
    }
}

impl View for PlanNode {
    type V = PlanTree;

    open spec fn view(&self) -> PlanTree {
        self.tree()
    }
}

/// The model of a plan holds what the plan holds, each child at its position.
pub proof fn law_plans_are_seen_as_they_are(node: PlanNode)
    ensures
        node@.origin == node.origin,
        node@.operator == node.operator@,
        node@.children.len() == node.children@.len(),
        forall|i: int|
            0 <= i < node.children@.len() ==> #[trigger] node@.children[i] == node.children@[i]@,
{
}

/// The model of an aggregation holds what the aggregation holds.
pub proof fn law_aggregations_are_seen_as_they_are(aggregate: Aggregate)
    ensures
        aggregate@.mode == aggregate.mode,
        aggregate@.group_by.exprs.len() == aggregate.group_by.exprs@.len(),
        forall|i: int|
            0 <= i < aggregate.group_by.exprs@.len() ==> (
            #[trigger] aggregate@.group_by.exprs[i]).alias == aggregate.group_by.exprs@[i].alias@
                && aggregate@.group_by.exprs[i].expr == aggregate.group_by.exprs@[i].expr@,
        aggregate@.group_by.null_exprs.len() == aggregate.group_by.null_exprs@.len(),
        forall|i: int|
            0 <= i < aggregate.group_by.null_exprs@.len() ==> (
            #[trigger] aggregate@.group_by.null_exprs[i]).alias
                == aggregate.group_by.null_exprs@[i].alias@
                && aggregate@.group_by.null_exprs[i].expr
                == aggregate.group_by.null_exprs@[i].expr@,
        aggregate@.group_by.groups.len() == aggregate.group_by.groups@.len(),
        forall|i: int|
            0 <= i < aggregate.group_by.groups@.len() ==> #[trigger] aggregate@.group_by.groups[i]
                == aggregate.group_by.groups@[i]@,
        aggregate@.group_by.has_grouping_set == aggregate.group_by.has_grouping_set,
        aggregate@.functions.len() == aggregate.functions@.len(),
        forall|i: int|
            0 <= i < aggregate.functions@.len() ==> #[trigger] aggregate@.functions[i]
                == aggregate.functions@[i]@,
        aggregate@.filters.len() == aggregate.filters@.len(),
        forall|i: int|
            0 <= i < aggregate.filters@.len() ==> match aggregate.filters@[i] {
                Some(text) => #[trigger] aggregate@.filters[i] == Some(text@),
                None => aggregate@.filters[i] is None,
            },
        aggregate@.input_schema.len() == aggregate.input_schema@.len(),
        forall|i: int|
            0 <= i < aggregate.input_schema@.len() ==> #[trigger] aggregate@.input_schema[i]
                == aggregate.input_schema@[i]@,
        aggregate@.input_types.len() == aggregate.input_types@.len(),
        forall|i: int|
            0 <= i < aggregate.input_types@.len() ==> #[trigger] aggregate@.input_types[i]
                == aggregate.input_types@[i]@,
{
}

/// The model of an expression says whether it is a column, and which.
pub proof fn law_expressions_are_seen_as_they_are(expr: KeyExpr)
    ensures
        match expr {
            KeyExpr::Column { name, index } => expr@ == (KeyExprView::Column {
                name: name@,
                index,
            }),
            KeyExpr::Computed => expr@ is Computed,
        },
{
}

/// The model of an operator holds what the operator holds.
pub proof fn law_operators_are_seen_as_they_are(operator: Operator)
    ensures
        match operator {
            Operator::NetworkBoundary { input_tasks, metrics } => {
                &&& operator@ matches OperatorView::NetworkBoundary {
                    input_tasks: seen_tasks,
                    metrics: seen,
                }
                &&& seen_tasks == input_tasks
                &&& seen is Some <==> metrics is Some
                &&& metrics is Some ==> {
                    &&& seen->0.len() == metrics->0@.len()
                    &&& forall|i: int|
                        0 <= i < metrics->0@.len() ==> match metrics->0@[i] {
                            Metric::Custom { name, value } => #[trigger] seen->0[i] == (
                            MetricView::Custom { name: name@, value }),
                            Metric::BuiltIn => seen->0[i] is BuiltIn,
                        }
                }
            },
            Operator::Repartition { distribution, preserve_order } => {
                &&& operator@ matches OperatorView::Repartition {
                    distribution: seen,
                    preserve_order: seen_order,
                }
                &&& seen_order == preserve_order
                &&& match distribution {
                    Distribution::Hash { exprs, partitions } => {
                        &&& seen matches DistributionView::Hash {
                            exprs: seen_exprs,
                            partitions: seen_partitions,
                        }
                        &&& seen_partitions == partitions
                        &&& seen_exprs.len() == exprs@.len()
                        &&& forall|i: int|
                            0 <= i < exprs@.len() ==> #[trigger] seen_exprs[i] == exprs@[i]@
                    },
                    Distribution::RoundRobinBatch(n) => seen
                        == DistributionView::RoundRobinBatch(n),
                    Distribution::Unknown(n) => seen == DistributionView::Unknown(n),
                }
            },
            Operator::Aggregate(aggregate) => operator@ == OperatorView::Aggregate(aggregate@),
            Operator::Other => operator@ is Other,
        },
{
}

} // verus!
