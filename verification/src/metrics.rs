//! What a plan says of its execution: how many tasks feed its network boundaries, and how many
//! bytes crossed them.

use crate::plan::{metrics_view, Metric, MetricView, Operator, OperatorView, PlanNode, PlanTree};
use crate::reduce::{
    is_shuffle_of_partial, merging_node, reduced, reduced_all, trees,
};
use crate::text::same_text;
use vstd::prelude::*;

verus! {

/// Tasks that feed the operator, if it is a network boundary.
pub open spec fn own_tasks(operator: OperatorView) -> nat {
    match operator {
        OperatorView::NetworkBoundary { input_tasks, .. } => input_tasks as nat,
        _ => 0,
    }
}

/// Tasks that feed the network boundaries of the tree.
pub open spec fn tasks(tree: PlanTree) -> nat
    decreases tree,
{
    own_tasks(tree.operator) + tasks_all(tree.children)
}

/// Tasks that feed the network boundaries of the trees.
pub open spec fn tasks_all(list: Seq<PlanTree>) -> nat
    decreases list,
{
    if list.len() == 0 {
        0
    } else {
        tasks_all(list.drop_last()) + tasks(list.last())
    }
}

/// Bytes that a metric counts as transferred.
pub open spec fn metric_bytes(metric: MetricView) -> nat {
    match metric {
        MetricView::Custom { name, value } => if name == "bytes_transferred"@ {
            value as nat
        } else {
            0
        },
        MetricView::BuiltIn => 0,
    }
}

/// Bytes that a list of metrics counts as transferred.
pub open spec fn metrics_bytes(metrics: Seq<MetricView>) -> nat
    decreases metrics.len(),
{
    if metrics.len() == 0 {
        0
    } else {
        metrics_bytes(metrics.drop_last()) + metric_bytes(metrics.last())
    }
}

/// Bytes transferred across the operator, if it is a network boundary that keeps metrics.
pub open spec fn own_bytes(operator: OperatorView) -> nat {
    match operator {
        OperatorView::NetworkBoundary { metrics: Some(metrics), .. } => metrics_bytes(metrics),
        _ => 0,
    }
}

/// Bytes transferred across the network boundaries of the tree.
pub open spec fn bytes(tree: PlanTree) -> nat
    decreases tree,
{
    own_bytes(tree.operator) + bytes_all(tree.children)
}

/// Bytes transferred across the network boundaries of the trees.
pub open spec fn bytes_all(list: Seq<PlanTree>) -> nat
    decreases list,
{
    if list.len() == 0 {
        0
    } else {
        bytes_all(list.drop_last()) + bytes(list.last())
    }
}

proof fn lemma_tasks_of_prefix(list: Seq<PlanTree>, n: int)
    requires
        0 <= n <= list.len(),
    ensures
        tasks_all(list.take(n)) <= tasks_all(list),
    decreases list.len(),
{
    if n == list.len() {
        assert(list.take(n) =~= list);
    } else {
        assert(list.drop_last().take(n) =~= list.take(n));
        lemma_tasks_of_prefix(list.drop_last(), n);
    }
}

proof fn lemma_bytes_of_prefix(list: Seq<PlanTree>, n: int)
    requires
        0 <= n <= list.len(),
    ensures
        bytes_all(list.take(n)) <= bytes_all(list),
    decreases list.len(),
{
    if n == list.len() {
        assert(list.take(n) =~= list);
    } else {
        assert(list.drop_last().take(n) =~= list.take(n));
        lemma_bytes_of_prefix(list.drop_last(), n);
    }
}

proof fn lemma_metrics_of_prefix(list: Seq<MetricView>, n: int)
    requires
        0 <= n <= list.len(),
    ensures
        metrics_bytes(list.take(n)) <= metrics_bytes(list),
    decreases list.len(),
{
    if n == list.len() {
        assert(list.take(n) =~= list);
    } else {
        assert(list.drop_last().take(n) =~= list.take(n));
        lemma_metrics_of_prefix(list.drop_last(), n);
    }
}

/// Counts the tasks that feed the network boundaries of a plan; `None` if there are more than a
/// `usize` can count.
pub fn count_tasks(plan: &PlanNode) -> (r: Option<usize>)
    ensures
        r == if tasks(plan@) <= usize::MAX {
            Some(tasks(plan@) as usize)
        } else {
            None
        },
    decreases plan,
{
    let mut n: usize = match &plan.operator {
        Operator::NetworkBoundary { input_tasks, .. } => *input_tasks,
        _ => 0,
    };
    let ghost list = plan@.children;
    assert(trees(plan.children@) =~= list);
    let mut i: usize = 0;
    while i < plan.children.len()
        invariant
            i <= plan.children@.len(),
            list == plan@.children,
            list == trees(plan.children@),
            n == own_tasks(plan@.operator) + tasks_all(list.take(i as int)),
        decreases plan.children@.len() - i,
    {
        proof {
            lemma_tasks_of_prefix(list, i + 1);
        }
        assert(list.take(i + 1).drop_last() =~= list.take(i as int));
        assert(list[i as int] == plan.children@[i as int]@);
        let below: usize = match count_tasks(&plan.children[i]) {
            Some(below) => below,
            None => {
                return None;
            },
        };
        n = match n.checked_add(below) {
            Some(sum) => sum,
            None => {
                return None;
            },
        };
        i = i + 1;
    }
    assert(list.take(i as int) =~= list);
    Some(n)
}

/// Sums what the metrics of one operator count as transferred.
fn sum_metrics(metrics: &Vec<Metric>) -> (r: Option<u64>)
    ensures
        r == if metrics_bytes(metrics_view(metrics@)) <= u64::MAX {
            Some(metrics_bytes(metrics_view(metrics@)) as u64)
        } else {
            None
        },
{
    let ghost list = metrics_view(metrics@);
    let mut n: u64 = 0;
    let mut i: usize = 0;
    while i < metrics.len()
        invariant
            i <= metrics@.len(),
            list == metrics_view(metrics@),
            n == metrics_bytes(list.take(i as int)),
        decreases metrics@.len() - i,
    {
        proof {
            lemma_metrics_of_prefix(list, i + 1);
        }
        assert(list.take(i + 1).drop_last() =~= list.take(i as int));
        assert(list[i as int] == metrics@[i as int]@);
        if let Metric::Custom { name, value } = &metrics[i] {
            if same_text(name.as_str(), "bytes_transferred") {
                n = match n.checked_add(*value as u64) {
                    Some(sum) => sum,
                    None => {
                        return None;
                    },
                };
            }
        }
        i = i + 1;
    }
    assert(list.take(i as int) =~= list);
    Some(n)
}

/// Sums the bytes that crossed the network boundaries of a plan, by the metrics named
/// `bytes_transferred` that were recorded at them; `None` if a `u64` cannot hold the sum.
pub fn sum_bytes_transferred(plan: &PlanNode) -> (r: Option<u64>)
    ensures
        r == if bytes(plan@) <= u64::MAX {
            Some(bytes(plan@) as u64)
        } else {
            None
        },
    decreases plan,
{
    let mut n: u64 = 0;
    if let Operator::NetworkBoundary { metrics: Some(metrics), .. } = &plan.operator {
        n = match sum_metrics(metrics) {
            Some(sum) => sum,
            None => {
                return None;
            },
        };
    }
    let ghost list = plan@.children;
    assert(trees(plan.children@) =~= list);
    let mut i: usize = 0;
    while i < plan.children.len()
        invariant
            i <= plan.children@.len(),
            list == plan@.children,
            list == trees(plan.children@),
            n == own_bytes(plan@.operator) + bytes_all(list.take(i as int)),
        decreases plan.children@.len() - i,
    {
        proof {
            lemma_bytes_of_prefix(list, i + 1);
        }
        assert(list.take(i + 1).drop_last() =~= list.take(i as int));
        assert(list[i as int] == plan.children@[i as int]@);
        let below: u64 = match sum_bytes_transferred(&plan.children[i]) {
            Some(below) => below,
            None => {
                return None;
            },
        };
        n = match n.checked_add(below) {
            Some(sum) => sum,
            None => {
                return None;
            },
        };
        i = i + 1;
    }
    assert(list.take(i as int) =~= list);
    Some(n)
}

/// Bytes transferred by a query, from its plan with the metrics of all tasks in it; 0 where there
/// is no such plan.
pub fn bytes_transferred(plan_with_metrics: Option<&PlanNode>) -> (r: Option<u64>)
    ensures
        match plan_with_metrics {
            Some(plan) => r == if bytes(plan@) <= u64::MAX {
                Some(bytes(plan@) as u64)
            } else {
                None
            },
            None => r == Some(0u64),
        },
{
    match plan_with_metrics {
        Some(plan) => sum_bytes_transferred(plan),
        None => Some(0),
    }
}

/// Inserting merging aggregations changes neither the tasks that feed the boundaries of a plan
/// nor the bytes recorded at them.
pub proof fn law_rewrite_keeps_boundary_totals(tree: PlanTree)
    requires
        reduced(tree) is Ok,
    ensures
        tasks(reduced(tree)->Ok_0) == tasks(tree),
        bytes(reduced(tree)->Ok_0) == bytes(tree),
    decreases tree, 0nat,
{
    law_rewrite_keeps_boundary_totals_of_all(tree.children);
    let below = reduced_all(tree.children)->Ok_0;
    let mid = PlanTree { children: below, ..tree };
    if is_shuffle_of_partial(mid) {
        let repartition = below[0];
        let partial = repartition.children[0];
        let inserted = merging_node(partial);
        let result = reduced(tree)->Ok_0;
        lemma_totals_of_one(seq![partial]);
        lemma_totals_of_one(repartition.children);
        lemma_totals_of_one(seq![inserted]);
        lemma_totals_of_one(result.children[0].children);
        lemma_totals_of_one(result.children);
        lemma_totals_of_one(below);
    }
}

/// The same of each tree in a list.
proof fn law_rewrite_keeps_boundary_totals_of_all(list: Seq<PlanTree>)
    requires
        reduced_all(list) is Ok,
    ensures
        tasks_all(reduced_all(list)->Ok_0) == tasks_all(list),
        bytes_all(reduced_all(list)->Ok_0) == bytes_all(list),
    decreases list, 0nat,
{
    if list.len() > 0 {
        law_rewrite_keeps_boundary_totals_of_all(list.drop_last());
        law_rewrite_keeps_boundary_totals(list.last());
        let front = reduced_all(list.drop_last())->Ok_0;
        let last = reduced(list.last())->Ok_0;
        assert(reduced_all(list)->Ok_0 == front.push(last));
        assert(front.push(last).drop_last() =~= front);
    }
}

proof fn lemma_totals_of_one(list: Seq<PlanTree>)
    requires
        list.len() == 1,
    ensures
        tasks_all(list) == tasks(list[0]),
        bytes_all(list) == bytes(list[0]),
{
    assert(list.drop_last() =~= Seq::<PlanTree>::empty());
    reveal_with_fuel(tasks_all, 2);
    reveal_with_fuel(bytes_all, 2);
}

/// Every boundary of a plan counts, however deep it lies and however many children its operators
/// have: the totals of two lists of plans together are the sums of theirs, and the totals of a plan
/// are those of its root and of all its children.
pub proof fn law_every_boundary_counts(a: Seq<PlanTree>, b: Seq<PlanTree>, tree: PlanTree)
    ensures
        tasks_all(a + b) == tasks_all(a) + tasks_all(b),
        tasks_all(seq![tree]) == tasks(tree),
        tasks(tree) == tasks_all(tree.children) + match tree.operator {
            OperatorView::NetworkBoundary { input_tasks, .. } => input_tasks as nat,
            _ => 0,
        },
        bytes_all(a + b) == bytes_all(a) + bytes_all(b),
        bytes_all(seq![tree]) == bytes(tree),
        bytes(tree) == bytes_all(tree.children) + match tree.operator {
            OperatorView::NetworkBoundary { metrics: Some(metrics), .. } => metrics_bytes(metrics),
            _ => 0,
        },
    decreases b.len(),
{
    lemma_totals_of_one(seq![tree]);
    if b.len() == 0 {
        assert(a + b =~= a);
    } else {
        law_every_boundary_counts(a, b.drop_last(), tree);
        assert((a + b).drop_last() =~= a + b.drop_last());
    }
}

/// Every metric of a boundary counts that is called `bytes_transferred`, and no other: the bytes of
/// two lists of metrics together are the sum of theirs.
pub proof fn law_every_transfer_counts(
    a: Seq<MetricView>,
    b: Seq<MetricView>,
    name: Seq<char>,
    value: usize,
)
    ensures
        metrics_bytes(a + b) == metrics_bytes(a) + metrics_bytes(b),
        metrics_bytes(seq![MetricView::BuiltIn]) == 0,
        metrics_bytes(seq![MetricView::Custom { name, value }]) == if name
            == "bytes_transferred"@ {
            value as nat
        } else {
            0
        },
    decreases b.len(),
{
    reveal_with_fuel(metrics_bytes, 2);
    let custom = MetricView::Custom { name, value };
    assert(seq![custom].drop_last() =~= Seq::<MetricView>::empty());
    assert(seq![MetricView::BuiltIn].drop_last() =~= Seq::<MetricView>::empty());
    if b.len() == 0 {
        assert(a + b =~= a);
    } else {
        law_every_transfer_counts(a, b.drop_last(), name, value);
        assert((a + b).drop_last() =~= a + b.drop_last());
    }
}

} // verus!
