use shuffle_bench::metrics::{bytes_transferred, count_tasks, sum_bytes_transferred};
use shuffle_bench::plan::{
    Aggregate, AggregateMode, Distribution, GroupBy, GroupKey, KeyExpr, Metric, Operator,
    PlanError, PlanNode,
};
use shuffle_bench::reduce::{
    merge_aggregate, merge_group_by, partial_reduce_below_network_shuffles,
};

fn column(name: &str, index: usize) -> KeyExpr {
    KeyExpr::Column { name: name.to_string(), index }
}

fn aggregate(mode: AggregateMode, keys: &[&str]) -> Aggregate {
    let exprs: Vec<GroupKey> = keys
        .iter()
        .enumerate()
        .map(|(i, k)| GroupKey { expr: column(k, i), alias: k.to_string() })
        .collect();
    let mask = vec![false; exprs.len()];
    Aggregate {
        mode,
        group_by: GroupBy {
            exprs,
            null_exprs: vec![],
            groups: vec![mask],
            has_grouping_set: false,
        },
        functions: vec!["count(Int64(1))".to_string()],
        filters: vec![None],
        input_schema: vec!["RainToday".to_string()],
        input_types: vec!["Utf8".to_string()],
    }
}

fn node(origin: usize, operator: Operator, children: Vec<PlanNode>) -> PlanNode {
    PlanNode { origin: Some(origin), operator, children }
}

fn boundary(origin: usize, input_tasks: usize, children: Vec<PlanNode>) -> PlanNode {
    node(origin, Operator::NetworkBoundary { input_tasks, metrics: None }, children)
}

fn hash(origin: usize, key: &str, children: Vec<PlanNode>) -> PlanNode {
    repartition(origin, Distribution::Hash { exprs: vec![column(key, 0)], partitions: 8 }, children)
}

fn repartition(origin: usize, distribution: Distribution, children: Vec<PlanNode>) -> PlanNode {
    node(origin, Operator::Repartition { distribution, preserve_order: false }, children)
}

fn agg(origin: usize, mode: AggregateMode, keys: &[&str], children: Vec<PlanNode>) -> PlanNode {
    node(origin, Operator::Aggregate(aggregate(mode, keys)), children)
}

fn other(origin: usize, children: Vec<PlanNode>) -> PlanNode {
    node(origin, Operator::Other, children)
}

fn key_text(expr: &KeyExpr) -> String {
    match expr {
        KeyExpr::Column { name, index } => format!("{name}@{index}"),
        KeyExpr::Computed => "computed".to_string(),
    }
}

fn explain_into(plan: &PlanNode, depth: usize, out: &mut String) {
    let text = match &plan.operator {
        Operator::NetworkBoundary { input_tasks, .. } => {
            format!("NetworkBoundary: input_tasks={input_tasks}")
        }
        Operator::Repartition {
            distribution: Distribution::Hash { exprs, partitions }, ..
        } => {
            let exprs: Vec<String> = exprs.iter().map(key_text).collect();
            format!("Repartition: Hash([{}], {partitions})", exprs.join(", "))
        }
        Operator::Repartition { distribution, .. } => format!("Repartition: {distribution:?}"),
        Operator::Aggregate(a) => {
            let keys: Vec<String> = a
                .group_by
                .exprs
                .iter()
                .map(|k| format!("{} as {}", key_text(&k.expr), k.alias))
                .collect();
            format!(
                "Aggregate: mode={:?}, gby=[{}], aggr=[{}]",
                a.mode,
                keys.join(", "),
                a.functions.join(", ")
            )
        }
        Operator::Other => "Other".to_string(),
    };
    out.push_str(&"  ".repeat(depth));
    out.push_str(&text);
    out.push('\n');
    for child in &plan.children {
        explain_into(child, depth + 1, out);
    }
}

fn explain(plan: &PlanNode) -> String {
    let mut out = String::new();
    explain_into(plan, 0, &mut out);
    out
}

/// The plan of `SELECT "RainToday", COUNT(*) FROM weather GROUP BY "RainToday"`.
fn grouped_plan() -> PlanNode {
    let source = other(7, vec![other(8, vec![])]);
    let partial = agg(6, AggregateMode::Partial, &["RainToday"], vec![source]);
    let shuffle = boundary(4, 3, vec![hash(5, "RainToday", vec![partial])]);
    let last = agg(3, AggregateMode::FinalPartitioned, &["RainToday"], vec![shuffle]);
    other(0, vec![boundary(1, 2, vec![other(2, vec![last])])])
}

#[test]
fn grouped_aggregation() {
    let rewritten = partial_reduce_below_network_shuffles(grouped_plan()).unwrap();
    assert_eq!(
        explain(&rewritten),
        "Other
  NetworkBoundary: input_tasks=2
    Other
      Aggregate: mode=FinalPartitioned, gby=[RainToday@0 as RainToday], aggr=[count(Int64(1))]
        NetworkBoundary: input_tasks=3
          Repartition: Hash([RainToday@0], 8)
            Aggregate: mode=PartialReduce, gby=[RainToday@0 as RainToday], aggr=[count(Int64(1))]
              Aggregate: mode=Partial, gby=[RainToday@0 as RainToday], aggr=[count(Int64(1))]
                Other
                  Other
"
    );
}

#[test]
fn non_aggregation() {
    let plan = other(0, vec![boundary(1, 3, vec![other(2, vec![])])]);
    let rewritten = partial_reduce_below_network_shuffles(plan).unwrap();
    let explain = explain(&rewritten);
    assert!(
        !explain.contains("PartialReduce"),
        "PartialReduce should not be present in:\n{explain}"
    );
}

#[test]
fn global_aggregation() {
    let partial = agg(3, AggregateMode::Partial, &[], vec![other(4, vec![])]);
    let coalesced = other(1, vec![boundary(2, 3, vec![partial])]);
    let plan = agg(0, AggregateMode::Final, &[], vec![coalesced]);
    let rewritten = partial_reduce_below_network_shuffles(plan).unwrap();
    let explain = explain(&rewritten);
    assert!(
        !explain.contains("PartialReduce"),
        "PartialReduce should not be present in:\n{explain}"
    );
}

#[test]
fn merging_reads_the_keys_from_the_first_columns() {
    let keys = GroupBy {
        exprs: vec![
            GroupKey { expr: KeyExpr::Computed, alias: "year".to_string() },
            GroupKey { expr: column("city", 7), alias: "town".to_string() },
        ],
        null_exprs: vec![GroupKey { expr: KeyExpr::Computed, alias: "year".to_string() }],
        groups: vec![vec![false, true], vec![false, false]],
        has_grouping_set: true,
    };
    let merged = merge_group_by(&keys);
    assert_eq!(
        format!("{:?}", merged.exprs),
        "[GroupKey { expr: Column { name: \"year\", index: 0 }, alias: \"year\" }, \
         GroupKey { expr: Column { name: \"town\", index: 1 }, alias: \"town\" }]"
    );
    assert_eq!(
        format!("{:?}", merged.null_exprs),
        "[GroupKey { expr: Column { name: \"year\", index: 0 }, alias: \"year\" }]"
    );
    assert_eq!(merged.groups, vec![vec![false, true], vec![false, false]]);
    assert!(merged.has_grouping_set);
    // Merging again changes nothing.
    assert_eq!(format!("{:?}", merge_group_by(&merged)), format!("{merged:?}"));
}

#[test]
fn merging_keeps_functions_filters_and_schema() {
    let mut partial = aggregate(AggregateMode::Partial, &["a"]);
    partial.functions = vec!["sum(x)".to_string(), "min(y)".to_string()];
    partial.filters = vec![Some("x > 1".to_string()), None];
    partial.input_types = vec!["Utf8".to_string(), "Int64".to_string(), "Int64".to_string()];
    partial.input_schema = vec!["a".to_string(), "x".to_string(), "y".to_string()];
    let merged = merge_aggregate(&partial);
    assert_eq!(merged.mode, AggregateMode::PartialReduce);
    assert_eq!(merged.functions, partial.functions);
    assert_eq!(merged.filters, vec![Some("x > 1".to_string()), None]);
    assert_eq!(merged.input_types, partial.input_types);
    assert_eq!(merged.input_schema, partial.input_schema);
}

#[test]
fn rewriting_twice_changes_nothing_more() {
    let once = partial_reduce_below_network_shuffles(grouped_plan()).unwrap();
    let text = format!("{once:?}");
    let twice = partial_reduce_below_network_shuffles(once).unwrap();
    assert_eq!(format!("{twice:?}"), text);
}

#[test]
fn plan_without_boundaries_is_unchanged() {
    let plan = hash(0, "k", vec![agg(1, AggregateMode::Partial, &["k"], vec![other(2, vec![])])]);
    let text = format!("{plan:?}");
    let rewritten = partial_reduce_below_network_shuffles(plan).unwrap();
    assert_eq!(format!("{rewritten:?}"), text);
}

#[test]
fn shuffles_of_other_operators_are_unchanged() {
    let plans = vec![
        // Not a repartition.
        boundary(0, 1, vec![agg(1, AggregateMode::Partial, &["k"], vec![])]),
        // Not a hash repartition.
        boundary(
            0,
            1,
            vec![repartition(
                1,
                Distribution::RoundRobinBatch(4),
                vec![agg(2, AggregateMode::Partial, &["k"], vec![])],
            )],
        ),
        boundary(
            0,
            1,
            vec![repartition(
                1,
                Distribution::Unknown(4),
                vec![agg(2, AggregateMode::Partial, &["k"], vec![])],
            )],
        ),
        // Not an aggregation.
        boundary(0, 1, vec![hash(1, "k", vec![other(2, vec![])])]),
        // Not a partial aggregation.
        boundary(0, 1, vec![hash(1, "k", vec![agg(2, AggregateMode::Single, &["k"], vec![])])]),
        boundary(
            0,
            1,
            vec![hash(1, "k", vec![agg(2, AggregateMode::PartialReduce, &["k"], vec![])])],
        ),
    ];
    for plan in plans {
        let text = format!("{plan:?}");
        let rewritten = partial_reduce_below_network_shuffles(plan).unwrap();
        assert_eq!(format!("{rewritten:?}"), text);
    }
}

#[test]
fn nested_shuffles_are_all_merged() {
    let inner = boundary(
        3,
        2,
        vec![hash(4, "k", vec![agg(5, AggregateMode::Partial, &["k"], vec![other(6, vec![])])])],
    );
    let outer = boundary(
        0,
        4,
        vec![hash(1, "k", vec![agg(2, AggregateMode::Partial, &["k"], vec![inner])])],
    );
    let rewritten = partial_reduce_below_network_shuffles(outer).unwrap();
    assert_eq!(explain(&rewritten).matches("mode=PartialReduce").count(), 2);
    // The root stays, and the inserted operators are the only ones without an origin.
    assert_eq!(rewritten.origin, Some(0));
    assert_eq!(format!("{rewritten:?}").matches("origin: None").count(), 2);
}

#[test]
fn merged_repartition_does_not_keep_the_order() {
    let ordered = |below: PlanNode| {
        let distribution = Distribution::Hash { exprs: vec![KeyExpr::Computed], partitions: 2 };
        let operator = Operator::Repartition { distribution, preserve_order: true };
        boundary(0, 1, vec![node(1, operator, vec![below])])
    };
    let plan = ordered(agg(2, AggregateMode::Partial, &["k"], vec![]));
    let merged = partial_reduce_below_network_shuffles(plan).unwrap();
    assert!(matches!(
        &merged.children[0].operator,
        Operator::Repartition {
            distribution: Distribution::Hash { partitions: 2, .. },
            preserve_order: false,
        }
    ));
    // A repartition below which nothing is inserted stays as it is.
    let plan = ordered(other(2, vec![]));
    let same = partial_reduce_below_network_shuffles(plan).unwrap();
    assert!(matches!(
        &same.children[0].operator,
        Operator::Repartition { preserve_order: true, .. }
    ));
}

fn size(plan: &PlanNode) -> usize {
    1 + plan.children.iter().map(size).sum::<usize>()
}

#[test]
fn one_operator_is_added_per_shuffle() {
    let shuffle = |origin: usize| {
        let partial = agg(origin + 2, AggregateMode::Partial, &["k"], vec![other(0, vec![])]);
        boundary(origin, 1, vec![hash(origin + 1, "k", vec![partial])])
    };
    let plan = || {
        let over = boundary(8, 1, vec![shuffle(9)]);
        other(0, vec![shuffle(1), other(4, vec![shuffle(5)]), over])
    };
    let rewritten = partial_reduce_below_network_shuffles(plan()).unwrap();
    assert_eq!(size(&rewritten), size(&plan()) + 3);
}

#[test]
fn boundaries_need_one_child() {
    let none = partial_reduce_below_network_shuffles(boundary(0, 1, vec![]));
    assert_eq!(none.err(), Some(PlanError::ExpectedOneChild(0)));
    let two = boundary(0, 1, vec![other(1, vec![]), other(2, vec![])]);
    let two = partial_reduce_below_network_shuffles(other(3, vec![two]));
    assert_eq!(two.err(), Some(PlanError::ExpectedOneChild(2)));
    let below = boundary(0, 1, vec![hash(1, "k", vec![])]);
    let below = partial_reduce_below_network_shuffles(below);
    assert_eq!(below.err(), Some(PlanError::ExpectedOneChild(0)));
    // A repartition that is not right below a boundary may have any number of children.
    assert!(partial_reduce_below_network_shuffles(hash(0, "k", vec![])).is_ok());
}

fn counted(input_tasks: usize, metrics: Option<Vec<Metric>>, below: Vec<PlanNode>) -> PlanNode {
    node(0, Operator::NetworkBoundary { input_tasks, metrics }, below)
}

fn custom(name: &str, value: usize) -> Metric {
    Metric::Custom { name: name.to_string(), value }
}

#[test]
fn tasks_and_bytes_are_summed_over_boundaries() {
    let below = counted(3, Some(vec![custom("bytes_transferred", 30)]), vec![]);
    let silent = counted(4, None, vec![]);
    let metrics = vec![
        custom("bytes_transferred", 5),
        custom("rows", 1000),
        Metric::BuiltIn,
        custom("bytes_transferred", 7),
    ];
    let plan = other(9, vec![counted(2, Some(metrics), vec![below, silent])]);
    assert_eq!(count_tasks(&plan), Some(9));
    assert_eq!(sum_bytes_transferred(&plan), Some(42));
    assert_eq!(bytes_transferred(Some(&plan)), Some(42));
    assert_eq!(bytes_transferred(None), Some(0));
}

#[test]
fn totals_that_do_not_fit_are_reported() {
    let plan = counted(usize::MAX, None, vec![counted(1, None, vec![])]);
    assert_eq!(count_tasks(&plan), None);
    let full = Some(vec![custom("bytes_transferred", usize::MAX)]);
    let more = Some(vec![custom("bytes_transferred", 1)]);
    let plan = counted(0, full, vec![counted(0, more, vec![])]);
    assert_eq!(sum_bytes_transferred(&plan), None);
}

#[test]
fn rewriting_keeps_the_totals() {
    let rewritten = partial_reduce_below_network_shuffles(grouped_plan()).unwrap();
    assert_eq!(count_tasks(&rewritten), Some(5));
    assert_eq!(count_tasks(&grouped_plan()), Some(5));
    assert_eq!(sum_bytes_transferred(&rewritten), Some(0));
}
