use datafusion::arrow::datatypes::{DataType, Field, Schema, SchemaRef};
use datafusion::common::DataFusionError;
use datafusion::functions_aggregate::count::count_udaf;
use datafusion::physical_expr::aggregate::AggregateExprBuilder;
use datafusion::physical_expr::Partitioning;
use datafusion::physical_plan::aggregates::{AggregateExec, AggregateMode, PhysicalGroupBy};
use datafusion::physical_plan::empty::EmptyExec;
use datafusion::physical_plan::expressions::{lit, Column};
use datafusion::physical_plan::repartition::RepartitionExec;
use datafusion::physical_plan::{ExecutionPlan, PhysicalExpr};
use shuffle_bench::physical::{
    can_merge_below, feeding_aggregate, have_fitting_filters, merge_below_repartition,
    merging_clause, read_aggregate, read_group_by, read_repartition, repartition_merging,
};
use shuffle_bench::plan;
use shuffle_bench::plan::{Operator, PlanNode};
use shuffle_bench::reduce::partial_reduce_below_network_shuffles;
use std::sync::Arc;

fn schema() -> SchemaRef {
    Arc::new(Schema::new(vec![
        Field::new("v", DataType::Int64, true),
        Field::new("city", DataType::Utf8, true),
    ]))
}

fn column(name: &str, index: usize) -> Arc<dyn PhysicalExpr> {
    Arc::new(Column::new(name, index))
}

fn aggregate(mode: AggregateMode, group_by: PhysicalGroupBy) -> AggregateExec {
    let count = AggregateExprBuilder::new(count_udaf(), vec![column("v", 0)])
        .schema(schema())
        .alias("count(v)")
        .build()
        .unwrap();
    let filtered = AggregateExprBuilder::new(count_udaf(), vec![column("v", 0)])
        .schema(schema())
        .alias("filtered(v)")
        .build()
        .unwrap();
    AggregateExec::try_new(
        mode,
        group_by,
        vec![Arc::new(count), Arc::new(filtered)],
        vec![None, Some(lit(true))],
        Arc::new(EmptyExec::new(schema())),
        schema(),
    )
    .unwrap()
}

fn by_city() -> PhysicalGroupBy {
    PhysicalGroupBy::new_single(vec![(column("city", 1), "town".to_string())])
}

fn hashed(input: AggregateExec) -> RepartitionExec {
    let partitioning = Partitioning::Hash(vec![column("town", 0)], 8);
    RepartitionExec::try_new(Arc::new(input), partitioning).unwrap()
}

fn input(plan: &dyn ExecutionPlan) -> &AggregateExec {
    plan.children()[0].as_any().downcast_ref::<AggregateExec>().unwrap()
}

fn filters() -> Vec<Option<String>> {
    vec![None, Some("true".to_string())]
}

#[test]
fn texts_must_fit_the_filters() {
    let partial = aggregate(AggregateMode::Partial, by_city());
    assert!(have_fitting_filters(&partial, &filters()));
    assert!(!have_fitting_filters(&partial, &vec![None, None]));
    assert!(!have_fitting_filters(&partial, &vec![Some("x".to_string()), None]));
    assert!(!have_fitting_filters(&partial, &vec![None]));
}

#[test]
fn aggregation_is_read() {
    let read = read_aggregate(&aggregate(AggregateMode::Partial, by_city()), filters());
    assert_eq!(read.mode, plan::AggregateMode::Partial);
    assert_eq!(
        format!("{:?}", read.group_by.exprs),
        "[GroupKey { expr: Column { name: \"city\", index: 1 }, alias: \"town\" }]"
    );
    assert_eq!(read.group_by.groups, vec![vec![false]]);
    assert!(read.group_by.null_exprs.is_empty());
    assert!(!read.group_by.has_grouping_set);
    assert_eq!(read.functions, vec!["count(v)", "filtered(v)"]);
    assert_eq!(read.filters, filters());
    assert_eq!(read.input_schema, vec!["v", "city"]);
    assert_eq!(read.input_types, vec!["Int64", "Utf8"]);
}

#[test]
fn modes_are_read() {
    let modes = vec![
        (AggregateMode::Partial, plan::AggregateMode::Partial),
        (AggregateMode::Final, plan::AggregateMode::Final),
        (AggregateMode::FinalPartitioned, plan::AggregateMode::FinalPartitioned),
        (AggregateMode::Single, plan::AggregateMode::Single),
        (AggregateMode::SinglePartitioned, plan::AggregateMode::SinglePartitioned),
        (AggregateMode::PartialReduce, plan::AggregateMode::PartialReduce),
    ];
    for (mode, expected) in modes {
        assert_eq!(read_aggregate(&aggregate(mode, by_city()), filters()).mode, expected);
    }
}

#[test]
fn repartitions_are_read() {
    let partial = || aggregate(AggregateMode::Partial, by_city());
    assert_eq!(
        format!("{:?}", read_repartition(&hashed(partial()))),
        "Repartition { distribution: Hash { exprs: [Column { name: \"town\", index: 0 }], \
         partitions: 8 }, preserve_order: false }"
    );
    let round = RepartitionExec::try_new(Arc::new(partial()), Partitioning::RoundRobinBatch(3));
    assert!(matches!(
        read_repartition(&round.unwrap()),
        Operator::Repartition { distribution: plan::Distribution::RoundRobinBatch(3), .. }
    ));
    let unknown =
        RepartitionExec::try_new(Arc::new(partial()), Partitioning::UnknownPartitioning(2));
    assert!(matches!(
        read_repartition(&unknown.unwrap()),
        Operator::Repartition { distribution: plan::Distribution::Unknown(2), .. }
    ));
}

#[test]
fn computed_keys_and_grouping_sets_are_read() {
    let clause = PhysicalGroupBy::new(
        vec![(lit(1), "one".to_string()), (column("city", 1), "town".to_string())],
        vec![(lit(2), "none".to_string()), (column("v", 0), "nothing".to_string())],
        vec![vec![true, false], vec![false, true]],
        true,
    );
    let read = read_group_by(&clause);
    assert_eq!(
        format!("{:?}", read.exprs),
        "[GroupKey { expr: Computed, alias: \"one\" }, \
         GroupKey { expr: Column { name: \"city\", index: 1 }, alias: \"town\" }]"
    );
    assert_eq!(
        format!("{:?}", read.null_exprs),
        "[GroupKey { expr: Computed, alias: \"none\" }, \
         GroupKey { expr: Column { name: \"v\", index: 0 }, alias: \"nothing\" }]"
    );
    assert_eq!(read.groups, vec![vec![true, false], vec![false, true]]);
    assert!(read.has_grouping_set);
    let merging = read_group_by(&merging_clause(&clause));
    assert_eq!(
        format!("{:?}", merging.exprs),
        "[GroupKey { expr: Column { name: \"one\", index: 0 }, alias: \"one\" }, \
         GroupKey { expr: Column { name: \"town\", index: 1 }, alias: \"town\" }]"
    );
    assert_eq!(
        format!("{:?}", merging.null_exprs),
        "[GroupKey { expr: Column { name: \"none\", index: 0 }, alias: \"none\" }, \
         GroupKey { expr: Column { name: \"nothing\", index: 1 }, alias: \"nothing\" }]"
    );
    assert_eq!(merging.groups, vec![vec![true, false], vec![false, true]]);
    assert!(merging.has_grouping_set);
}

#[test]
fn merging_aggregation_is_built_below_a_repartition() {
    let old = hashed(aggregate(AggregateMode::Partial, by_city()));
    assert!(can_merge_below(&old));
    let new = merge_below_repartition(&old).unwrap().unwrap();
    assert_eq!(format!("{:?}", read_repartition(&new)), format!("{:?}", read_repartition(&old)));
    let merging = input(&new);
    let read = read_aggregate(merging, filters());
    assert_eq!(read.mode, plan::AggregateMode::PartialReduce);
    assert_eq!(
        format!("{:?}", read.group_by.exprs),
        "[GroupKey { expr: Column { name: \"town\", index: 0 }, alias: \"town\" }]"
    );
    assert_eq!(read.functions, vec!["count(v)", "filtered(v)"]);
    // The functions, filters and schema are those of the partial aggregation.
    let partial = input(&old);
    assert_eq!(merging.aggr_expr().len(), 2);
    for (left, right) in merging.aggr_expr().iter().zip(partial.aggr_expr()) {
        assert!(Arc::ptr_eq(left, right));
    }
    assert!(merging.filter_expr()[0].is_none());
    let filter = |aggregate: &AggregateExec| aggregate.filter_expr()[1].clone().unwrap();
    assert!(Arc::ptr_eq(&filter(merging), &filter(partial)));
    assert_eq!(merging.input_schema(), partial.input_schema());
    // So is the way that rows are distributed.
    assert_eq!(new.partitioning().to_string(), old.partitioning().to_string());
    // The partial aggregation feeds the merging one.
    assert!(Arc::ptr_eq(merging.input(), old.input()));
    let fed = feeding_aggregate(merging).unwrap();
    assert_eq!(*fed.mode(), AggregateMode::Partial);
    assert!(feeding_aggregate(fed).is_none());
    assert!(!new.preserve_order());
    // Nothing is inserted a second time.
    assert!(can_merge_below(&new));
    assert!(merge_below_repartition(&new).unwrap().is_none());
}

/// A network boundary over a repartition that an aggregation feeds.
fn shown(repartition: &RepartitionExec) -> PlanNode {
    let aggregate = PlanNode {
        origin: None,
        operator: Operator::Aggregate(read_aggregate(input(repartition), filters())),
        children: vec![],
    };
    let below = PlanNode {
        origin: None,
        operator: read_repartition(repartition),
        children: vec![aggregate],
    };
    PlanNode {
        origin: None,
        operator: Operator::NetworkBoundary { input_tasks: 1, metrics: None },
        children: vec![below],
    }
}

#[test]
fn rewrite_shows_the_operators_that_are_built() {
    let old = hashed(aggregate(AggregateMode::Partial, by_city()));
    let new = merge_below_repartition(&old).unwrap().unwrap();
    let rewritten = partial_reduce_below_network_shuffles(shown(&old)).unwrap();
    let built = shown(&new);
    let (left, right) = (&rewritten.children[0], &built.children[0]);
    assert_eq!(format!("{:?}", left.operator), format!("{:?}", right.operator));
    let (left, right) = (&left.children[0], &right.children[0]);
    assert_eq!(format!("{:?}", left.operator), format!("{:?}", right.operator));
}

#[test]
fn grouping_sets_are_merged() {
    let clause = PhysicalGroupBy::new(
        vec![(column("city", 1), "town".to_string())],
        vec![(lit("x"), "town".to_string())],
        vec![vec![false], vec![true]],
        true,
    );
    let old = hashed(aggregate(AggregateMode::Partial, clause));
    let new = merge_below_repartition(&old).unwrap().unwrap();
    let read = read_aggregate(input(&new), filters());
    assert_eq!(read.group_by.groups, vec![vec![false], vec![true]]);
    assert!(read.group_by.has_grouping_set);
}

#[test]
fn other_repartitions_are_left_alone() {
    let complete = hashed(aggregate(AggregateMode::Single, by_city()));
    assert!(merge_below_repartition(&complete).unwrap().is_none());
    let partial = aggregate(AggregateMode::Partial, by_city());
    let round = RepartitionExec::try_new(Arc::new(partial), Partitioning::RoundRobinBatch(3));
    assert!(merge_below_repartition(&round.unwrap()).unwrap().is_none());
    let partitioning = Partitioning::Hash(vec![column("city", 1)], 8);
    let plain = RepartitionExec::try_new(Arc::new(EmptyExec::new(schema())), partitioning);
    assert!(merge_below_repartition(&plain.unwrap()).unwrap().is_none());
}

fn masked(mask: Vec<bool>) -> RepartitionExec {
    let clause = PhysicalGroupBy::new(
        vec![(column("city", 1), "town".to_string())],
        vec![],
        vec![mask],
        false,
    );
    hashed(aggregate(AggregateMode::Partial, clause))
}

#[test]
fn masks_must_fit_the_keys() {
    assert!(!can_merge_below(&masked(vec![])));
    assert!(can_merge_below(&masked(vec![true])));
    // A mask may go on beyond the keys, as long as it has no null there.
    let long = masked(vec![false, false]);
    assert!(can_merge_below(&long));
    let new = merge_below_repartition(&long).unwrap().unwrap();
    assert_eq!(read_group_by(input(&new).group_expr()).groups, vec![vec![false, false]]);
}

#[test]
fn error_of_the_engine_is_handed_on() {
    let old = hashed(aggregate(AggregateMode::Partial, by_city()));
    let error = DataFusionError::Collection(vec![]);
    let result = repartition_merging(Err(error), &old);
    assert!(matches!(result, Err(DataFusionError::Collection(errors)) if errors.is_empty()));
    let single = aggregate(AggregateMode::Single, by_city());
    let new = repartition_merging(Ok(single), &old).unwrap().unwrap();
    assert_eq!(*input(&new).mode(), AggregateMode::Single);
}
