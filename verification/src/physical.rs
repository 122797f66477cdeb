//! The operators of the query engine that a plan is made of.
//!
//! [`read_aggregate`] and [`read_repartition`] show an operator as the plain values of
//! [`crate::plan`]. [`merge_below_repartition`] builds the operators that the rewrite of
//! [`crate::reduce`] inserts. What the engine does is stated here and not proved.

use crate::plan::{
    filters_view, keys_view, masks_view, Aggregate, AggregateMode, AggregateView, Distribution,
    DistributionView, GroupBy, GroupByView, GroupKey, GroupKeyView, KeyExpr, KeyExprView, Operator,
    OperatorView, PlanError, PlanTree,
};
use crate::reduce::{
    is_boundary, is_shuffle_of_partial, merge_group_by, merging_group_by, reduced_root,
};
use crate::text::strings_view;
use datafusion::arrow::datatypes::Schema;
use datafusion::common::DataFusionError;
use datafusion::physical_expr::aggregate::AggregateFunctionExpr;
use datafusion::physical_expr::Partitioning;
use datafusion::physical_plan::aggregates::{self, AggregateExec, PhysicalGroupBy};
use datafusion::physical_plan::expressions::Column;
use datafusion::physical_plan::repartition::RepartitionExec;
use datafusion::physical_plan::PhysicalExpr;
use std::sync::Arc;
use vstd::prelude::*;

verus! {

/// `datafusion::physical_plan::expressions::Column`: a column of the input, as an expression.
#[verifier::external_type_specification]
#[verifier::external_body]
pub struct ExColumn(datafusion::physical_plan::expressions::Column);

/// `datafusion::physical_plan::aggregates::PhysicalGroupBy`: a `GROUP BY` clause.
#[verifier::external_type_specification]
#[verifier::external_body]
pub struct ExPhysicalGroupBy(PhysicalGroupBy);

/// `datafusion::physical_plan::aggregates::AggregateExec`: an operator that aggregates.
#[verifier::external_type_specification]
#[verifier::external_body]
pub struct ExAggregateExec(AggregateExec);

/// `datafusion::physical_plan::repartition::RepartitionExec`: an operator that distributes its
/// rows anew.
#[verifier::external_type_specification]
#[verifier::external_body]
pub struct ExRepartitionExec(RepartitionExec);

/// `datafusion::physical_expr::aggregate::AggregateFunctionExpr`: an aggregate function with its
/// arguments.
#[verifier::external_type_specification]
#[verifier::external_body]
pub struct ExAggregateFunctionExpr(AggregateFunctionExpr);

/// `datafusion::arrow::datatypes::Schema`: columns with their names and types.
#[verifier::external_type_specification]
#[verifier::external_body]
pub struct ExSchema(Schema);

/// `datafusion::physical_expr::Partitioning`: a way to distribute rows.
#[verifier::external_type_specification]
#[verifier::external_body]
pub struct ExPartitioning(Partitioning);

/// The name and the position of a column.
pub uninterp spec fn column_of(column: Column) -> (Seq<char>, usize);

/// What a `GROUP BY` clause holds.
pub uninterp spec fn group_by_of(group_by: PhysicalGroupBy) -> GroupByView;

/// The stage that an aggregation performs.
pub uninterp spec fn mode_of(aggregate: AggregateExec) -> AggregateMode;

/// The `GROUP BY` clause of an aggregation.
pub uninterp spec fn clause_of(aggregate: AggregateExec) -> PhysicalGroupBy;

/// The functions of an aggregation.
pub uninterp spec fn functions_of(aggregate: AggregateExec) -> Seq<Arc<AggregateFunctionExpr>>;

/// The filter of each function of an aggregation, where it has one. The number stands for the
/// expression: the same expression has the same number, and nothing else is said of it.
pub uninterp spec fn filters_of(aggregate: AggregateExec) -> Seq<Option<nat>>;

/// The schema of an aggregation before anything is aggregated.
pub uninterp spec fn input_schema_of(aggregate: AggregateExec) -> Schema;

/// The aggregation that feeds an aggregation, if it is fed by one.
pub uninterp spec fn input_of_aggregate(aggregate: AggregateExec) -> Option<AggregateExec>;

/// The name of an aggregate function.
pub uninterp spec fn function_name(function: AggregateFunctionExpr) -> Seq<char>;

/// The names of the columns of a schema.
pub uninterp spec fn column_names(schema: Schema) -> Seq<Seq<char>>;

/// The types of the columns of a schema, as they are displayed.
pub uninterp spec fn column_types(schema: Schema) -> Seq<Seq<char>>;

/// How a repartition distributes its rows.
pub uninterp spec fn scheme_of(repartition: RepartitionExec) -> Partitioning;

/// What a way to distribute rows holds.
pub uninterp spec fn scheme_view(scheme: Partitioning) -> DistributionView;

/// Whether a repartition keeps the order of its rows.
pub uninterp spec fn keeps_order(repartition: RepartitionExec) -> bool;

/// The aggregation that feeds a repartition, if it is fed by one.
pub uninterp spec fn input_of_repartition(repartition: RepartitionExec) -> Option<AggregateExec>;

/// Whether the engine builds the aggregation in mode `mode`, by the columns of `group_by`, with the
/// given functions and schema and the filters of `partial`, over what feeds `repartition`.
pub uninterp spec fn builds_aggregate(
    mode: AggregateMode,
    group_by: GroupByView,
    functions: Seq<Arc<AggregateFunctionExpr>>,
    schema: Schema,
    partial: AggregateExec,
    repartition: RepartitionExec,
) -> bool;

/// `reply` is one that the engine gives when it is asked for that aggregation. It may give several:
/// the text of an error is up to the functions.
pub uninterp spec fn replies_with(
    mode: AggregateMode,
    group_by: GroupByView,
    functions: Seq<Arc<AggregateFunctionExpr>>,
    schema: Schema,
    partial: AggregateExec,
    repartition: RepartitionExec,
    reply: Result<AggregateExec, DataFusionError>,
) -> bool;

/// `Column::new`: the column with the given name and position.
pub assume_specification[ datafusion::physical_plan::expressions::Column::new ](
    name: &str,
    index: usize,
) -> (r: datafusion::physical_plan::expressions::Column)
    ensures
        column_of(r) == (name@, index),
;

/// `AggregateExec::group_expr`: the `GROUP BY` clause of an aggregation.
pub assume_specification[ AggregateExec::group_expr ](aggregate: &AggregateExec) -> (r:
    &PhysicalGroupBy)
    ensures
        *r == clause_of(*aggregate),
;

/// `PhysicalGroupBy::has_grouping_set`: whether the clause uses grouping sets.
pub assume_specification[ PhysicalGroupBy::has_grouping_set ](group_by: &PhysicalGroupBy) -> (r:
    bool)
    ensures
        r == group_by_of(*group_by).has_grouping_set,
;

/// `PhysicalGroupBy::expr`: the keys of the clause. A key that is a column is read as one.
#[verifier::external_body]
fn group_keys(group_by: &PhysicalGroupBy) -> (r: Vec<GroupKey>)
    ensures
        keys_view(r@) == group_by_of(*group_by).exprs,
{
    let keys = group_by.expr().iter().map(|(expr, alias)| GroupKey {
        expr: match expr.as_any().downcast_ref::<Column>() {
            Some(c) => KeyExpr::Column { name: c.name().to_string(), index: c.index() },
            None => KeyExpr::Computed,
        },
        alias: alias.clone(),
    });
    keys.collect()
}

/// `PhysicalGroupBy::null_expr`: the nulls that stand for the keys of the clause. One that is a
/// column is read as one.
#[verifier::external_body]
fn null_keys(group_by: &PhysicalGroupBy) -> (r: Vec<GroupKey>)
    ensures
        keys_view(r@) == group_by_of(*group_by).null_exprs,
{
    let keys = group_by.null_expr().iter().map(|(expr, alias)| GroupKey {
        expr: match expr.as_any().downcast_ref::<Column>() {
            Some(c) => KeyExpr::Column { name: c.name().to_string(), index: c.index() },
            None => KeyExpr::Computed,
        },
        alias: alias.clone(),
    });
    keys.collect()
}

/// `PhysicalGroupBy::groups`: the null masks of the grouping sets.
#[verifier::external_body]
fn group_masks(group_by: &PhysicalGroupBy) -> (r: Vec<Vec<bool>>)
    ensures
        masks_view(r@) == group_by_of(*group_by).groups,
{
    group_by.groups().to_vec()
}

/// `AggregateExec::mode`: the stage that an aggregation performs.
#[verifier::external_body]
fn aggregate_mode(aggregate: &AggregateExec) -> (r: AggregateMode)
    ensures
        r == mode_of(*aggregate),
{
    match aggregate.mode() {
        aggregates::AggregateMode::Partial => AggregateMode::Partial,
        aggregates::AggregateMode::PartialReduce => AggregateMode::PartialReduce,
        aggregates::AggregateMode::Final => AggregateMode::Final,
        aggregates::AggregateMode::FinalPartitioned => AggregateMode::FinalPartitioned,
        aggregates::AggregateMode::Single => AggregateMode::Single,
        aggregates::AggregateMode::SinglePartitioned => AggregateMode::SinglePartitioned,
    }
}

/// `AggregateExec::aggr_expr`: the functions of an aggregation.
pub assume_specification[ AggregateExec::aggr_expr ](aggregate: &AggregateExec) -> (r: &[Arc<
    AggregateFunctionExpr,
>])
    ensures
        r@ == functions_of(*aggregate),
;

/// `AggregateFunctionExpr::name`: the name of an aggregate function.
pub assume_specification[ AggregateFunctionExpr::name ](function: &AggregateFunctionExpr) -> (r:
    &str)
    ensures
        r@ == function_name(*function),
;

/// `AggregateExec::input_schema`: the schema before anything is aggregated.
pub assume_specification[ AggregateExec::input_schema ](aggregate: &AggregateExec) -> (r: Arc<
    Schema,
>)
    ensures
        *r == input_schema_of(*aggregate),
;

/// `Schema::fields`: the columns of a schema, by their names.
#[verifier::external_body]
fn schema_columns(schema: &Schema) -> (r: Vec<String>)
    ensures
        strings_view(r@) == column_names(*schema),
{
    schema.fields().iter().map(|field| field.name().clone()).collect()
}

/// `DataType` as `ToString::to_string` shows it, of each column of a schema.
#[verifier::external_body]
fn schema_types(schema: &Schema) -> (r: Vec<String>)
    ensures
        strings_view(r@) == column_types(*schema),
{
    schema.fields().iter().map(|field| field.data_type().to_string()).collect()
}

/// `AggregateExec::filter_expr`: whether each function of an aggregation has a filter.
#[verifier::external_body]
fn aggregate_filtered(aggregate: &AggregateExec) -> (r: Vec<bool>)
    ensures
        r@ == filters_of(*aggregate).map_values(|f: Option<nat>| f is Some),
{
    aggregate.filter_expr().iter().map(|filter| filter.is_some()).collect()
}

/// `AggregateExec::input`: the operator that feeds an aggregation, where that is an aggregation.
#[verifier::external_body]
fn aggregate_input(aggregate: &AggregateExec) -> (r: Option<&AggregateExec>)
    ensures
        match r {
            Some(input) => input_of_aggregate(*aggregate) == Some(*input),
            None => input_of_aggregate(*aggregate) is None,
        },
{
    aggregate.input().as_any().downcast_ref::<AggregateExec>()
}

/// `RepartitionExec::preserve_order`: whether a repartition keeps the order of its rows.
pub assume_specification[ RepartitionExec::preserve_order ](repartition: &RepartitionExec) -> (r:
    bool)
    ensures
        r == keeps_order(*repartition),
;

/// `RepartitionExec::partitioning`: how a repartition distributes its rows.
pub assume_specification[ RepartitionExec::partitioning ](repartition: &RepartitionExec) -> (r:
    &Partitioning)
    ensures
        *r == scheme_of(*repartition),
;

/// The variants of `datafusion::physical_expr::Partitioning`. A hashed expression that is a column
/// is read as one.
#[verifier::external_body]
fn read_scheme(scheme: &Partitioning) -> (r: Distribution)
    ensures
        r@ == scheme_view(*scheme),
{
    match scheme {
        Partitioning::RoundRobinBatch(n) => Distribution::RoundRobinBatch(*n),
        Partitioning::UnknownPartitioning(n) => Distribution::Unknown(*n),
        Partitioning::Hash(exprs, n) => Distribution::Hash {
            exprs: exprs.iter().map(|e| match e.as_any().downcast_ref::<Column>() {
                Some(c) => KeyExpr::Column { name: c.name().to_string(), index: c.index() },
                None => KeyExpr::Computed,
            }).collect(),
            partitions: *n,
        },
    }
}

/// `RepartitionExec::input`: the operator that feeds a repartition, where that is an aggregation.
#[verifier::external_body]
fn repartition_input(repartition: &RepartitionExec) -> (r: Option<&AggregateExec>)
    ensures
        match r {
            Some(aggregate) => input_of_repartition(*repartition) == Some(*aggregate),
            None => input_of_repartition(*repartition) is None,
        },
{
    repartition.input().as_any().downcast_ref::<AggregateExec>()
}

/// The keys that columns and the names given to them make.
pub open spec fn column_keys(columns: Seq<(Column, String)>) -> Seq<GroupKeyView> {
    columns.map_values(
        |c: (Column, String)|
            GroupKeyView {
                expr: KeyExprView::Column { name: column_of(c.0).0, index: column_of(c.0).1 },
                alias: c.1@,
            },
    )
}

/// `PhysicalGroupBy::new`: the clause with the given keys, nulls and masks.
#[verifier::external_body]
fn new_group_by(
    exprs: Vec<(Column, String)>,
    null_exprs: Vec<(Column, String)>,
    groups: Vec<Vec<bool>>,
    has_grouping_set: bool,
) -> (r: PhysicalGroupBy)
    ensures
        group_by_of(r) == (GroupByView {
            exprs: column_keys(exprs@),
            null_exprs: column_keys(null_exprs@),
            groups: masks_view(groups@),
            has_grouping_set,
        }),
{
    PhysicalGroupBy::new(
        exprs.into_iter().map(|(c, alias)| (Arc::new(c) as Arc<dyn PhysicalExpr>, alias)).collect(),
        null_exprs.into_iter().map(|(c, alias)| (Arc::new(c) as _, alias)).collect(),
        groups,
        has_grouping_set,
    )
}

/// The mask of each grouping set says of every key whether it is null, and has no null beyond.
pub open spec fn masks_fit(group_by: GroupByView) -> bool {
    forall|i: int|
        0 <= i < group_by.groups.len() ==> mask_fits(
            #[trigger] group_by.groups[i],
            group_by.exprs.len(),
        )
}

/// The mask says of each of `keys` keys whether it is null, and has no null beyond.
pub open spec fn mask_fits(mask: Seq<bool>, keys: nat) -> bool {
    &&& mask.len() >= keys
    &&& forall|j: int| keys <= j < mask.len() ==> !(#[trigger] mask[j])
}

/// The keys of the clause, and the nulls that stand for them, are columns.
pub open spec fn keys_are_columns(group_by: GroupByView) -> bool {
    &&& forall|i: int|
        0 <= i < group_by.exprs.len() ==> (#[trigger] group_by.exprs[i]).expr is Column
    &&& forall|i: int|
        0 <= i < group_by.null_exprs.len() ==> (#[trigger] group_by.null_exprs[i]).expr is Column
}

/// The modes in which an aggregation is fed by the rows of a partial aggregation.
pub open spec fn merges_partial_rows(mode: AggregateMode) -> bool {
    ||| mode == AggregateMode::PartialReduce
    ||| mode == AggregateMode::Final
    ||| mode == AggregateMode::FinalPartitioned
}

/// `AggregateExec::try_new`: an aggregation with the filters of `partial`, over what feeds
/// `repartition`. When it fails is named and not stated. It panics where a mask is too short for
/// the keys, or has a null where there is no key. In the other modes it may exchange functions for
/// their reverses, so that those modes are left out.
#[verifier::external_body]
fn new_aggregate(
    mode: AggregateMode,
    group_by: PhysicalGroupBy,
    functions: Vec<Arc<AggregateFunctionExpr>>,
    schema: Arc<Schema>,
    partial: &AggregateExec,
    repartition: &RepartitionExec,
) -> (r: Result<AggregateExec, DataFusionError>)
    requires
        merges_partial_rows(mode),
        masks_fit(group_by_of(group_by)),
        keys_are_columns(group_by_of(group_by)),
    ensures
        r is Ok <==> builds_aggregate(
            mode,
            group_by_of(group_by),
            functions@,
            *schema,
            *partial,
            *repartition,
        ),
        replies_with(
            mode,
            group_by_of(group_by),
            functions@,
            *schema,
            *partial,
            *repartition,
            r,
        ),
        r matches Ok(aggregate) ==> {
            &&& mode_of(aggregate) == mode
            &&& clause_of(aggregate) == group_by
            &&& functions_of(aggregate) == functions@
            &&& filters_of(aggregate) == filters_of(*partial)
            &&& input_schema_of(aggregate) == *schema
            &&& input_of_aggregate(aggregate) == input_of_repartition(*repartition)
        },
{
    let mode = match mode {
        AggregateMode::Partial => aggregates::AggregateMode::Partial,
        AggregateMode::PartialReduce => aggregates::AggregateMode::PartialReduce,
        AggregateMode::Final => aggregates::AggregateMode::Final,
        AggregateMode::FinalPartitioned => aggregates::AggregateMode::FinalPartitioned,
        AggregateMode::Single => aggregates::AggregateMode::Single,
        AggregateMode::SinglePartitioned => aggregates::AggregateMode::SinglePartitioned,
    };
    let input = Arc::clone(repartition.input());
    AggregateExec::try_new(mode, group_by, functions, partial.filter_expr().to_vec(), input, schema)
}

/// `RepartitionExec::try_new`: the repartition of `input` that distributes rows as `repartition`
/// does. It does not fail, and does not keep the order of the rows.
#[verifier::external_body]
fn new_repartition(input: AggregateExec, repartition: &RepartitionExec) -> (r: Result<
    RepartitionExec,
    DataFusionError,
>)
    ensures
        r is Ok,
        r matches Ok(new) ==> {
            &&& scheme_of(new) == scheme_of(*repartition)
            &&& !keeps_order(new)
            &&& input_of_repartition(new) == Some(input)
        },
{
    RepartitionExec::try_new(Arc::new(input), repartition.partitioning().clone())
}

/// Shows a `GROUP BY` clause.
pub fn read_group_by(group_by: &PhysicalGroupBy) -> (r: GroupBy)
    ensures
        r@ == group_by_of(*group_by),
{
    GroupBy {
        exprs: group_keys(group_by),
        null_exprs: null_keys(group_by),
        groups: group_masks(group_by),
        has_grouping_set: group_by.has_grouping_set(),
    }
}

/// The names of functions.
pub open spec fn function_names(functions: Seq<Arc<AggregateFunctionExpr>>) -> Seq<Seq<char>> {
    functions.map_values(|f: Arc<AggregateFunctionExpr>| function_name(*f))
}

/// An aggregation as plain values, with the given texts of its filters.
pub open spec fn aggregate_view(
    aggregate: AggregateExec,
    filters: Seq<Option<Seq<char>>>,
) -> AggregateView {
    AggregateView {
        mode: mode_of(aggregate),
        group_by: group_by_of(clause_of(aggregate)),
        functions: function_names(functions_of(aggregate)),
        filters,
        input_schema: column_names(input_schema_of(aggregate)),
        input_types: column_types(input_schema_of(aggregate)),
    }
}

/// The names of functions.
fn names_of(functions: &[Arc<AggregateFunctionExpr>]) -> (r: Vec<String>)
    ensures
        strings_view(r@) == function_names(functions@),
{
    let mut r: Vec<String> = Vec::new();
    let mut i: usize = 0;
    while i < functions.len()
        invariant
            i <= functions@.len(),
            strings_view(r@) == function_names(functions@).take(i as int),
        decreases functions@.len() - i,
    {
        let ghost before = strings_view(r@);
        let function: &AggregateFunctionExpr = &functions[i];
        r.push(function.name().to_owned());
        assert(strings_view(r@) =~= before.push(function_names(functions@)[i as int]));
        i = i + 1;
        assert(function_names(functions@).take(i as int) =~= before.push(
            function_names(functions@)[i - 1],
        ));
    }
    assert(function_names(functions@).take(i as int) =~= function_names(functions@));
    r
}

/// There is a text for each filter of an aggregation, and for nothing else.
pub open spec fn filters_fit(aggregate: AggregateExec, filters: Seq<Option<Seq<char>>>) -> bool {
    &&& filters.len() == filters_of(aggregate).len()
    &&& forall|i: int|
        0 <= i < filters.len() ==> ((#[trigger] filters[i]) is Some <==> filters_of(
            aggregate,
        )[i] is Some)
}

/// Whether there is a text for each filter of an aggregation, and for nothing else.
pub fn have_fitting_filters(aggregate: &AggregateExec, filters: &Vec<Option<String>>) -> (r: bool)
    ensures
        r == filters_fit(*aggregate, filters_view(filters@)),
{
    let filtered = aggregate_filtered(aggregate);
    let ghost texts = filters_view(filters@);
    let ghost engine = filters_of(*aggregate);
    if filters.len() != filtered.len() {
        return false;
    }
    let mut i: usize = 0;
    while i < filters.len()
        invariant
            i <= filters@.len(),
            texts == filters_view(filters@),
            engine == filters_of(*aggregate),
            filters@.len() == engine.len(),
            filtered@ == engine.map_values(|f: Option<nat>| f is Some),
            forall|j: int|
                0 <= j < i ==> ((#[trigger] texts[j]) is Some <==> engine[j] is Some),
        decreases filters@.len() - i,
    {
        assert(texts[i as int] is Some <==> filters@[i as int] is Some);
        assert(filtered@[i as int] == (engine[i as int] is Some));
        if filters[i].is_some() != filtered[i] {
            return false;
        }
        i = i + 1;
    }
    true
}

/// Shows an aggregation, with the given texts of its filters.
pub fn read_aggregate(aggregate: &AggregateExec, filters: Vec<Option<String>>) -> (r: Aggregate)
    requires
        filters_fit(*aggregate, filters_view(filters@)),
    ensures
        r@ == aggregate_view(*aggregate, filters_view(filters@)),
{
    let schema = aggregate.input_schema();
    Aggregate {
        mode: aggregate_mode(aggregate),
        group_by: read_group_by(aggregate.group_expr()),
        functions: names_of(aggregate.aggr_expr()),
        filters,
        input_schema: schema_columns(&schema),
        input_types: schema_types(&schema),
    }
}

/// The aggregation that feeds an aggregation, if it is fed by one.
pub fn feeding_aggregate(aggregate: &AggregateExec) -> (r: Option<&AggregateExec>)
    ensures
        match r {
            Some(input) => input_of_aggregate(*aggregate) == Some(*input),
            None => input_of_aggregate(*aggregate) is None,
        },
{
    aggregate_input(aggregate)
}

/// A repartition as plain values.
pub open spec fn repartition_view(repartition: RepartitionExec) -> OperatorView {
    OperatorView::Repartition {
        distribution: scheme_view(scheme_of(repartition)),
        preserve_order: keeps_order(repartition),
    }
}

/// Shows a repartition.
pub fn read_repartition(repartition: &RepartitionExec) -> (r: Operator)
    ensures
        r@ == repartition_view(*repartition),
{
    Operator::Repartition {
        distribution: read_scheme(repartition.partitioning()),
        preserve_order: repartition.preserve_order(),
    }
}

/// The columns that keys are, with the names given to them.
fn columns(keys: &Vec<GroupKey>) -> (r: Vec<(Column, String)>)
    requires
        forall|i: int| 0 <= i < keys@.len() ==> #[trigger] keys_view(keys@)[i].expr is Column,
    ensures
        column_keys(r@) == keys_view(keys@),
{
    let mut r: Vec<(Column, String)> = Vec::new();
    let mut i: usize = 0;
    while i < keys.len()
        invariant
            i <= keys@.len(),
            r@.len() == i,
            forall|j: int| 0 <= j < keys@.len() ==> #[trigger] keys_view(keys@)[j].expr is Column,
            forall|j: int| 0 <= j < i ==> #[trigger] column_keys(r@)[j] == keys_view(keys@)[j],
        decreases keys@.len() - i,
    {
        let ghost before = r@;
        assert(keys_view(keys@)[i as int].expr is Column);
        match &keys[i].expr {
            KeyExpr::Column { name, index } => {
                r.push((Column::new(name.as_str(), *index), keys[i].alias.clone()));
            },
            KeyExpr::Computed => {},
        }
        assert forall|j: int| 0 <= j < i + 1 implies #[trigger] column_keys(r@)[j] == keys_view(
            keys@,
        )[j] by {
            if j < i {
                assert(column_keys(before)[j] == keys_view(keys@)[j]);
            }
        }
        i = i + 1;
    }
    assert(column_keys(r@) =~= keys_view(keys@));
    r
}

/// The `GROUP BY` clause that merges the rows of a partial aggregation by `group_by`.
pub fn merging_clause(group_by: &PhysicalGroupBy) -> (r: PhysicalGroupBy)
    ensures
        group_by_of(r) == merging_group_by(group_by_of(*group_by)),
{
    let merging = merge_group_by(&read_group_by(group_by));
    assert(keys_view(merging.exprs@) == merging@.exprs);
    assert(keys_view(merging.null_exprs@) == merging@.null_exprs);
    new_group_by(
        columns(&merging.exprs),
        columns(&merging.null_exprs),
        merging.groups,
        merging.has_grouping_set,
    )
}

/// A copy of a list of functions, which share what they refer to.
fn copy_functions(functions: &[Arc<AggregateFunctionExpr>]) -> (r: Vec<Arc<AggregateFunctionExpr>>)
    ensures
        r@ == functions@,
{
    let mut r: Vec<Arc<AggregateFunctionExpr>> = Vec::new();
    let mut i: usize = 0;
    while i < functions.len()
        invariant
            i <= functions@.len(),
            r@ == functions@.take(i as int),
        decreases functions@.len() - i,
    {
        r.push(functions[i].clone());
        i = i + 1;
        assert(r@ =~= functions@.take(i as int));
    }
    assert(r@ =~= functions@);
    r
}

/// A hash repartition of a partial aggregation.
pub open spec fn repartitions_partial(repartition: RepartitionExec) -> bool {
    &&& scheme_view(scheme_of(repartition)) is Hash
    &&& input_of_repartition(repartition) matches Some(aggregate) && mode_of(aggregate)
        == AggregateMode::Partial
}

/// The aggregation that feeds a repartition, where it is a hash repartition of a partial one.
fn repartitioned_partial(repartition: &RepartitionExec) -> (r: Option<&AggregateExec>)
    ensures
        match r {
            Some(partial) => repartitions_partial(*repartition) && input_of_repartition(
                *repartition,
            ) == Some(*partial),
            None => !repartitions_partial(*repartition),
        },
{
    match read_scheme(repartition.partitioning()) {
        Distribution::Hash { .. } => {},
        _ => {
            return None;
        },
    }
    match repartition_input(repartition) {
        Some(aggregate) => if aggregate_mode(aggregate) == AggregateMode::Partial {
            Some(aggregate)
        } else {
            None
        },
        None => None,
    }
}

/// The masks of the partial aggregation below a repartition fit its keys, if there is one.
pub open spec fn masks_fit_below(repartition: RepartitionExec) -> bool {
    repartitions_partial(repartition) ==> masks_fit(
        group_by_of(clause_of(input_of_repartition(repartition)->0)),
    )
}

/// The engine builds the aggregation that merges the rows of the partial aggregation below a
/// repartition.
pub open spec fn builds_merging(repartition: RepartitionExec) -> bool {
    let partial = input_of_repartition(repartition)->0;
    builds_aggregate(
        AggregateMode::PartialReduce,
        merging_group_by(group_by_of(clause_of(partial))),
        functions_of(partial),
        input_schema_of(partial),
        partial,
        repartition,
    )
}

/// `reply` is one that the engine gives when it is asked for that aggregation.
pub open spec fn replies_to_merging(
    repartition: RepartitionExec,
    reply: Result<AggregateExec, DataFusionError>,
) -> bool {
    let partial = input_of_repartition(repartition)->0;
    replies_with(
        AggregateMode::PartialReduce,
        merging_group_by(group_by_of(clause_of(partial))),
        functions_of(partial),
        input_schema_of(partial),
        partial,
        repartition,
        reply,
    )
}

/// `merging` merges the rows of `partial`: it has the same functions, filters and input schema, its
/// keys are the columns of `partial` that hold the keys, and `partial` feeds it.
pub open spec fn is_merging(partial: AggregateExec, merging: AggregateExec) -> bool {
    &&& mode_of(merging) == AggregateMode::PartialReduce
    &&& group_by_of(clause_of(merging)) == merging_group_by(group_by_of(clause_of(partial)))
    &&& functions_of(merging) == functions_of(partial)
    &&& filters_of(merging) == filters_of(partial)
    &&& input_schema_of(merging) == input_schema_of(partial)
    &&& input_of_aggregate(merging) == Some(partial)
}

/// `new_one` distributes rows as `old_one` does, does not keep their order, and has the merging
/// aggregation between itself and the aggregation that feeds `old_one`.
pub open spec fn is_merged(old_one: RepartitionExec, new_one: RepartitionExec) -> bool {
    &&& scheme_of(new_one) == scheme_of(old_one)
    &&& !keeps_order(new_one)
    &&& input_of_repartition(old_one) is Some
    &&& input_of_repartition(new_one) is Some
    &&& is_merging(input_of_repartition(old_one)->0, input_of_repartition(new_one)->0)
}

/// Whether a mask fits the keys.
fn is_fitting_mask(mask: &Vec<bool>, keys: usize) -> (r: bool)
    ensures
        r == mask_fits(mask@, keys as nat),
{
    if mask.len() < keys {
        return false;
    }
    let mut i: usize = keys;
    while i < mask.len()
        invariant
            keys <= i <= mask@.len(),
            forall|j: int| keys <= j < i ==> !(#[trigger] mask@[j]),
        decreases mask@.len() - i,
    {
        if mask[i] {
            return false;
        }
        i = i + 1;
    }
    true
}

/// Whether the masks of a clause fit its keys.
fn have_fitting_masks(group_by: &GroupBy) -> (r: bool)
    ensures
        r == masks_fit(group_by@),
{
    let mut i: usize = 0;
    while i < group_by.groups.len()
        invariant
            i <= group_by.groups@.len(),
            forall|j: int|
                0 <= j < i ==> mask_fits(#[trigger] group_by@.groups[j], group_by@.exprs.len()),
        decreases group_by.groups@.len() - i,
    {
        assert(group_by@.groups[i as int] == group_by.groups@[i as int]@);
        if !is_fitting_mask(&group_by.groups[i], group_by.exprs.len()) {
            return false;
        }
        i = i + 1;
    }
    true
}

/// Whether [`merge_below_repartition`] can be asked for.
pub fn can_merge_below(repartition: &RepartitionExec) -> (r: bool)
    ensures
        r == masks_fit_below(*repartition),
{
    match repartitioned_partial(repartition) {
        Some(partial) => have_fitting_masks(&read_group_by(partial.group_expr())),
        None => true,
    }
}

/// Puts an aggregation in mode [`AggregateMode::PartialReduce`] between a hash repartition and the
/// partial aggregation below it. The new repartition distributes rows as the old one did, and does
/// not keep their order. `None` stands for any other repartition. Where the engine does not build
/// the aggregation, its error is handed on.
pub fn merge_below_repartition(repartition: &RepartitionExec) -> (r: Result<
    Option<RepartitionExec>,
    DataFusionError,
>)
    requires
        masks_fit_below(*repartition),
    ensures
        match r {
            Ok(None) => !repartitions_partial(*repartition),
            Ok(Some(new)) => {
                &&& repartitions_partial(*repartition)
                &&& builds_merging(*repartition)
                &&& is_merged(*repartition, new)
                &&& replies_to_merging(*repartition, Ok(input_of_repartition(new)->0))
            },
            Err(error) => {
                &&& repartitions_partial(*repartition)
                &&& !builds_merging(*repartition)
                &&& replies_to_merging(*repartition, Err(error))
            },
        },
{
    let partial = match repartitioned_partial(repartition) {
        Some(partial) => partial,
        None => {
            return Ok(None);
        },
    };
    let clause = merging_clause(partial.group_expr());
    let merging = new_aggregate(
        AggregateMode::PartialReduce,
        clause,
        copy_functions(partial.aggr_expr()),
        partial.input_schema(),
        partial,
        repartition,
    );
    repartition_merging(merging, repartition)
}

/// The repartition of `merging`, if the engine built it, that distributes rows as `repartition`
/// does. An error of the engine is handed on.
pub fn repartition_merging(
    merging: Result<AggregateExec, DataFusionError>,
    repartition: &RepartitionExec,
) -> (r: Result<Option<RepartitionExec>, DataFusionError>)
    ensures
        match merging {
            Ok(merging) => {
                &&& r matches Ok(Some(new))
                &&& scheme_of(new) == scheme_of(*repartition)
                &&& !keeps_order(new)
                &&& input_of_repartition(new) == Some(merging)
            },
            Err(error) => r == Err::<Option<RepartitionExec>, DataFusionError>(error),
        },
{
    match merging {
        Ok(merging) => match new_repartition(merging, repartition) {
            Ok(new) => Ok(Some(new)),
            Err(error) => Err(error),
        },
        Err(error) => Err(error),
    }
}

/// A repartition that has the merging aggregation below it is not given another one.
pub proof fn law_merged_repartition_is_left_alone(
    old_one: RepartitionExec,
    new_one: RepartitionExec,
)
    requires
        is_merged(old_one, new_one),
    ensures
        !repartitions_partial(new_one),
        masks_fit_below(new_one),
{
}

/// `tree` is a network boundary over `repartition`, which an aggregation feeds that has the given
/// texts of filters.
pub open spec fn shows_shuffle(
    tree: PlanTree,
    repartition: RepartitionExec,
    filters: Seq<Option<Seq<char>>>,
) -> bool {
    &&& is_boundary(tree)
    &&& tree.children.len() == 1
    &&& tree.children[0].operator == repartition_view(repartition)
    &&& tree.children[0].children.len() == 1
    &&& input_of_repartition(repartition) matches Some(aggregate)
        && tree.children[0].children[0].operator == OperatorView::Aggregate(
        aggregate_view(aggregate, filters),
    )
}

/// The rewrite of a plan and the operators that are built agree: below a boundary, the rewrite
/// inserts an operator exactly where one is built, and shows the operators that are built.
pub proof fn law_rewrite_shows_the_operators_built(
    tree: PlanTree,
    old_one: RepartitionExec,
    new_one: RepartitionExec,
    filters: Seq<Option<Seq<char>>>,
)
    requires
        shows_shuffle(tree, old_one, filters),
    ensures
        is_shuffle_of_partial(tree) <==> repartitions_partial(old_one),
        !repartitions_partial(old_one) ==> reduced_root(tree) == Ok::<PlanTree, PlanError>(tree),
        repartitions_partial(old_one) && is_merged(old_one, new_one) ==> {
            &&& reduced_root(tree) is Ok
            &&& shows_shuffle(reduced_root(tree)->Ok_0, new_one, filters)
            &&& reduced_root(tree)->Ok_0.children[0].children[0].children
                == tree.children[0].children
        },
{
    if repartitions_partial(old_one) && is_merged(old_one, new_one) {
        assert(seq![tree.children[0].children[0]] =~= tree.children[0].children);
    }
}

/// A hash repartition that a partial aggregation feeds is what gets a merging aggregation, and
/// nothing else.
pub proof fn law_hash_repartitions_of_partial_aggregations_are_merged(repartition: RepartitionExec)
    ensures
        repartitions_partial(repartition) <==> scheme_view(scheme_of(repartition)) is Hash
            && input_of_repartition(repartition) is Some && mode_of(
            input_of_repartition(repartition)->0,
        ) == AggregateMode::Partial,
{
}

/// The aggregation that is built between a repartition and a partial aggregation merges the rows of
/// the latter: it has its functions, filters, input schema and grouping sets, and each of its keys
/// reads the column at which the partial aggregation puts out that very key. The repartition
/// distributes rows as before, and does not keep their order.
pub proof fn law_built_aggregation_merges_the_partial_one(
    old_one: RepartitionExec,
    new_one: RepartitionExec,
)
    requires
        is_merged(old_one, new_one),
    ensures
        scheme_of(new_one) == scheme_of(old_one),
        !keeps_order(new_one),
        input_of_repartition(old_one) is Some,
        input_of_repartition(new_one) is Some,
        ({
            let partial = input_of_repartition(old_one)->0;
            let merging = input_of_repartition(new_one)->0;
            let keys = group_by_of(clause_of(partial));
            let merged = group_by_of(clause_of(merging));
            &&& mode_of(merging) == AggregateMode::PartialReduce
            &&& functions_of(merging) == functions_of(partial)
            &&& filters_of(merging) == filters_of(partial)
            &&& input_schema_of(merging) == input_schema_of(partial)
            &&& input_of_aggregate(merging) == Some(partial)
            &&& merged.groups == keys.groups
            &&& merged.has_grouping_set == keys.has_grouping_set
            &&& merged.exprs.len() == keys.exprs.len()
            &&& forall|i: int|
                0 <= i < keys.exprs.len() ==> {
                    &&& (#[trigger] merged.exprs[i]).alias == keys.exprs[i].alias
                    &&& merged.exprs[i].expr == (KeyExprView::Column {
                        name: keys.exprs[i].alias,
                        index: i as usize,
                    })
                }
            &&& merged.null_exprs.len() == keys.null_exprs.len()
            &&& forall|i: int|
                0 <= i < keys.null_exprs.len() ==> {
                    &&& (#[trigger] merged.null_exprs[i]).alias == keys.null_exprs[i].alias
                    &&& merged.null_exprs[i].expr == (KeyExprView::Column {
                        name: keys.null_exprs[i].alias,
                        index: i as usize,
                    })
                }
        }),
{
}

/// An operator is shown as it is: every part of it, every function by its name.
pub proof fn law_operators_are_shown_as_they_are(
    aggregate: AggregateExec,
    filters: Seq<Option<Seq<char>>>,
    repartition: RepartitionExec,
)
    ensures
        ({
            let shown = aggregate_view(aggregate, filters);
            &&& shown.mode == mode_of(aggregate)
            &&& shown.group_by == group_by_of(clause_of(aggregate))
            &&& shown.functions.len() == functions_of(aggregate).len()
            &&& forall|i: int|
                0 <= i < functions_of(aggregate).len() ==> #[trigger] shown.functions[i]
                    == function_name(*functions_of(aggregate)[i])
            &&& shown.filters == filters
            &&& shown.input_schema == column_names(input_schema_of(aggregate))
            &&& shown.input_types == column_types(input_schema_of(aggregate))
        }),
        repartition_view(repartition) == (OperatorView::Repartition {
            distribution: scheme_view(scheme_of(repartition)),
            preserve_order: keeps_order(repartition),
        }),
{
}

/// Masks fit exactly if each says of every key whether it is null, and has no null beyond the keys.
pub proof fn law_masks_fit_the_keys(group_by: GroupByView)
    ensures
        masks_fit(group_by) <==> (forall|i: int|
            0 <= i < group_by.groups.len() ==> (#[trigger] group_by.groups[i]).len()
                >= group_by.exprs.len() && (forall|j: int|
                group_by.exprs.len() <= j < group_by.groups[i].len() ==> !(
                #[trigger] group_by.groups[i][j]))),
{
}

/// A column makes a key that reads it, under the name given to it.
pub proof fn law_columns_make_keys_that_read_them(columns: Seq<(Column, String)>, i: int)
    ensures
        column_keys(columns).len() == columns.len(),
        0 <= i < columns.len() ==> {
            &&& column_keys(columns)[i].alias == columns[i].1@
            &&& column_keys(columns)[i].expr is Column
            &&& column_keys(columns)[i].expr->name == column_of(columns[i].0).0
            &&& column_keys(columns)[i].expr->index == column_of(columns[i].0).1
        },
{
}

/// Texts fit the filters of an aggregation exactly if each function that has a filter has a text,
/// and no other has one.
pub proof fn law_texts_fit_the_filters(aggregate: AggregateExec, filters: Seq<Option<Seq<char>>>)
    ensures
        filters_fit(aggregate, filters) <==> filters.len() == filters_of(aggregate).len() && (
        forall|i: int|
            0 <= i < filters_of(aggregate).len() ==> (#[trigger] filters[i] is None <==> filters_of(
                aggregate,
            )[i] is None)),
{
}

} // verus!
