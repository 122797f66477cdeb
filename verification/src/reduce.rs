//! Merging partial aggregates before they cross the network.
//!
//! Below a network boundary, a hash repartition of a partial aggregation sends every partial row
//! to the node that finishes its group. An aggregation in mode
//! [`AggregateMode::PartialReduce`] between the two merges the rows of each group first, so
//! that fewer of them travel.

use crate::plan::{
    filters_view, keys_view, masks_view, Aggregate, AggregateMode, AggregateView, Distribution,
    GroupBy, GroupByView, GroupKey, GroupKeyView, KeyExpr, KeyExprView, Operator, OperatorView,
    PlanError, PlanNode, PlanTree,
};
use crate::text::copy_strings;
use vstd::prelude::*;

verus! {

/// The keys of a partial aggregation as its output shows them: the key at position `i` is the
/// column at position `i`, under the same name.
pub open spec fn output_keys(keys: Seq<GroupKeyView>) -> Seq<GroupKeyView> {
    Seq::new(
        keys.len(),
        |i: int|
            GroupKeyView {
                expr: KeyExprView::Column { name: keys[i].alias, index: i as usize },
                alias: keys[i].alias,
            },
    )
}

/// The grouping that merges the rows of a partial aggregation by `group_by`.
pub open spec fn merging_group_by(group_by: GroupByView) -> GroupByView {
    GroupByView {
        exprs: output_keys(group_by.exprs),
        null_exprs: output_keys(group_by.null_exprs),
        groups: group_by.groups,
        has_grouping_set: group_by.has_grouping_set,
    }
}

/// The aggregation that merges the rows of the partial aggregation `partial`.
pub open spec fn merging_aggregate(partial: AggregateView) -> AggregateView {
    AggregateView {
        mode: AggregateMode::PartialReduce,
        group_by: merging_group_by(partial.group_by),
        ..partial
    }
}

/// The operator that merges the rows of `partial`, with `partial` below it.
pub open spec fn merging_node(partial: PlanTree) -> PlanTree {
    PlanTree {
        origin: None,
        operator: OperatorView::Aggregate(merging_aggregate(partial.operator->Aggregate_0)),
        children: seq![partial],
    }
}

pub open spec fn is_boundary(tree: PlanTree) -> bool {
    tree.operator is NetworkBoundary
}

pub open spec fn is_hash_repartition(tree: PlanTree) -> bool {
    tree.operator matches OperatorView::Repartition { distribution, .. } && distribution is Hash
}

pub open spec fn is_partial_aggregate(tree: PlanTree) -> bool {
    tree.operator matches OperatorView::Aggregate(a) && a.mode == AggregateMode::Partial
}

/// A network boundary over a hash repartition of a partial aggregation, with nothing beside them.
pub open spec fn is_shuffle_of_partial(tree: PlanTree) -> bool {
    &&& is_boundary(tree)
    &&& tree.children.len() == 1
    &&& is_hash_repartition(tree.children[0])
    &&& tree.children[0].children.len() == 1
    &&& is_partial_aggregate(tree.children[0].children[0])
}

/// `repartition` with the merging aggregation between it and the partial aggregation below it. It
/// distributes rows as before, and does not keep their order.
pub open spec fn merged_repartition(repartition: PlanTree) -> PlanTree {
    PlanTree {
        operator: OperatorView::Repartition {
            distribution: repartition.operator->distribution,
            preserve_order: false,
        },
        children: seq![merging_node(repartition.children[0])],
        ..repartition
    }
}

/// `shuffle` with the merging aggregation between its repartition and its partial aggregation.
pub open spec fn with_merging_node(shuffle: PlanTree) -> PlanTree {
    PlanTree { children: seq![merged_repartition(shuffle.children[0])], ..shuffle }
}

/// The rewrite of a tree whose children have been rewritten.
pub open spec fn reduced_root(tree: PlanTree) -> Result<PlanTree, PlanError> {
    if !is_boundary(tree) {
        Ok(tree)
    } else if tree.children.len() != 1 {
        Err(PlanError::ExpectedOneChild(tree.children.len() as usize))
    } else if !is_hash_repartition(tree.children[0]) {
        Ok(tree)
    } else if tree.children[0].children.len() != 1 {
        Err(PlanError::ExpectedOneChild(tree.children[0].children.len() as usize))
    } else if is_shuffle_of_partial(tree) {
        Ok(with_merging_node(tree))
    } else {
        Ok(tree)
    }
}

/// The rewrite of a tree, from the leaves up.
pub open spec fn reduced(tree: PlanTree) -> Result<PlanTree, PlanError>
    decreases tree,
{
    match reduced_all(tree.children) {
        Ok(children) => reduced_root(PlanTree { children, ..tree }),
        Err(e) => Err(e),
    }
}

/// The rewrites of the trees in order, or the error of the first that has none.
pub open spec fn reduced_all(trees: Seq<PlanTree>) -> Result<Seq<PlanTree>, PlanError>
    decreases trees,
{
    if trees.len() == 0 {
        Ok(Seq::empty())
    } else {
        match reduced_all(trees.drop_last()) {
            Ok(front) => match reduced(trees.last()) {
                Ok(last) => Ok(front.push(last)),
                Err(e) => Err(e),
            },
            Err(e) => Err(e),
        }
    }
}

/// The keys that [`output_keys`] describes.
fn merging_keys(keys: &Vec<GroupKey>) -> (r: Vec<GroupKey>)
    ensures
        keys_view(r@) == output_keys(keys_view(keys@)),
{
    let mut r: Vec<GroupKey> = Vec::new();
    let mut i: usize = 0;
    while i < keys.len()
        invariant
            i <= keys@.len(),
            r@.len() == i,
            forall|j: int|
                0 <= j < i ==> #[trigger] r@[j]@ == output_keys(keys_view(keys@))[j],
        decreases keys@.len() - i,
    {
        let expr = KeyExpr::Column { name: keys[i].alias.clone(), index: i };
        r.push(GroupKey { expr, alias: keys[i].alias.clone() });
        i = i + 1;
    }
    assert(keys_view(r@) =~= output_keys(keys_view(keys@)));
    r
}

fn copy_mask(mask: &Vec<bool>) -> (r: Vec<bool>)
    ensures
        r@ == mask@,
{
    let mut r: Vec<bool> = Vec::new();
    let mut i: usize = 0;
    while i < mask.len()
        invariant
            i <= mask@.len(),
            r@ == mask@.take(i as int),
        decreases mask@.len() - i,
    {
        r.push(mask[i]);
        i = i + 1;
        assert(r@ =~= mask@.take(i as int));
    }
    assert(r@ =~= mask@);
    r
}

fn copy_masks(groups: &Vec<Vec<bool>>) -> (r: Vec<Vec<bool>>)
    ensures
        masks_view(r@) == masks_view(groups@),
{
    let mut r: Vec<Vec<bool>> = Vec::new();
    let mut i: usize = 0;
    while i < groups.len()
        invariant
            i <= groups@.len(),
            r@.len() == i,
            forall|j: int| 0 <= j < i ==> #[trigger] r@[j]@ == groups@[j]@,
        decreases groups@.len() - i,
    {
        r.push(copy_mask(&groups[i]));
        i = i + 1;
    }
    assert(masks_view(r@) =~= masks_view(groups@));
    r
}

fn copy_filters(filters: &Vec<Option<String>>) -> (r: Vec<Option<String>>)
    ensures
        filters_view(r@) == filters_view(filters@),
{
    let mut r: Vec<Option<String>> = Vec::new();
    let mut i: usize = 0;
    while i < filters.len()
        invariant
            i <= filters@.len(),
            filters_view(r@) == filters_view(filters@).take(i as int),
        decreases filters@.len() - i,
    {
        let ghost before = filters_view(r@);
        let filter = match &filters[i] {
            Some(text) => Some(text.clone()),
            None => None,
        };
        r.push(filter);
        assert(filters_view(r@) =~= before.push(filters_view(filters@)[i as int]));
        i = i + 1;
        assert(filters_view(filters@).take(i as int) =~= before.push(
            filters_view(filters@)[i - 1],
        ));
    }
    assert(filters_view(filters@).take(i as int) =~= filters_view(filters@));
    r
}

/// The grouping that merges the rows of a partial aggregation.
///
/// The keys of a partial aggregation are the first columns of its output, in order, each under
/// its own name.
pub fn merge_group_by(group_by: &GroupBy) -> (r: GroupBy)
    ensures
        r@ == merging_group_by(group_by@),
{
    GroupBy {
        exprs: merging_keys(&group_by.exprs),
        null_exprs: merging_keys(&group_by.null_exprs),
        groups: copy_masks(&group_by.groups),
        has_grouping_set: group_by.has_grouping_set,
    }
}

/// The aggregation that merges the rows of `partial`, with the same functions, filters and input
/// schema.
pub fn merge_aggregate(partial: &Aggregate) -> (r: Aggregate)
    ensures
        r@ == merging_aggregate(partial@),
{
    Aggregate {
        mode: AggregateMode::PartialReduce,
        group_by: merge_group_by(&partial.group_by),
        functions: copy_strings(&partial.functions),
        filters: copy_filters(&partial.filters),
        input_schema: copy_strings(&partial.input_schema),
        input_types: copy_strings(&partial.input_types),
    }
}

/// The outcome of a rewrite, as contracts speak of it.
pub open spec fn outcome(r: Result<PlanNode, PlanError>) -> Result<PlanTree, PlanError> {
    match r {
        Ok(node) => Ok(node@),
        Err(e) => Err(e),
    }
}

/// The views of a list of nodes.
pub open spec fn trees(nodes: Seq<PlanNode>) -> Seq<PlanTree> {
    nodes.map_values(|n: PlanNode| n@)
}

/// Puts the merging aggregation between `repartition` and the partial aggregation below it.
fn insert_below(repartition: PlanNode) -> (r: PlanNode)
    requires
        is_hash_repartition(repartition@),
        repartition@.children.len() == 1,
        is_partial_aggregate(repartition@.children[0]),
    ensures
        r@ == merged_repartition(repartition@),
{
    let ghost tree = repartition@;
    let PlanNode { origin, operator, children: mut below } = repartition;
    assert(below@[0]@ == tree.children[0]);
    let partial = below.remove(0);
    let merging = match &partial.operator {
        Operator::Aggregate(a) => Operator::Aggregate(merge_aggregate(a)),
        _ => Operator::Other,
    };
    let mut inputs: Vec<PlanNode> = Vec::new();
    inputs.push(partial);
    let inserted = PlanNode { origin: None, operator: merging, children: inputs };
    assert(inserted@.children =~= seq![tree.children[0]]);
    assert(inserted@ =~= merging_node(tree.children[0]));
    let mut children: Vec<PlanNode> = Vec::new();
    children.push(inserted);
    let operator = match operator {
        Operator::Repartition { distribution, .. } => Operator::Repartition {
            distribution,
            preserve_order: false,
        },
        other => other,
    };
    let r = PlanNode { origin, operator, children };
    assert(r@.children =~= seq![merging_node(tree.children[0])]);
    r
}

/// Rewrites one operator whose children have been rewritten.
fn reduce_root(plan: PlanNode) -> (r: Result<PlanNode, PlanError>)
    ensures
        outcome(r) == reduced_root(plan@),
{
    let ghost tree = plan@;
    match &plan.operator {
        Operator::NetworkBoundary { .. } => {},
        _ => {
            return Ok(plan);
        },
    }
    if plan.children.len() != 1 {
        return Err(PlanError::ExpectedOneChild(plan.children.len()));
    }
    assert(plan.children@[0]@ == tree.children[0]);
    match &plan.children[0].operator {
        Operator::Repartition { distribution: Distribution::Hash { .. }, .. } => {},
        _ => {
            return Ok(plan);
        },
    }
    if plan.children[0].children.len() != 1 {
        return Err(PlanError::ExpectedOneChild(plan.children[0].children.len()));
    }
    assert(plan.children@[0].children@[0]@ == tree.children[0].children[0]);
    let partial = match &plan.children[0].children[0].operator {
        Operator::Aggregate(a) => a.mode == AggregateMode::Partial,
        _ => false,
    };
    if !partial {
        return Ok(plan);
    }
    let PlanNode { origin, operator, children: mut below } = plan;
    let repartition = insert_below(below.remove(0));
    let mut children: Vec<PlanNode> = Vec::new();
    children.push(repartition);
    let r = PlanNode { origin, operator, children };
    assert(r@.children =~= with_merging_node(tree).children);
    Ok(r)
}

/// Inserts an aggregation in mode [`AggregateMode::PartialReduce`] between the hash repartition
/// and the partial aggregation below each network boundary, so that the partial rows of a group
/// are merged before the repartition fans them out over the network.
///
/// A repartition over an inserted operator distributes rows as before, and does not keep their
/// order. Everything else in the plan stays as it is. A boundary, or a hash repartition right below
/// one, that does not have exactly one child is an error.
pub fn partial_reduce_below_network_shuffles(plan: PlanNode) -> (r: Result<PlanNode, PlanError>)
    ensures
        outcome(r) == reduced(plan@),
        match r {
            Ok(rewritten) => reduced(plan@) == Ok::<PlanTree, PlanError>(rewritten@),
            Err(e) => reduced(plan@) == Err::<PlanTree, PlanError>(e),
        },
    decreases plan,
{
    let ghost whole = plan;
    let PlanNode { origin, operator, children: mut below } = plan;
    let ghost all = below@;
    assert(trees(all) =~= whole@.children);
    let mut children: Vec<PlanNode> = Vec::new();
    let ghost mut done: int = 0;
    assert(trees(children@) =~= Seq::<PlanTree>::empty());
    while below.len() > 0
        invariant
            whole == plan,
            all == whole.children@,
            trees(all) == whole@.children,
            0 <= done <= all.len(),
            below@ == all.skip(done),
            reduced_all(trees(all).take(done)) == Ok::<Seq<PlanTree>, PlanError>(
                trees(children@),
            ),
        decreases below@.len(),
    {
        let child = below.remove(0);
        assert(child == all[done]);
        assert(trees(all).take(done + 1).drop_last() =~= trees(all).take(done));
        match partial_reduce_below_network_shuffles(child) {
            Ok(node) => {
                let ghost before = trees(children@);
                children.push(node);
                assert(trees(children@) =~= before.push(node@));
            },
            Err(e) => {
                proof {
                    lemma_first_error(trees(all), done);
                }
                return Err(e);
            },
        }
        proof {
            done = done + 1;
        }
        assert(below@ =~= all.skip(done));
    }
    assert(trees(all).take(done) =~= whole@.children);
    let node = PlanNode { origin, operator, children };
    assert(node@.children =~= trees(children@));
    reduce_root(node)
}

/// The error of the first tree that has no rewrite is the error of the whole list.
proof fn lemma_first_error(list: Seq<PlanTree>, n: int)
    requires
        0 <= n < list.len(),
        reduced_all(list.take(n)) is Ok,
        reduced(list[n]) is Err,
    ensures
        reduced_all(list) == Err::<Seq<PlanTree>, PlanError>(reduced(list[n])->Err_0),
    decreases list.len(),
{
    if list.len() == n + 1 {
        assert(list.drop_last() =~= list.take(n));
    } else {
        assert(list.drop_last().take(n) =~= list.take(n));
        lemma_first_error(list.drop_last(), n);
    }
}

/// Each tree of a list is rewritten by itself.
proof fn lemma_reduced_each(list: Seq<PlanTree>)
    requires
        reduced_all(list) is Ok,
    ensures
        reduced_all(list)->Ok_0.len() == list.len(),
        forall|i: int|
            0 <= i < list.len() ==> reduced(#[trigger] list[i]) == Ok::<PlanTree, PlanError>(
                reduced_all(list)->Ok_0[i],
            ),
    decreases list.len(),
{
    if list.len() > 0 {
        lemma_reduced_each(list.drop_last());
        assert forall|i: int| 0 <= i < list.len() implies reduced(#[trigger] list[i]) == Ok::<
            PlanTree,
            PlanError,
        >(reduced_all(list)->Ok_0[i]) by {
            if i < list.len() - 1 {
                assert(list.drop_last()[i] == list[i]);
            }
        }
    }
}

/// A list whose trees are all rewritten is rewritten.
proof fn lemma_reduced_from_each(list: Seq<PlanTree>, results: Seq<PlanTree>)
    requires
        list.len() == results.len(),
        forall|i: int|
            0 <= i < list.len() ==> reduced(#[trigger] list[i]) == Ok::<PlanTree, PlanError>(
                results[i],
            ),
    ensures
        reduced_all(list) == Ok::<Seq<PlanTree>, PlanError>(results),
    decreases list.len(),
{
    if list.len() > 0 {
        assert forall|i: int| 0 <= i < list.len() - 1 implies reduced(
            #[trigger] list.drop_last()[i],
        ) == Ok::<PlanTree, PlanError>(results.drop_last()[i]) by {
            assert(list[i] == list.drop_last()[i]);
        }
        lemma_reduced_from_each(list.drop_last(), results.drop_last());
        assert(reduced(list[list.len() - 1]) == Ok::<PlanTree, PlanError>(
            results[list.len() - 1],
        ));
        assert(results.drop_last().push(results.last()) =~= results);
    } else {
        assert(results =~= Seq::<PlanTree>::empty());
    }
}

/// Merging keeps the names of the keys and the grouping sets, and the clause that merges rows is
/// not changed by deriving a merging clause from it.
pub proof fn law_merging_clause_is_kept_by_merging(group_by: GroupByView)
    ensures
        merging_group_by(merging_group_by(group_by)) == merging_group_by(group_by),
        forall|i: int|
            0 <= i < group_by.exprs.len() ==> (#[trigger] merging_group_by(group_by).exprs[i]).alias
                == group_by.exprs[i].alias,
        merging_group_by(group_by).exprs.len() == group_by.exprs.len(),
        merging_group_by(group_by).groups == group_by.groups,
        merging_group_by(group_by).has_grouping_set == group_by.has_grouping_set,
{
    assert(output_keys(output_keys(group_by.exprs)) =~= output_keys(group_by.exprs));
    assert(output_keys(output_keys(group_by.null_exprs)) =~= output_keys(group_by.null_exprs));
}

/// A plan that has been rewritten is not rewritten any further.
pub proof fn law_rewrite_is_idempotent(tree: PlanTree)
    requires
        reduced(tree) is Ok,
    ensures
        reduced(reduced(tree)->Ok_0) == reduced(tree),
    decreases tree,
{
    let below = reduced_all(tree.children)->Ok_0;
    lemma_reduced_each(tree.children);
    assert forall|i: int| 0 <= i < below.len() implies reduced(#[trigger] below[i]) == Ok::<
        PlanTree,
        PlanError,
    >(below[i]) by {
        assert(reduced(tree.children[i]) == Ok::<PlanTree, PlanError>(below[i]));
        assert(decreases_to!(tree => tree.children[i]));
        law_rewrite_is_idempotent(tree.children[i]);
    }
    lemma_reduced_from_each(below, below);
    let mid = PlanTree { children: below, ..tree };
    let result = reduced(tree)->Ok_0;
    if is_shuffle_of_partial(mid) {
        let repartition = below[0];
        assert(reduced(repartition) == Ok::<PlanTree, PlanError>(repartition));
        assert(reduced_all(repartition.children)->Ok_0 == repartition.children);
        let inserted = merging_node(repartition.children[0]);
        assert(seq![repartition.children[0]] =~= repartition.children);
        assert(reduced(inserted) == Ok::<PlanTree, PlanError>(inserted));
        lemma_reduced_from_each(seq![inserted], seq![inserted]);
        assert(result.children[0].children =~= seq![inserted]);
        assert(reduced(result.children[0]) == Ok::<PlanTree, PlanError>(result.children[0]));
        lemma_reduced_from_each(result.children, result.children);
        assert(reduced_root(result) == Ok::<PlanTree, PlanError>(result));
    } else {
        assert(result == mid);
    }
}

/// No network boundary occurs in the tree.
pub open spec fn boundary_free(tree: PlanTree) -> bool
    decreases tree,
{
    &&& !is_boundary(tree)
    &&& forall|i: int| 0 <= i < tree.children.len() ==> boundary_free(#[trigger] tree.children[i])
}

/// No shuffle of a partial aggregation occurs in the tree.
pub open spec fn shuffle_free(tree: PlanTree) -> bool
    decreases tree,
{
    &&& !is_shuffle_of_partial(tree)
    &&& forall|i: int| 0 <= i < tree.children.len() ==> shuffle_free(#[trigger] tree.children[i])
}

/// A boundary has one child, and so has a hash repartition right below it.
pub open spec fn well_shaped_root(tree: PlanTree) -> bool {
    is_boundary(tree) ==> {
        &&& tree.children.len() == 1
        &&& is_hash_repartition(tree.children[0]) ==> tree.children[0].children.len() == 1
    }
}

/// [`well_shaped_root`] holds everywhere in the tree.
pub open spec fn well_shaped(tree: PlanTree) -> bool
    decreases tree,
{
    &&& well_shaped_root(tree)
    &&& forall|i: int| 0 <= i < tree.children.len() ==> well_shaped(#[trigger] tree.children[i])
}

/// No operator of the tree was inserted.
pub open spec fn all_original(tree: PlanTree) -> bool
    decreases tree,
{
    &&& tree.origin is Some
    &&& forall|i: int| 0 <= i < tree.children.len() ==> all_original(#[trigger] tree.children[i])
}

/// No repartition that keeps the order of its rows shuffles a partial aggregation.
pub open spec fn no_ordered_shuffle(tree: PlanTree) -> bool
    decreases tree,
{
    &&& is_shuffle_of_partial(tree) ==> !tree.children[0].operator->preserve_order
    &&& forall|i: int|
        0 <= i < tree.children.len() ==> no_ordered_shuffle(#[trigger] tree.children[i])
}

/// The tree with every inserted operator replaced by what it is fed by.
pub open spec fn without_inserted(tree: PlanTree) -> PlanTree
    decreases tree,
{
    PlanTree {
        children: Seq::new(
            tree.children.len(),
            |i: int|
                if 0 <= i < tree.children.len() {
                    if tree.children[i].origin is None && tree.children[i].children.len() == 1 {
                        without_inserted(tree.children[i].children[0])
                    } else {
                        without_inserted(tree.children[i])
                    }
                } else {
                    arbitrary()
                },
        ),
        ..tree
    }
}

/// The rewrite fails exactly on plans in which a boundary, or a hash repartition right below one,
/// does not have exactly one child.
pub proof fn law_rewrite_succeeds_on_well_shaped_plans(tree: PlanTree)
    ensures
        reduced(tree) is Ok <==> well_shaped(tree),
    decreases tree,
{
    assert forall|i: int| 0 <= i < tree.children.len() implies (reduced(#[trigger] tree.children[i])
        is Ok <==> well_shaped(tree.children[i])) by {
        assert(decreases_to!(tree => tree.children[i]));
        law_rewrite_succeeds_on_well_shaped_plans(tree.children[i]);
    }
    if reduced_all(tree.children) is Ok {
        lemma_reduced_each(tree.children);
        let below = reduced_all(tree.children)->Ok_0;
        if tree.children.len() == 1 {
            let child = tree.children[0];
            assert(reduced(child) == Ok::<PlanTree, PlanError>(below[0]));
            if is_hash_repartition(child) {
                lemma_reduced_each(child.children);
            }
        }
    } else {
        if forall|i: int|
            0 <= i < tree.children.len() ==> well_shaped(#[trigger] tree.children[i]) {
            let results = Seq::new(tree.children.len(), |i: int| reduced(tree.children[i])->Ok_0);
            assert forall|i: int| 0 <= i < tree.children.len() implies reduced(
                #[trigger] tree.children[i],
            ) == Ok::<PlanTree, PlanError>(results[i]) by {
                assert(well_shaped(tree.children[i]));
            }
            lemma_reduced_from_each(tree.children, results);
        }
    }
}

/// A plan without network boundaries is not changed.
pub proof fn law_plan_without_boundaries_is_unchanged(tree: PlanTree)
    requires
        boundary_free(tree),
    ensures
        reduced(tree) == Ok::<PlanTree, PlanError>(tree),
    decreases tree,
{
    assert forall|i: int| 0 <= i < tree.children.len() implies reduced(#[trigger] tree.children[i])
        == Ok::<PlanTree, PlanError>(tree.children[i]) by {
        assert(decreases_to!(tree => tree.children[i]));
        law_plan_without_boundaries_is_unchanged(tree.children[i]);
    }
    lemma_reduced_from_each(tree.children, tree.children);
}

/// A plan in which no partial aggregation is shuffled is not changed.
pub proof fn law_plan_without_shuffles_is_unchanged(tree: PlanTree)
    requires
        well_shaped(tree),
        shuffle_free(tree),
    ensures
        reduced(tree) == Ok::<PlanTree, PlanError>(tree),
    decreases tree,
{
    assert forall|i: int| 0 <= i < tree.children.len() implies reduced(#[trigger] tree.children[i])
        == Ok::<PlanTree, PlanError>(tree.children[i]) by {
        assert(decreases_to!(tree => tree.children[i]));
        law_plan_without_shuffles_is_unchanged(tree.children[i]);
    }
    lemma_reduced_from_each(tree.children, tree.children);
}

/// After the rewrite no boundary is fed by an unmerged partial aggregation: each shuffle of one
/// has the merging aggregation in it.
pub proof fn law_every_shuffle_is_merged(tree: PlanTree)
    requires
        reduced(tree) is Ok,
    ensures
        shuffle_free(reduced(tree)->Ok_0),
    decreases tree,
{
    let below = reduced_all(tree.children)->Ok_0;
    lemma_reduced_each(tree.children);
    assert forall|i: int| 0 <= i < below.len() implies shuffle_free(#[trigger] below[i]) by {
        assert(reduced(tree.children[i]) == Ok::<PlanTree, PlanError>(below[i]));
        assert(decreases_to!(tree => tree.children[i]));
        law_every_shuffle_is_merged(tree.children[i]);
    }
    let mid = PlanTree { children: below, ..tree };
    let result = reduced(tree)->Ok_0;
    if is_shuffle_of_partial(mid) {
        let partial = below[0].children[0];
        assert(shuffle_free(below[0]));
        assert(shuffle_free(partial));
        let inserted = merging_node(partial);
        assert(shuffle_free(inserted)) by {
            assert(inserted.children[0] == partial);
        }
        assert(result.children[0].children[0] == inserted);
        assert(shuffle_free(result.children[0]));
    } else {
        assert(result == mid);
    }
}

/// The rewrite keeps the root: its position, what it does, and how many children it has.
pub proof fn law_rewrite_keeps_the_root(tree: PlanTree)
    requires
        reduced(tree) is Ok,
    ensures
        reduced(tree)->Ok_0.origin == tree.origin,
        reduced(tree)->Ok_0.operator == tree.operator,
        reduced(tree)->Ok_0.children.len() == tree.children.len(),
{
    lemma_reduced_each(tree.children);
}

/// The operators that a boundary, the repartition below it and the aggregation below that perform
/// are the same before and after what is below them has been rewritten.
proof fn lemma_same_shuffle(tree: PlanTree)
    requires
        reduced_all(tree.children) is Ok,
    ensures
        is_shuffle_of_partial(
            PlanTree { children: reduced_all(tree.children)->Ok_0, ..tree },
        ) == is_shuffle_of_partial(tree),
        is_shuffle_of_partial(tree) ==> reduced_all(tree.children)->Ok_0[0].operator
            == tree.children[0].operator,
{
    lemma_reduced_each(tree.children);
    if is_boundary(tree) && tree.children.len() == 1 {
        let child = tree.children[0];
        let below = reduced_all(tree.children)->Ok_0[0];
        assert(reduced(child) == Ok::<PlanTree, PlanError>(below));
        law_rewrite_keeps_the_root(child);
        if is_hash_repartition(child) && child.children.len() == 1 {
            lemma_reduced_each(child.children);
            assert(reduced(child.children[0]) == Ok::<PlanTree, PlanError>(below.children[0]));
            law_rewrite_keeps_the_root(child.children[0]);
        }
    }
}

/// The number of operators in the tree.
pub open spec fn size(tree: PlanTree) -> nat
    decreases tree,
{
    1 + size_all(tree.children)
}

/// The number of operators in the trees.
pub open spec fn size_all(list: Seq<PlanTree>) -> nat
    decreases list,
{
    if list.len() == 0 {
        0
    } else {
        size_all(list.drop_last()) + size(list.last())
    }
}

/// The number of shuffles of a partial aggregation in the tree.
pub open spec fn shuffles(tree: PlanTree) -> nat
    decreases tree,
{
    shuffles_all(tree.children) + if is_shuffle_of_partial(tree) {
        1nat
    } else {
        0nat
    }
}

/// The number of shuffles of a partial aggregation in the trees.
pub open spec fn shuffles_all(list: Seq<PlanTree>) -> nat
    decreases list,
{
    if list.len() == 0 {
        0
    } else {
        shuffles_all(list.drop_last()) + shuffles(list.last())
    }
}

proof fn lemma_size_of_one(list: Seq<PlanTree>)
    requires
        list.len() == 1,
    ensures
        size_all(list) == size(list[0]),
{
    assert(list.drop_last() =~= Seq::<PlanTree>::empty());
    reveal_with_fuel(size_all, 2);
}

/// The rewrite adds exactly one operator for each shuffle of a partial aggregation in the plan.
pub proof fn law_rewrite_adds_one_operator_per_shuffle(tree: PlanTree)
    requires
        reduced(tree) is Ok,
    ensures
        size(reduced(tree)->Ok_0) == size(tree) + shuffles(tree),
    decreases tree,
{
    lemma_sizes_of_all(tree.children);
    lemma_same_shuffle(tree);
    let below = reduced_all(tree.children)->Ok_0;
    if is_shuffle_of_partial(tree) {
        let result = reduced(tree)->Ok_0;
        lemma_size_of_one(below);
        lemma_size_of_one(below[0].children);
        lemma_size_of_one(seq![below[0].children[0]]);
        lemma_size_of_one(seq![merging_node(below[0].children[0])]);
        lemma_size_of_one(result.children);
    }
}

proof fn lemma_sizes_of_all(list: Seq<PlanTree>)
    requires
        reduced_all(list) is Ok,
    ensures
        size_all(reduced_all(list)->Ok_0) == size_all(list) + shuffles_all(list),
    decreases list,
{
    if list.len() > 0 {
        lemma_sizes_of_all(list.drop_last());
        law_rewrite_adds_one_operator_per_shuffle(list.last());
        let front = reduced_all(list.drop_last())->Ok_0;
        let last = reduced(list.last())->Ok_0;
        assert(front.push(last).drop_last() =~= front);
    }
}

/// The rewrite only inserts operators: without those it gives the plan back, unless a repartition
/// that keeps the order of its rows shuffles a partial aggregation.
pub proof fn law_rewrite_only_inserts(tree: PlanTree)
    requires
        all_original(tree),
        no_ordered_shuffle(tree),
        reduced(tree) is Ok,
    ensures
        without_inserted(reduced(tree)->Ok_0) == tree,
    decreases tree,
{
    let below = reduced_all(tree.children)->Ok_0;
    lemma_reduced_each(tree.children);
    lemma_same_shuffle(tree);
    assert forall|i: int| 0 <= i < below.len() implies without_inserted(#[trigger] below[i])
        == tree.children[i] && below[i].origin is Some by {
        assert(reduced(tree.children[i]) == Ok::<PlanTree, PlanError>(below[i]));
        assert(decreases_to!(tree => tree.children[i]));
        law_rewrite_only_inserts(tree.children[i]);
        law_rewrite_keeps_the_root(tree.children[i]);
    }
    let mid = PlanTree { children: below, ..tree };
    assert(without_inserted(mid).children =~= tree.children);
    let result = reduced(tree)->Ok_0;
    if is_shuffle_of_partial(mid) {
        let old_child = tree.children[0];
        let repartition = below[0];
        assert(reduced(old_child) == Ok::<PlanTree, PlanError>(repartition));
        lemma_reduced_each(old_child.children);
        let partial = repartition.children[0];
        assert(reduced(old_child.children[0]) == Ok::<PlanTree, PlanError>(partial));
        law_rewrite_keeps_the_root(old_child.children[0]);
        assert(all_original(old_child));
        assert(all_original(old_child.children[0]));
        assert(without_inserted(repartition).children[0] == without_inserted(partial));
        let new_repartition = result.children[0];
        assert(new_repartition.children[0] == merging_node(partial));
        assert(without_inserted(new_repartition).children[0] == without_inserted(partial));
        assert(without_inserted(new_repartition).children =~= without_inserted(
            repartition,
        ).children);
        assert(without_inserted(new_repartition) == old_child);
        assert(without_inserted(result).children =~= tree.children);
    } else {
        assert(result == mid);
    }
}

/// A network boundary over a hash repartition over a partial aggregation gets an aggregation in
/// mode [`AggregateMode::PartialReduce`] between the last two, and keeps everything else. The
/// inserted aggregation has the functions, filters, input schema and grouping sets of the partial
/// one. Its keys are as many, and each reads the column at which the partial aggregation puts out
/// that very key, under the name of the key. What feeds the partial aggregation has been rewritten
/// too.
pub proof fn law_shuffle_gets_a_merging_aggregation(tree: PlanTree)
    requires
        reduced(tree) is Ok,
        tree.operator is NetworkBoundary,
        tree.children.len() == 1,
        tree.children[0].operator is Repartition,
        tree.children[0].operator->distribution is Hash,
        tree.children[0].children.len() == 1,
        tree.children[0].children[0].operator is Aggregate,
        tree.children[0].children[0].operator->Aggregate_0.mode == AggregateMode::Partial,
    ensures
        ({
            let partial = tree.children[0].children[0].operator->Aggregate_0;
            let rewritten = reduced(tree)->Ok_0;
            let repartition = rewritten.children[0];
            let inserted = repartition.children[0];
            let merging = inserted.operator->Aggregate_0;
            &&& rewritten.origin == tree.origin
            &&& rewritten.operator == tree.operator
            &&& rewritten.children.len() == 1
            &&& repartition.origin == tree.children[0].origin
            &&& repartition.operator is Repartition
            &&& repartition.operator->distribution == tree.children[0].operator->distribution
            &&& !repartition.operator->preserve_order
            &&& repartition.children.len() == 1
            &&& inserted.origin is None
            &&& inserted.operator is Aggregate
            &&& merging.mode == AggregateMode::PartialReduce
            &&& merging.functions == partial.functions
            &&& merging.filters == partial.filters
            &&& merging.input_schema == partial.input_schema
            &&& merging.input_types == partial.input_types
            &&& merging.group_by.groups == partial.group_by.groups
            &&& merging.group_by.has_grouping_set == partial.group_by.has_grouping_set
            &&& merging.group_by.exprs.len() == partial.group_by.exprs.len()
            &&& forall|i: int|
                0 <= i < partial.group_by.exprs.len() ==> {
                    &&& (#[trigger] merging.group_by.exprs[i]).alias
                        == partial.group_by.exprs[i].alias
                    &&& merging.group_by.exprs[i].expr == (KeyExprView::Column {
                        name: partial.group_by.exprs[i].alias,
                        index: i as usize,
                    })
                }
            &&& merging.group_by.null_exprs.len() == partial.group_by.null_exprs.len()
            &&& forall|i: int|
                0 <= i < partial.group_by.null_exprs.len() ==> {
                    &&& (#[trigger] merging.group_by.null_exprs[i]).alias
                        == partial.group_by.null_exprs[i].alias
                    &&& merging.group_by.null_exprs[i].expr == (KeyExprView::Column {
                        name: partial.group_by.null_exprs[i].alias,
                        index: i as usize,
                    })
                }
            &&& inserted.children.len() == 1
            &&& reduced(tree.children[0].children[0]) == Ok::<PlanTree, PlanError>(
                inserted.children[0],
            )
        }),
{
    lemma_same_shuffle(tree);
    lemma_reduced_each(tree.children);
    let below = reduced_all(tree.children)->Ok_0;
    let child = tree.children[0];
    assert(reduced(child) == Ok::<PlanTree, PlanError>(below[0]));
    law_rewrite_keeps_the_root(child);
    lemma_reduced_each(child.children);
    assert(reduced(child.children[0]) == Ok::<PlanTree, PlanError>(below[0].children[0]));
    law_rewrite_keeps_the_root(child.children[0]);
}

/// The keys of a merging aggregation read different columns: no two of them the same.
pub proof fn law_merging_keys_read_different_columns(tree: PlanTree, i: int, j: int)
    requires
        reduced(tree) is Ok,
        tree.operator is NetworkBoundary,
        tree.children.len() == 1,
        tree.children[0].operator is Repartition,
        tree.children[0].operator->distribution is Hash,
        tree.children[0].children.len() == 1,
        tree.children[0].children[0].operator is Aggregate,
        tree.children[0].children[0].operator->Aggregate_0.mode == AggregateMode::Partial,
        tree.children[0].children[0].operator->Aggregate_0.group_by.exprs.len() <= usize::MAX,
        0 <= i < j < tree.children[0].children[0].operator->Aggregate_0.group_by.exprs.len(),
    ensures
        ({
            let inserted = reduced(tree)->Ok_0.children[0].children[0];
            let keys = inserted.operator->Aggregate_0.group_by.exprs;
            &&& keys[i].expr is Column
            &&& keys[j].expr is Column
            &&& keys[i].expr->index == i
            &&& keys[j].expr->index == j
            &&& keys[i].expr->index != keys[j].expr->index
        }),
{
    law_shuffle_gets_a_merging_aggregation(tree);
    let inserted = reduced(tree)->Ok_0.children[0].children[0];
    let keys = inserted.operator->Aggregate_0.group_by.exprs;
    assert(keys[i].alias == keys[i].alias);
    assert(keys[j].alias == keys[j].alias);
}

/// Any other operator stays as it is, with each of its children rewritten in its place.
pub proof fn law_other_operators_only_get_rewritten_children(tree: PlanTree)
    requires
        reduced(tree) is Ok,
        !({
            &&& tree.operator is NetworkBoundary
            &&& tree.children.len() == 1
            &&& tree.children[0].operator is Repartition
            &&& tree.children[0].operator->distribution is Hash
            &&& tree.children[0].children.len() == 1
            &&& tree.children[0].children[0].operator is Aggregate
            &&& tree.children[0].children[0].operator->Aggregate_0.mode == AggregateMode::Partial
        }),
    ensures
        reduced(tree)->Ok_0.origin == tree.origin,
        reduced(tree)->Ok_0.operator == tree.operator,
        reduced(tree)->Ok_0.children.len() == tree.children.len(),
        forall|i: int|
            0 <= i < tree.children.len() ==> reduced(#[trigger] tree.children[i]) == Ok::<
                PlanTree,
                PlanError,
            >(reduced(tree)->Ok_0.children[i]),
{
    lemma_same_shuffle(tree);
    lemma_reduced_each(tree.children);
}

/// A plan that cannot be rewritten below one of its children fails as the first such child does.
pub proof fn law_first_child_that_fails_decides(tree: PlanTree, i: int)
    requires
        0 <= i < tree.children.len(),
        forall|j: int| 0 <= j < i ==> reduced(#[trigger] tree.children[j]) is Ok,
        reduced(tree.children[i]) is Err,
    ensures
        reduced(tree) == Err::<PlanTree, PlanError>(reduced(tree.children[i])->Err_0),
{
    let front = tree.children.take(i);
    let results = Seq::new(front.len(), |j: int| reduced(front[j])->Ok_0);
    assert forall|j: int| 0 <= j < front.len() implies reduced(#[trigger] front[j]) == Ok::<
        PlanTree,
        PlanError,
    >(results[j]) by {
        assert(front[j] == tree.children[j]);
    }
    lemma_reduced_from_each(front, results);
    lemma_first_error(tree.children, i);
}

/// Where all children of an operator can be rewritten, the operator can, with two exceptions: a
/// network boundary that has not exactly one child, and one over a hash repartition that has not
/// exactly one child. The error names the number of children.
pub proof fn law_boundaries_need_one_child(tree: PlanTree)
    requires
        forall|j: int| 0 <= j < tree.children.len() ==> reduced(#[trigger] tree.children[j]) is Ok,
    ensures
        ({
            let boundary = tree.operator is NetworkBoundary;
            let one = tree.children.len() == 1;
            let hash = one && tree.children[0].operator is Repartition
                && tree.children[0].operator->distribution is Hash;
            &&& boundary && !one ==> reduced(tree) == Err::<PlanTree, PlanError>(
                PlanError::ExpectedOneChild(tree.children.len() as usize),
            )
            &&& boundary && hash && tree.children[0].children.len() != 1 ==> reduced(tree)
                == Err::<PlanTree, PlanError>(
                PlanError::ExpectedOneChild(tree.children[0].children.len() as usize),
            )
            &&& !boundary || (one && !hash) || (hash && tree.children[0].children.len() == 1)
                ==> reduced(tree) is Ok
        }),
{
    let results = Seq::new(tree.children.len(), |j: int| reduced(tree.children[j])->Ok_0);
    assert forall|j: int| 0 <= j < tree.children.len() implies reduced(#[trigger] tree.children[j])
        == Ok::<PlanTree, PlanError>(results[j]) by {}
    lemma_reduced_from_each(tree.children, results);
    if tree.children.len() == 1 {
        law_rewrite_keeps_the_root(tree.children[0]);
    }
}

} // verus!
