//! Sorting results by id.

use crate::ids::{
    id_key, id_precedes, key_less, law_id_order_is_total, law_ids_come_by_number_and_then_by_text,
    number_in, IdKey,
};
use crate::results::{results_view, BenchResult, BenchResultView};
use crate::text::lex_less;
use vstd::prelude::*;

verus! {

/// The key that a result is sorted by.
pub open spec fn result_key(r: BenchResultView) -> IdKey {
    id_key(r.id)
}

/// No result stands behind one that it comes before.
pub open spec fn is_sorted(s: Seq<BenchResultView>) -> bool {
    forall|i: int, j: int|
        0 <= i < j < s.len() ==> !key_less(
            result_key(#[trigger] s[j]),
            result_key(#[trigger] s[i]),
        )
}

/// The results with the key `k`, in order.
pub open spec fn with_key(s: Seq<BenchResultView>, k: IdKey) -> Seq<BenchResultView> {
    s.filter(|r: BenchResultView| result_key(r) == k)
}

/// The two lists hold the same results, and results with equal keys stand in the same order.
pub open spec fn same_up_to_keys(a: Seq<BenchResultView>, b: Seq<BenchResultView>) -> bool {
    forall|k: IdKey| #[trigger] with_key(a, k) == with_key(b, k)
}

/// `sorted` is what a stable sort by id makes of `s`.
pub open spec fn is_stable_sort(s: Seq<BenchResultView>, sorted: Seq<BenchResultView>) -> bool {
    is_sorted(sorted) && same_up_to_keys(sorted, s)
}

proof fn lemma_with_key_of_sum(a: Seq<BenchResultView>, b: Seq<BenchResultView>, k: IdKey)
    ensures
        with_key(a + b, k) == with_key(a, k) + with_key(b, k),
{
    Seq::filter_distributes_over_add(a, b, |r: BenchResultView| result_key(r) == k);
}

proof fn lemma_with_key_of_one(x: BenchResultView, k: IdKey)
    ensures
        with_key(seq![x], k) == if result_key(x) == k {
            seq![x]
        } else {
            Seq::empty()
        },
{
    reveal_with_fuel(Seq::filter, 2);
    assert(seq![x].drop_last() =~= Seq::<BenchResultView>::empty());
    assert(Seq::<BenchResultView>::empty().push(x) =~= seq![x]);
}

proof fn lemma_with_key_absent(s: Seq<BenchResultView>, k: IdKey)
    requires
        forall|i: int| 0 <= i < s.len() ==> result_key(#[trigger] s[i]) != k,
    ensures
        with_key(s, k) == Seq::<BenchResultView>::empty(),
    decreases s.len(),
{
    reveal(Seq::filter);
    if s.len() > 0 {
        assert forall|i: int| 0 <= i < s.len() - 1 implies result_key(#[trigger] s.drop_last()[i])
            != k by {
            assert(s[i] == s.drop_last()[i]);
        }
        assert(result_key(s[s.len() - 1]) != k);
        lemma_with_key_absent(s.drop_last(), k);
    }
}

/// Inserting the first element of `rest` into the sorted remainder, before everything that does
/// not come before it, gives a stable sort of `rest`.
proof fn lemma_insert(rest: Seq<BenchResultView>, sorted: Seq<BenchResultView>, pos: int)
    requires
        rest.len() > 0,
        is_stable_sort(rest.skip(1), sorted),
        0 <= pos <= sorted.len(),
        forall|i: int|
            0 <= i < pos ==> key_less(result_key(#[trigger] sorted[i]), result_key(rest[0])),
        pos < sorted.len() ==> !key_less(result_key(sorted[pos]), result_key(rest[0])),
    ensures
        is_stable_sort(rest, sorted.insert(pos, rest[0])),
{
    let x = rest[0];
    let out = sorted.insert(pos, x);
    let front = sorted.take(pos);
    let back = sorted.skip(pos);
    assert(out =~= front + (seq![x] + back));
    assert(sorted =~= front + back);
    assert(rest =~= seq![x] + rest.skip(1));
    assert forall|i: int, j: int| 0 <= i < j < out.len() implies !key_less(
        result_key(#[trigger] out[j]),
        result_key(#[trigger] out[i]),
    ) by {
        let ki = result_key(out[i]);
        let kj = result_key(out[j]);
        let kx = result_key(x);
        if j < pos {
            assert(out[i] == sorted[i] && out[j] == sorted[j]);
        } else if j == pos {
            assert(out[i] == sorted[i]);
            law_id_order_is_total(ki, kx, ki);
        } else if i == pos {
            assert(out[j] == sorted[j - 1]);
            let kp = result_key(sorted[pos]);
            if j - 1 > pos {
                assert(!key_less(result_key(sorted[j - 1]), result_key(sorted[pos])));
            }
            law_id_order_is_total(kp, kj, kx);
            law_id_order_is_total(kj, kp, kx);
        } else if i < pos {
            assert(out[i] == sorted[i] && out[j] == sorted[j - 1]);
        } else {
            assert(out[i] == sorted[i - 1] && out[j] == sorted[j - 1]);
        }
    }
    assert forall|k: IdKey| #[trigger] with_key(out, k) == with_key(rest, k) by {
        lemma_with_key_of_sum(front, seq![x] + back, k);
        lemma_with_key_of_sum(seq![x], back, k);
        lemma_with_key_of_sum(front, back, k);
        lemma_with_key_of_sum(seq![x], rest.skip(1), k);
        lemma_with_key_of_one(x, k);
        assert(with_key(sorted, k) == with_key(rest.skip(1), k));
        if result_key(x) == k {
            assert forall|i: int| 0 <= i < front.len() implies result_key(#[trigger] front[i])
                != k by {
                assert(front[i] == sorted[i]);
                law_id_order_is_total(k, k, k);
            }
            lemma_with_key_absent(front, k);
            assert(with_key(out, k) =~= with_key(rest, k));
        } else {
            assert(with_key(out, k) =~= with_key(rest, k));
        }
    }
}

/// Sorts results by the number in their id; results without a number come last, by id. Results
/// that compare equal keep their order.
pub fn sort_results(results: Vec<BenchResult>) -> (r: Vec<BenchResult>)
    ensures
        is_stable_sort(results_view(results@), results_view(r@)),
{
    let ghost all = results_view(results@);
    let mut rest = results;
    let mut out: Vec<BenchResult> = Vec::new();
    assert(all.skip(all.len() as int) =~= Seq::<BenchResultView>::empty());
    assert(results_view(out@) =~= Seq::<BenchResultView>::empty());
    while rest.len() > 0
        invariant
            rest@.len() <= all.len(),
            results_view(rest@) == all.take(rest@.len() as int),
            is_stable_sort(all.skip(rest@.len() as int), results_view(out@)),
        decreases rest@.len(),
    {
        let n: usize = rest.len() - 1;
        let ghost before = rest@;
        let x = rest.remove(n);
        assert(results_view(before)[n as int] == x@);
        assert(all.take(n + 1)[n as int] == all[n as int]);
        assert(results_view(rest@) =~= all.take(n as int)) by {
            assert(results_view(rest@) =~= results_view(before).take(n as int));
        }
        let ghost tail = all.skip(n as int);
        assert(tail.skip(1) =~= all.skip(n + 1));
        assert(tail[0] == x@);
        let mut pos: usize = 0;
        while pos < out.len() && id_precedes(out[pos].id.as_str(), x.id.as_str())
            invariant
                pos <= out@.len(),
                forall|i: int|
                    0 <= i < pos ==> key_less(
                        result_key(#[trigger] results_view(out@)[i]),
                        result_key(x@),
                    ),
            decreases out@.len() - pos,
        {
            pos = pos + 1;
        }
        let ghost sorted = results_view(out@);
        proof {
            if pos < out@.len() {
                assert(sorted[pos as int] == out@[pos as int]@);
            }
            lemma_insert(tail, sorted, pos as int);
        }
        out.insert(pos, x);
        assert(results_view(out@) =~= sorted.insert(pos as int, x@));
    }
    assert(all.skip(0) =~= all);
    out
}

/// The sorted list is determined by the list that was sorted.
pub proof fn law_stable_sort_is_unique(
    s: Seq<BenchResultView>,
    a: Seq<BenchResultView>,
    b: Seq<BenchResultView>,
)
    requires
        is_stable_sort(s, a),
        is_stable_sort(s, b),
    ensures
        a == b,
{
    assert forall|k: IdKey| #[trigger] with_key(a, k) == with_key(b, k) by {
        assert(with_key(a, k) == with_key(s, k));
        assert(with_key(b, k) == with_key(s, k));
    }
    lemma_unique(a, b);
}

proof fn lemma_first_with_key(a: Seq<BenchResultView>)
    requires
        a.len() > 0,
    ensures
        with_key(a, result_key(a[0])).len() > 0,
        with_key(a, result_key(a[0]))[0] == a[0],
        forall|k: IdKey|
            #[trigger] with_key(a, k) == if k == result_key(a[0]) {
                seq![a[0]] + with_key(a.skip(1), k)
            } else {
                with_key(a.skip(1), k)
            },
{
    assert(a =~= seq![a[0]] + a.skip(1));
    assert forall|k: IdKey|
        #[trigger] with_key(a, k) == if k == result_key(a[0]) {
            seq![a[0]] + with_key(a.skip(1), k)
        } else {
            with_key(a.skip(1), k)
        } by {
        lemma_with_key_of_sum(seq![a[0]], a.skip(1), k);
        lemma_with_key_of_one(a[0], k);
        assert(Seq::<BenchResultView>::empty() + with_key(a.skip(1), k) =~= with_key(a.skip(1), k));
    }
}

/// A list with a result under the key `k` does not start with a key that comes after `k`.
proof fn lemma_starts_low(b: Seq<BenchResultView>, k: IdKey)
    requires
        is_sorted(b),
        with_key(b, k).len() > 0,
    ensures
        b.len() > 0,
        !key_less(k, result_key(b[0])),
{
    if forall|i: int| 0 <= i < b.len() ==> result_key(#[trigger] b[i]) != k {
        lemma_with_key_absent(b, k);
    } else {
        let i = choose|i: int| 0 <= i < b.len() && result_key(#[trigger] b[i]) == k;
        if i == 0 {
            law_id_order_is_total(k, k, k);
        } else {
            assert(!key_less(result_key(b[i]), result_key(b[0])));
        }
    }
}

proof fn lemma_unique(a: Seq<BenchResultView>, b: Seq<BenchResultView>)
    requires
        is_sorted(a),
        is_sorted(b),
        same_up_to_keys(a, b),
    ensures
        a == b,
    decreases a.len(),
{
    if a.len() == 0 {
        if b.len() > 0 {
            lemma_first_with_key(b);
            assert(with_key(a, result_key(b[0])) == with_key(b, result_key(b[0])));
            lemma_with_key_absent(a, result_key(b[0]));
        }
        assert(a =~= b);
    } else {
        let ka = result_key(a[0]);
        lemma_first_with_key(a);
        assert(with_key(a, ka) == with_key(b, ka));
        lemma_starts_low(b, ka);
        let kb = result_key(b[0]);
        lemma_first_with_key(b);
        assert(with_key(a, kb) == with_key(b, kb));
        lemma_starts_low(a, kb);
        law_id_order_is_total(ka, kb, ka);
        assert(ka == kb);
        assert(a[0] == b[0]);
        assert forall|k: IdKey| #[trigger] with_key(a.skip(1), k) == with_key(b.skip(1), k) by {
            assert(with_key(a, k) == with_key(b, k));
            if k == ka {
                assert(with_key(a.skip(1), k) =~= with_key(a, k).skip(1));
                assert(with_key(b.skip(1), k) =~= with_key(b, k).skip(1));
            }
        }
        assert(is_sorted(a.skip(1)));
        assert(is_sorted(b.skip(1)));
        lemma_unique(a.skip(1), b.skip(1));
        assert(a =~= seq![a[0]] + a.skip(1));
        assert(b =~= seq![b[0]] + b.skip(1));
    }
}

/// Sorting neither loses nor adds a result.
pub proof fn law_sort_keeps_the_results(s: Seq<BenchResultView>, sorted: Seq<BenchResultView>)
    requires
        is_stable_sort(s, sorted),
    ensures
        sorted.to_multiset() == s.to_multiset(),
{
    assert forall|r: BenchResultView| sorted.to_multiset().count(r) == s.to_multiset().count(r) by {
        let k = result_key(r);
        lemma_count_with_key(s, r);
        lemma_count_with_key(sorted, r);
        assert(with_key(sorted, k) == with_key(s, k));
    }
    assert(sorted.to_multiset() =~= s.to_multiset());
}

/// No two results have the same key.
pub open spec fn keys_differ(s: Seq<BenchResultView>) -> bool {
    forall|i: int, j: int|
        0 <= i < j < s.len() ==> result_key(#[trigger] s[i]) != result_key(#[trigger] s[j])
}

/// Where no two results have the same key, the order in which they were loaded has no part in
/// the sorted list.
pub proof fn law_order_of_loading_does_not_matter(
    a: Seq<BenchResultView>,
    b: Seq<BenchResultView>,
    sorted_a: Seq<BenchResultView>,
    sorted_b: Seq<BenchResultView>,
)
    requires
        keys_differ(a),
        a.to_multiset() == b.to_multiset(),
        is_stable_sort(a, sorted_a),
        is_stable_sort(b, sorted_b),
    ensures
        sorted_a == sorted_b,
{
    broadcast use vstd::seq_lib::group_to_multiset_ensures;

    assert forall|k: IdKey| #[trigger] with_key(a, k) == with_key(b, k) by {
        let wa = with_key(a, k);
        let wb = with_key(b, k);
        lemma_one_with_key(a, k);
        assert forall|r: BenchResultView| wa.to_multiset().count(r) == wb.to_multiset().count(
            r,
        ) by {
            if result_key(r) == k {
                lemma_count_with_key(a, r);
                lemma_count_with_key(b, r);
            } else {
                lemma_count_of_other_key(a, k, r);
                lemma_count_of_other_key(b, k, r);
            }
        }
        assert(wa.to_multiset() =~= wb.to_multiset());
        assert(wa.to_multiset().len() == wa.len());
        assert(wb.to_multiset().len() == wb.len());
        if wa.len() == 1 {
            assert(wb.to_multiset().count(wa[0]) > 0) by {
                assert(wa.contains(wa[0]));
            }
            assert(wb.contains(wa[0]));
        }
        assert(wa =~= wb);
    }
    assert forall|k: IdKey| #[trigger] with_key(sorted_b, k) == with_key(a, k) by {
        assert(with_key(sorted_b, k) == with_key(b, k));
        assert(with_key(a, k) == with_key(b, k));
    }
    law_stable_sort_is_unique(a, sorted_a, sorted_b);
}

proof fn lemma_one_with_key(s: Seq<BenchResultView>, k: IdKey)
    requires
        keys_differ(s),
    ensures
        with_key(s, k).len() <= 1,
    decreases s.len(),
{
    reveal(Seq::filter);
    if s.len() > 0 {
        assert(keys_differ(s.drop_last()));
        lemma_one_with_key(s.drop_last(), k);
        if result_key(s.last()) == k {
            assert forall|i: int| 0 <= i < s.len() - 1 implies result_key(
                #[trigger] s.drop_last()[i],
            ) != k by {
                assert(result_key(s[i]) != result_key(s[s.len() - 1]));
            }
            lemma_with_key_absent(s.drop_last(), k);
        }
    }
}

proof fn lemma_count_of_other_key(s: Seq<BenchResultView>, k: IdKey, r: BenchResultView)
    requires
        result_key(r) != k,
    ensures
        with_key(s, k).to_multiset().count(r) == 0,
{
    broadcast use vstd::seq_lib::group_to_multiset_ensures;
    broadcast use vstd::seq_lib::group_filter_ensures;

    if with_key(s, k).contains(r) {
        let i = choose|i: int| 0 <= i < with_key(s, k).len() && with_key(s, k)[i] == r;
        assert(result_key(with_key(s, k)[i]) == k);
    }
}

proof fn lemma_count_with_key(s: Seq<BenchResultView>, r: BenchResultView)
    ensures
        s.to_multiset().count(r) == with_key(s, result_key(r)).to_multiset().count(r),
    decreases s.len(),
{
    broadcast use vstd::seq_lib::group_to_multiset_ensures;

    reveal(Seq::filter);
    if s.len() > 0 {
        let k = result_key(r);
        lemma_count_with_key(s.drop_last(), r);
        assert(s =~= s.drop_last().push(s.last()));
        if result_key(s.last()) == k {
            assert(with_key(s, k) == with_key(s.drop_last(), k).push(s.last()));
        } else {
            assert(with_key(s, k) == with_key(s.drop_last(), k));
        }
    }
}

/// In a sorted list the numbers in the ids do not decrease, ids without a number stand behind those
/// with one, and are in lexicographic order.
pub proof fn law_sorted_results_come_by_id(
    s: Seq<BenchResultView>,
    sorted: Seq<BenchResultView>,
    i: int,
    j: int,
)
    requires
        is_stable_sort(s, sorted),
        0 <= i < j < sorted.len(),
    ensures
        number_in(sorted[i].id) is None ==> number_in(sorted[j].id) is None,
        number_in(sorted[i].id) is Some && number_in(sorted[j].id) is Some ==> number_in(
            sorted[i].id,
        )->0 <= number_in(sorted[j].id)->0,
        number_in(sorted[i].id) is None ==> !lex_less(sorted[j].id, sorted[i].id),
{
    assert(!key_less(result_key(sorted[j]), result_key(sorted[i])));
    law_ids_come_by_number_and_then_by_text(sorted[j].id, sorted[i].id);
}

/// Sorting is stable: two results with the same number in their ids, or with the same id, stand
/// behind each other as before. The law gives the positions at which they stand.
pub proof fn law_sort_is_stable(
    s: Seq<BenchResultView>,
    sorted: Seq<BenchResultView>,
    i: int,
    j: int,
) -> (r: (int, int))
    requires
        is_stable_sort(s, sorted),
        0 <= i < j < s.len(),
        number_in(s[i].id) == number_in(s[j].id),
        number_in(s[i].id) is None ==> s[i].id == s[j].id,
    ensures
        0 <= r.0 < r.1 < sorted.len(),
        sorted[r.0] == s[i],
        sorted[r.1] == s[j],
{
    law_ids_come_by_number_and_then_by_text(s[i].id, s[j].id);
    let k = result_key(s[i]);
    let u = with_key(s.take(i), k).len() as int;
    let v = with_key(s.take(j), k).len() as int;
    lemma_place_of(s, k, i);
    lemma_place_of(s, k, j);
    lemma_places_grow(s, k, i + 1, j);
    assert(with_key(sorted, k) == with_key(s, k));
    let p = lemma_result_at_place(sorted, k, u);
    let q = lemma_result_at_place(sorted, k, v);
    if q <= p {
        lemma_places_grow(sorted, k, q, p);
    }
    (p, q)
}

/// A result with the key `k` stands behind the results with that key that precede it.
proof fn lemma_place_of(s: Seq<BenchResultView>, k: IdKey, i: int)
    requires
        0 <= i < s.len(),
        result_key(s[i]) == k,
    ensures
        with_key(s.take(i + 1), k).len() == with_key(s.take(i), k).len() + 1,
        with_key(s.take(i), k).len() < with_key(s, k).len(),
        with_key(s, k)[with_key(s.take(i), k).len() as int] == s[i],
{
    lemma_with_key_of_one(s[i], k);
    lemma_with_key_of_sum(s.take(i), seq![s[i]], k);
    assert(s.take(i) + seq![s[i]] =~= s.take(i + 1));
    lemma_with_key_of_sum(s.take(i + 1), s.skip(i + 1), k);
    assert(s.take(i + 1) + s.skip(i + 1) =~= s);
}

proof fn lemma_places_grow(s: Seq<BenchResultView>, k: IdKey, i: int, j: int)
    requires
        0 <= i <= j <= s.len(),
    ensures
        with_key(s.take(i), k).len() <= with_key(s.take(j), k).len(),
{
    lemma_with_key_of_sum(s.take(i), s.subrange(i, j), k);
    assert(s.take(i) + s.subrange(i, j) =~= s.take(j));
}

/// The position of a result among those with the key `k`.
proof fn lemma_result_at_place(s: Seq<BenchResultView>, k: IdKey, u: int) -> (p: int)
    requires
        0 <= u < with_key(s, k).len(),
    ensures
        0 <= p < s.len(),
        s[p] == with_key(s, k)[u],
        with_key(s.take(p), k).len() == u,
    decreases s.len(),
{
    if s.len() == 0 {
        lemma_with_key_absent(s, k);
        0
    } else {
        let front = s.drop_last();
        lemma_with_key_of_one(s.last(), k);
        lemma_with_key_of_sum(front, seq![s.last()], k);
        assert(front + seq![s.last()] =~= s);
        if u < with_key(front, k).len() {
            let p = lemma_result_at_place(front, k, u);
            assert(front.take(p) =~= s.take(p));
            p
        } else {
            assert(s.take(s.len() - 1) =~= front);
            s.len() - 1
        }
    }
}

} // verus!
