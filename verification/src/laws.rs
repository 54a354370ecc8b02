//! The engine's algebraic laws, stated over the operator specifications and
//! proved once and for all: projection idempotence, the filter order/size
//! law, and the aggregate count and sum laws.

use vstd::prelude::*;

use crate::numbers::int_str;
use crate::plan::{aggregate_spec, filter_spec, group_count, group_sum, keep_mask, keeps, key_at, keys_upto, lemma_group_zero, lemma_keys_upto_contains, lemma_keys_upto_distinct, lemma_mask_select_all_false, lemma_mask_select_all_true, lemma_mask_select_len, lemma_push_contains, mask_select, project_spec, row_matches, AggregateFunction};
use crate::table::{cols_wf, num_rows, ColModel};

verus! {

/// A filter that keeps every element changes nothing.
proof fn lemma_filter_all_kept(s: Seq<ColModel>, pred: spec_fn(ColModel) -> bool)
    requires
        forall|k: int| 0 <= k < s.len() ==> pred(#[trigger] s[k]),
    ensures
        s.filter(pred) == s,
    decreases s.len(),
{
    reveal(Seq::filter);
    if s.len() > 0 {
        assert forall|k: int| 0 <= k < s.drop_last().len() implies pred(
            #[trigger] s.drop_last()[k],
        ) by {
            assert(s.drop_last()[k] == s[k]);
        }
        lemma_filter_all_kept(s.drop_last(), pred);
        assert(pred(s.last()));
        assert(s.filter(pred) =~= s);
    } else {
        assert(s.filter(pred) =~= s);
    }
}

/// Idempotent projection: projecting the same names twice equals projecting
/// them once.
pub proof fn lemma_project_idempotent(c: Seq<ColModel>, cols: Seq<Seq<char>>)
    ensures
        project_spec(project_spec(c, cols), cols) == project_spec(c, cols),
{
    let f = project_spec(c, cols);
    assert forall|k: int| 0 <= k < f.len() implies keeps(cols)(#[trigger] f[k]) by {
        c.lemma_filter_pred(keeps(cols), k);
    }
    lemma_filter_all_kept(f, keeps(cols));
}

/// `a` occurs inside `b` in order: `a` is obtained from `b` by deleting rows
/// without reordering.
pub open spec fn is_subsequence(a: Seq<Seq<char>>, b: Seq<Seq<char>>) -> bool
    decreases a.len(), b.len(),
{
    if a.len() == 0 {
        true
    } else if b.len() == 0 {
        false
    } else {
        (a.last() == b.last() && is_subsequence(a.drop_last(), b.drop_last())) || is_subsequence(
            a,
            b.drop_last(),
        )
    }
}

/// Selection by a mask yields a subsequence: the kept rows stay in order.
pub proof fn lemma_mask_select_subsequence(data: Seq<Seq<char>>, mask: Seq<bool>)
    requires
        data.len() == mask.len(),
    ensures
        is_subsequence(mask_select(data, mask), data),
    decreases data.len(),
{
    if data.len() > 0 {
        lemma_mask_select_subsequence(data.drop_last(), mask.drop_last());
        let out = mask_select(data, mask);
        if mask.last() {
            let rest = mask_select(data.drop_last(), mask.drop_last());
            assert(out == rest.push(data.last()));
            assert(out.drop_last() =~= rest);
            assert(out.last() == data.last());
        }
    }
}

/// Filter order/size law: filtering keeps the column set and order, never
/// adds rows, keeps the kept rows in their original order, is the identity
/// under an always-true predicate, and leaves all column headers with zero
/// rows under an always-false predicate.
pub proof fn lemma_filter_laws(c: Seq<ColModel>, column: Seq<char>, literal: Seq<char>)
    requires
        cols_wf(c),
    ensures
        filter_spec(c, column, literal).len() == c.len(),
        forall|j: int|
            0 <= j < c.len() ==> #[trigger] filter_spec(c, column, literal)[j].name == c[j].name,
        forall|j: int|
            0 <= j < c.len() ==> #[trigger] filter_spec(c, column, literal)[j].data.len()
                <= c[j].data.len(),
        forall|j: int|
            0 <= j < c.len() ==> is_subsequence(
                (#[trigger] filter_spec(c, column, literal)[j]).data,
                c[j].data,
            ),
        (forall|i: int| 0 <= i < num_rows(c) ==> row_matches(c, column, literal, i))
            ==> filter_spec(c, column, literal) == c,
        (forall|i: int| 0 <= i < num_rows(c) ==> !row_matches(c, column, literal, i)) ==> forall|
            j: int,
        |
            0 <= j < c.len() ==> (#[trigger] filter_spec(c, column, literal)[j]).data.len() == 0,
{
    let f = filter_spec(c, column, literal);
    let mask = keep_mask(c, column, literal);
    assert forall|j: int| 0 <= j < c.len() implies c[j].data.len() == mask.len() by {
        assert(c[j].data.len() == c[0].data.len());
    }
    assert forall|j: int|
        0 <= j < c.len() implies #[trigger] f[j].data.len() <= c[j].data.len() && is_subsequence(
        f[j].data,
        c[j].data,
    ) by {
        lemma_mask_select_len(c[j].data, mask);
        lemma_mask_select_subsequence(c[j].data, mask);
    }
    if forall|i: int| 0 <= i < num_rows(c) ==> row_matches(c, column, literal, i) {
        assert forall|j: int| 0 <= j < c.len() implies #[trigger] f[j] == c[j] by {
            lemma_mask_select_all_true(c[j].data, mask);
            assert(f[j] =~= c[j]);
        }
        assert(f =~= c);
    }
    if forall|i: int| 0 <= i < num_rows(c) ==> !row_matches(c, column, literal, i) {
        assert forall|j: int| 0 <= j < c.len() implies (#[trigger] f[j]).data.len() == 0 by {
            lemma_mask_select_all_false(c[j].data, mask);
        }
    }
}

/// How often `k` occurs among the collected group keys.
pub open spec fn occ_count(keys: Seq<Seq<Seq<char>>>, k: Seq<Seq<char>>) -> int
    decreases keys.len(),
{
    if keys.len() == 0 {
        0
    } else {
        occ_count(keys.drop_last(), k) + if keys.last() == k {
            1int
        } else {
            0int
        }
    }
}

/// The sum of the `Count` aggregate over a set of group keys, for the first
/// `n` rows.
pub open spec fn counts_total(
    c: Seq<ColModel>,
    gb: Seq<Seq<char>>,
    keys: Seq<Seq<Seq<char>>>,
    n: int,
) -> int
    decreases keys.len(),
{
    if keys.len() == 0 {
        0
    } else {
        counts_total(c, gb, keys.drop_last(), n) + group_count(c, gb, keys.last(), n)
    }
}

/// Taking one more row into account raises the total count by the number of
/// occurrences of that row's key among the summed keys.
proof fn lemma_counts_total_step(
    c: Seq<ColModel>,
    gb: Seq<Seq<char>>,
    keys: Seq<Seq<Seq<char>>>,
    n: int,
)
    requires
        n >= 0,
    ensures
        counts_total(c, gb, keys, n + 1) == counts_total(c, gb, keys, n) + occ_count(
            keys,
            key_at(c, gb, n),
        ),
    decreases keys.len(),
{
    if keys.len() > 0 {
        lemma_counts_total_step(c, gb, keys.drop_last(), n);
    }
}

/// Among pairwise distinct keys, a key occurs once if present, else never.
proof fn lemma_occ_distinct(keys: Seq<Seq<Seq<char>>>, k: Seq<Seq<char>>)
    requires
        forall|g1: int, g2: int| 0 <= g1 < g2 < keys.len() ==> keys[g1] != keys[g2],
    ensures
        occ_count(keys, k) == if keys.contains(k) {
            1int
        } else {
            0int
        },
    decreases keys.len(),
{
    if keys.len() > 0 {
        let d = keys.drop_last();
        assert forall|g1: int, g2: int| 0 <= g1 < g2 < d.len() implies d[g1] != d[g2] by {
            assert(d[g1] == keys[g1] && d[g2] == keys[g2]);
        }
        lemma_occ_distinct(d, k);
        lemma_push_contains(d, keys.last(), k);
        assert(d.push(keys.last()) =~= keys);
        if keys.last() == k {
            assert(!d.contains(k)) by {
                if d.contains(k) {
                    let i = choose|i: int| 0 <= i < d.len() && d[i] == k;
                    assert(keys[i] == k && keys[keys.len() - 1] == k);
                }
            }
        }
    }
}

/// The count total over the distinct keys of the first `n` rows is `n`.
proof fn lemma_count_total_n(c: Seq<ColModel>, gb: Seq<Seq<char>>, n: int)
    requires
        n >= 0,
    ensures
        counts_total(c, gb, keys_upto(c, gb, n), n) == n,
    decreases n,
{
    if n > 0 {
        lemma_count_total_n(c, gb, n - 1);
        let prevk = keys_upto(c, gb, n - 1);
        let kstar = key_at(c, gb, n - 1);
        lemma_counts_total_step(c, gb, prevk, n - 1);
        lemma_keys_upto_distinct(c, gb, n - 1);
        lemma_occ_distinct(prevk, kstar);
        if prevk.contains(kstar) {
            assert(keys_upto(c, gb, n) == prevk);
        } else {
            assert(keys_upto(c, gb, n) == prevk.push(kstar));
            assert(prevk.push(kstar).drop_last() =~= prevk);
            lemma_keys_upto_contains(c, gb, n - 1, kstar);
            assert forall|m: int| 0 <= m < n - 1 implies key_at(c, gb, m) != kstar by {}
            lemma_group_zero(c, gb, kstar, n - 1);
            assert(counts_total(c, gb, prevk.push(kstar), n) == counts_total(c, gb, prevk, n)
                + group_count(c, gb, kstar, n));
        }
    }
}

/// Aggregate Count law: the `Count` aggregates of all emitted groups sum to
/// the input row count.
pub proof fn lemma_count_law(c: Seq<ColModel>, gb: Seq<Seq<char>>)
    ensures
        counts_total(c, gb, keys_upto(c, gb, num_rows(c) as int), num_rows(c) as int) == num_rows(
            c,
        ),
{
    lemma_count_total_n(c, gb, num_rows(c) as int);
}

/// Aggregate Sum law: in the aggregation output, each group's `Sum` column
/// holds the decimal text of the sum of the group's parsed numeric target
/// values, non-numeric values contributing zero (which is what `group_sum`
/// states row by row).
pub proof fn lemma_sum_law(
    c: Seq<ColModel>,
    gb: Seq<Seq<char>>,
    aggs: Seq<(Seq<char>, AggregateFunction)>,
    j: int,
    g: int,
)
    requires
        0 <= j < aggs.len(),
        aggs[j].1 is Sum,
        0 <= g < keys_upto(c, gb, num_rows(c) as int).len(),
    ensures
        aggregate_spec(c, gb, aggs)[gb.len() + j].data[g] == int_str(
            group_sum(
                c,
                gb,
                aggs[j].0,
                keys_upto(c, gb, num_rows(c) as int)[g],
                num_rows(c) as int,
            ),
        ),
{
}

/// The `Count` counterpart: each group's `Count` column holds the decimal
/// text of the group's row count.
pub proof fn lemma_count_column(
    c: Seq<ColModel>,
    gb: Seq<Seq<char>>,
    aggs: Seq<(Seq<char>, AggregateFunction)>,
    j: int,
    g: int,
)
    requires
        0 <= j < aggs.len(),
        aggs[j].1 is Count,
        0 <= g < keys_upto(c, gb, num_rows(c) as int).len(),
    ensures
        aggregate_spec(c, gb, aggs)[gb.len() + j].data[g] == int_str(
            group_count(c, gb, keys_upto(c, gb, num_rows(c) as int)[g], num_rows(c) as int),
        ),
{
}

} // verus!
