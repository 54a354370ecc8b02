//! The operator tree: scan, project, filter and group-aggregate nodes over a
//! bound table, each fully materializing its output chunk, together with the
//! specification of every operator's output.

use vstd::prelude::*;

use crate::chunk::{clone_columns, clone_strings, DataChunk};
use crate::numbers::{int_str, num_val};
use crate::table::{col_data, col_names, cols_model, cols_wf, find_col, has_col, num_rows, strings_distinct, ColModel, Column, Table};

verus! {

/// An aggregate capability with execution semantics: `Count` counts the rows
/// of a group, `Sum` accumulates the numeric values of a target column.
pub enum AggregateFunction {
    Count,
    Sum,
}

/// A named equality predicate over a row: holds when the row's value in
/// `column` equals `literal` exactly (and the column is present).
pub struct Predicate {
    pub column: String,
    pub literal: String,
}

/// One node of the executable query tree.
pub enum PlanNode<'a> {
    Scan(ScanNode<'a>),
    Project(ProjectNode<'a>),
    Filter(FilterNode<'a>),
    Aggregate(AggregateNode<'a>),
}

/// Leaf node: an exact copy of the bound table.
pub struct ScanNode<'a> {
    pub table: &'a Table,
}

/// Keeps only the child's columns whose names are requested; requested names
/// absent from the child are silently omitted.
pub struct ProjectNode<'a> {
    pub input: Box<PlanNode<'a>>,
    pub columns: Vec<String>,
}

/// Keeps, in order, the child's rows on which the predicate holds; the
/// column set is unchanged.
pub struct FilterNode<'a> {
    pub input: Box<PlanNode<'a>>,
    pub predicate: Predicate,
}

/// Groups the child's rows by the exact-match tuple of the `group_by`
/// columns' values and computes one value per (target column, function) pair
/// for every group.
pub struct AggregateNode<'a> {
    pub input: Box<PlanNode<'a>>,
    pub group_by: Vec<String>,
    pub aggregates: Vec<(String, AggregateFunction)>,
}

/// The keep-decision of a projection: a column is kept when its name is
/// among the requested names.
pub open spec fn keeps(cols: Seq<Seq<char>>) -> spec_fn(ColModel) -> bool {
    |col: ColModel| cols.contains(col.name)
}

/// Output of projection: the columns whose names are requested, in the
/// child's column order (duplicate requests collapse since each kept column
/// occurs once).
pub open spec fn project_spec(c: Seq<ColModel>, cols: Seq<Seq<char>>) -> Seq<ColModel> {
    c.filter(keeps(cols))
}

/// Whether row `i` satisfies the equality predicate `column = literal`.
/// A row of a chunk without the predicate's column matches nothing.
pub open spec fn row_matches(c: Seq<ColModel>, column: Seq<char>, literal: Seq<char>, i: int) -> bool {
    has_col(c, column) && col_data(c, column)[i] == literal
}

/// The per-row keep decisions of a filter over chunk `c`.
pub open spec fn keep_mask(c: Seq<ColModel>, column: Seq<char>, literal: Seq<char>) -> Seq<bool> {
    Seq::new(num_rows(c) as nat, |i: int| row_matches(c, column, literal, i))
}

/// The values at the positions where `mask` is true, in order.
pub open spec fn mask_select(data: Seq<Seq<char>>, mask: Seq<bool>) -> Seq<Seq<char>>
    decreases data.len(),
{
    if data.len() == 0 {
        Seq::empty()
    } else {
        let rest = mask_select(data.drop_last(), mask.drop_last());
        if mask.len() > 0 && mask.last() {
            rest.push(data.last())
        } else {
            rest
        }
    }
}

/// Output of filtering: every column keeps exactly the rows on which the
/// predicate holds, in the original order.
pub open spec fn filter_spec(c: Seq<ColModel>, column: Seq<char>, literal: Seq<char>) -> Seq<ColModel> {
    c.map_values(
        |col: ColModel| ColModel {
            name: col.name,
            data: mask_select(col.data, keep_mask(c, column, literal)),
        },
    )
}

/// The group key of row `i`: the tuple of the row's values in the group-by
/// columns.
pub open spec fn key_at(c: Seq<ColModel>, gb: Seq<Seq<char>>, i: int) -> Seq<Seq<char>> {
    gb.map_values(|g: Seq<char>| col_data(c, g)[i])
}

/// The distinct group keys among the first `n` rows, in order of first
/// occurrence.
pub open spec fn keys_upto(c: Seq<ColModel>, gb: Seq<Seq<char>>, n: int) -> Seq<Seq<Seq<char>>>
    decreases n,
{
    if n <= 0 {
        Seq::empty()
    } else {
        let prev = keys_upto(c, gb, n - 1);
        if prev.contains(key_at(c, gb, n - 1)) {
            prev
        } else {
            prev.push(key_at(c, gb, n - 1))
        }
    }
}

/// How many of the first `n` rows fall in the group keyed `key`.
pub open spec fn group_count(c: Seq<ColModel>, gb: Seq<Seq<char>>, key: Seq<Seq<char>>, n: int) -> int
    decreases n,
{
    if n <= 0 {
        0
    } else {
        group_count(c, gb, key, n - 1) + if key_at(c, gb, n - 1) == key {
            1int
        } else {
            0int
        }
    }
}

/// The sum of the numeric values of column `target` over the rows of the
/// group keyed `key`, among the first `n` rows; a value that denotes no
/// integer contributes zero.
pub open spec fn group_sum(
    c: Seq<ColModel>,
    gb: Seq<Seq<char>>,
    target: Seq<char>,
    key: Seq<Seq<char>>,
    n: int,
) -> int
    decreases n,
{
    if n <= 0 {
        0
    } else {
        group_sum(c, gb, target, key, n - 1) + if key_at(c, gb, n - 1) == key {
            num_val(col_data(c, target)[n - 1])
        } else {
            0int
        }
    }
}

/// The value of one aggregate for the group keyed `key` over the first `n`
/// rows.
pub open spec fn agg_value(
    c: Seq<ColModel>,
    gb: Seq<Seq<char>>,
    key: Seq<Seq<char>>,
    target: Seq<char>,
    f: AggregateFunction,
    n: int,
) -> int {
    match f {
        AggregateFunction::Count => group_count(c, gb, key, n),
        AggregateFunction::Sum => group_sum(c, gb, target, key, n),
    }
}

/// The model of an aggregate list: target column names and functions.
pub open spec fn aggs_model(aggs: Seq<(String, AggregateFunction)>) -> Seq<(Seq<char>, AggregateFunction)> {
    aggs.map_values(|p: (String, AggregateFunction)| (p.0@, p.1))
}

/// Output of aggregation: one column per group-by name holding every group's
/// key component, then one column per aggregate target holding the group's
/// aggregate value as decimal text; row `g` of all columns describes the
/// `g`-th group in order of first occurrence.
pub open spec fn aggregate_spec(
    c: Seq<ColModel>,
    gb: Seq<Seq<char>>,
    aggs: Seq<(Seq<char>, AggregateFunction)>,
) -> Seq<ColModel> {
    let n = num_rows(c) as int;
    let keys = keys_upto(c, gb, n);
    Seq::new(
        gb.len(),
        |j: int| ColModel { name: gb[j], data: Seq::new(keys.len(), |g: int| keys[g][j]) },
    ) + Seq::new(
        aggs.len(),
        |j: int|
            ColModel {
                name: aggs[j].0,
                data: Seq::new(
                    keys.len(),
                    |g: int| int_str(agg_value(c, gb, keys[g], aggs[j].0, aggs[j].1, n)),
                ),
            },
    )
}

/// The column-name side conditions of an aggregate node over its child's
/// output `c`: every group-by and target column is present, and the output
/// column names (group-by names and target names) are pairwise distinct.
pub open spec fn agg_names_ok(
    c: Seq<ColModel>,
    gb: Seq<Seq<char>>,
    aggs: Seq<(Seq<char>, AggregateFunction)>,
) -> bool {
    &&& forall|j: int| 0 <= j < gb.len() ==> has_col(c, #[trigger] gb[j])
    &&& forall|j: int| 0 <= j < aggs.len() ==> has_col(c, (#[trigger] aggs[j]).0)
    &&& forall|j: int, k: int| 0 <= j < k < gb.len() ==> gb[j] != gb[k]
    &&& forall|j: int, k: int| 0 <= j < k < aggs.len() ==> aggs[j].0 != aggs[k].0
    &&& forall|j: int, k: int|
        0 <= j < gb.len() && 0 <= k < aggs.len() ==> gb[j] != aggs[k].0
}

/// The output chunk of a plan: scan copies the table, and each transforming
/// node applies its operator's specification to its child's output.
pub open spec fn plan_out<'a>(p: PlanNode<'a>) -> Seq<ColModel>
    decreases p,
{
    match p {
        PlanNode::Scan(s) => s.table@,
        PlanNode::Project(pr) => project_spec(plan_out(*pr.input), pr.columns.deep_view()),
        PlanNode::Filter(f) => filter_spec(
            plan_out(*f.input),
            f.predicate.column@,
            f.predicate.literal@,
        ),
        PlanNode::Aggregate(a) => aggregate_spec(
            plan_out(*a.input),
            a.group_by.deep_view(),
            aggs_model(a.aggregates@),
        ),
    }
}

/// Well-formedness of a plan: the scanned table satisfies its row-length
/// invariant, and every aggregate node's group-by and target columns resolve
/// in its child's output with pairwise distinct output names.
pub open spec fn plan_wf<'a>(p: PlanNode<'a>) -> bool
    decreases p,
{
    match p {
        PlanNode::Scan(s) => s.table.wf(),
        PlanNode::Project(pr) => plan_wf(*pr.input),
        PlanNode::Filter(f) => plan_wf(*f.input),
        PlanNode::Aggregate(a) => plan_wf(*a.input) && agg_names_ok(
            plan_out(*a.input),
            a.group_by.deep_view(),
            aggs_model(a.aggregates@),
        ),
    }
}

/// Whether `s` occurs among the strings of `v`.
pub fn contains_string(v: &Vec<String>, s: &String) -> (r: bool)
    ensures
        r == v.deep_view().contains(s@),
{
    let mut i: usize = 0;
    while i < v.len()
        invariant
            0 <= i <= v.len(),
            forall|j: int| 0 <= j < i ==> v.deep_view()[j] != s@,
        decreases v.len() - i,
    {
        assert(v.deep_view()[i as int] == v@[i as int]@);
        if v[i] == *s {
            return true;
        }
        i += 1;
    }
    false
}

/// Scan: an exact copy of the bound table's columns and rows.
pub fn scan_table(t: &Table) -> (r: DataChunk)
    ensures
        r@ == t@,
{
    DataChunk { columns: clone_columns(&t.columns) }
}

/// Project: keep only the requested columns of `input`, in its column order.
pub fn project_chunk(input: DataChunk, cols: &Vec<String>) -> (r: DataChunk)
    ensures
        r@ == project_spec(input@, cols.deep_view()),
{
    let ghost c = input@;
    let ghost pred = keeps(cols.deep_view());
    let mut out: Vec<Column> = Vec::new();
    let mut i: usize = 0;
    while i < input.columns.len()
        invariant
            0 <= i <= input.columns.len(),
            c == input@,
            pred == keeps(cols.deep_view()),
            cols_model(out@) == c.take(i as int).filter(pred),
        decreases input.columns.len() - i,
    {
        proof {
            assert(c.take(i + 1).drop_last() =~= c.take(i as int));
            assert(c.take(i + 1).last() == c[i as int]);
            assert(c[i as int] == input.columns@[i as int]@);
        }
        let keep = contains_string(cols, &input.columns[i].name);
        if keep {
            let col = Column {
                name: input.columns[i].name.clone(),
                data: clone_strings(&input.columns[i].data),
            };
            assert(col@ =~= c[i as int]);
            out.push(col);
        }
        proof {
            reveal(Seq::filter);
            assert(pred(c[i as int]) == keep);
            assert(cols_model(out@) =~= c.take(i + 1).filter(pred));
        }
        i += 1;
    }
    proof {
        assert(c.take(input.columns@.len() as int) =~= c);
    }
    DataChunk { columns: out }
}

/// How many positions of `mask` are true.
pub open spec fn count_true(mask: Seq<bool>) -> int
    decreases mask.len(),
{
    if mask.len() == 0 {
        0
    } else {
        count_true(mask.drop_last()) + if mask.last() {
            1int
        } else {
            0int
        }
    }
}

/// Selecting by a mask yields one row per true position, never more rows
/// than the input has.
pub proof fn lemma_mask_select_len(data: Seq<Seq<char>>, mask: Seq<bool>)
    requires
        data.len() == mask.len(),
    ensures
        mask_select(data, mask).len() == count_true(mask),
        0 <= count_true(mask) <= mask.len(),
    decreases data.len(),
{
    if data.len() > 0 {
        lemma_mask_select_len(data.drop_last(), mask.drop_last());
    }
}

/// An all-true mask keeps every row: selection is the identity.
pub proof fn lemma_mask_select_all_true(data: Seq<Seq<char>>, mask: Seq<bool>)
    requires
        data.len() == mask.len(),
        forall|i: int| 0 <= i < mask.len() ==> mask[i],
    ensures
        mask_select(data, mask) == data,
    decreases data.len(),
{
    if data.len() > 0 {
        assert forall|i: int| 0 <= i < mask.drop_last().len() implies mask.drop_last()[i] by {
            assert(mask.drop_last()[i] == mask[i]);
        }
        lemma_mask_select_all_true(data.drop_last(), mask.drop_last());
        assert(mask.last());
        assert(mask_select(data, mask) =~= data);
    } else {
        assert(mask_select(data, mask) =~= data);
    }
}

/// An all-false mask keeps no row.
pub proof fn lemma_mask_select_all_false(data: Seq<Seq<char>>, mask: Seq<bool>)
    requires
        data.len() == mask.len(),
        forall|i: int| 0 <= i < mask.len() ==> !mask[i],
    ensures
        mask_select(data, mask) == Seq::<Seq<char>>::empty(),
    decreases data.len(),
{
    if data.len() > 0 {
        assert forall|i: int| 0 <= i < mask.drop_last().len() implies !mask.drop_last()[i] by {
            assert(mask.drop_last()[i] == mask[i]);
        }
        lemma_mask_select_all_false(data.drop_last(), mask.drop_last());
        assert(!mask.last());
    }
}

/// The strings of `data` at the positions where `mask` is true, in order.
pub fn select_rows(data: &Vec<String>, mask: &Vec<bool>) -> (r: Vec<String>)
    requires
        data@.len() == mask@.len(),
    ensures
        r.deep_view() == mask_select(data.deep_view(), mask@),
{
    let mut r: Vec<String> = Vec::new();
    let mut k: usize = 0;
    while k < data.len()
        invariant
            0 <= k <= data@.len(),
            data@.len() == mask@.len(),
            r.deep_view() == mask_select(data.deep_view().take(k as int), mask@.take(k as int)),
        decreases data.len() - k,
    {
        proof {
            let dv = data.deep_view();
            assert(dv.take(k + 1).drop_last() =~= dv.take(k as int));
            assert(mask@.take(k + 1).drop_last() =~= mask@.take(k as int));
            assert(dv.take(k + 1).last() == dv[k as int]);
            assert(dv[k as int] == data@[k as int]@);
            assert(mask@.take(k + 1).last() == mask@[k as int]);
        }
        if mask[k] {
            r.push(data[k].clone());
        }
        proof {
            assert(r.deep_view() =~= mask_select(
                data.deep_view().take(k + 1),
                mask@.take(k + 1),
            ));
        }
        k += 1;
    }
    proof {
        assert(data.deep_view().take(data@.len() as int) =~= data.deep_view());
        assert(mask@.take(data@.len() as int) =~= mask@);
    }
    r
}

/// Filter: keep, in order, exactly the rows of `input` on which the equality
/// predicate holds; the column set is unchanged.
pub fn filter_chunk(input: DataChunk, pred: &Predicate) -> (r: DataChunk)
    requires
        cols_wf(input@),
    ensures
        r@ == filter_spec(input@, pred.column@, pred.literal@),
{
    let ghost c = input@;
    let nrows = input.row_count();
    let idx = input.find_column(&pred.column);
    let mut mask: Vec<bool> = Vec::new();
    let mut i: usize = 0;
    while i < nrows
        invariant
            0 <= i <= nrows,
            c == input@,
            cols_wf(c),
            nrows == num_rows(c),
            match idx {
                Some(ci) => 0 <= ci < input.columns@.len() && ci == find_col(c, pred.column@),
                None => find_col(c, pred.column@) == -1,
            },
            mask@.len() == i,
            forall|m: int|
                0 <= m < i ==> mask@[m] == row_matches(c, pred.column@, pred.literal@, m),
        decreases nrows - i,
    {
        let keep_row = match idx {
            Some(ci) => {
                proof {
                    assert(c[ci as int] == input.columns@[ci as int]@);
                    assert(c[ci as int].data.len() == num_rows(c));
                }
                input.columns[ci].data[i] == pred.literal
            },
            None => false,
        };
        proof {
            if idx is Some {
                let ci = idx->0;
                assert(col_data(c, pred.column@) == c[ci as int].data);
                assert(col_data(c, pred.column@)[i as int] == input.columns@[
                    ci as int
                ].data@[i as int]@);
                assert(keep_row == row_matches(c, pred.column@, pred.literal@, i as int));
            } else {
                assert(!has_col(c, pred.column@));
                assert(keep_row == row_matches(c, pred.column@, pred.literal@, i as int));
            }
        }
        mask.push(keep_row);
        i += 1;
    }
    proof {
        assert(mask@ =~= keep_mask(c, pred.column@, pred.literal@));
    }
    let mut out: Vec<Column> = Vec::new();
    let mut j: usize = 0;
    while j < input.columns.len()
        invariant
            0 <= j <= input.columns@.len(),
            c == input@,
            cols_wf(c),
            mask@ == keep_mask(c, pred.column@, pred.literal@),
            mask@.len() == num_rows(c),
            out@.len() == j,
            forall|jj: int|
                0 <= jj < j ==> #[trigger] out@[jj]@ == filter_spec(
                    c,
                    pred.column@,
                    pred.literal@,
                )[jj],
        decreases input.columns.len() - j,
    {
        proof {
            assert(c[j as int] == input.columns@[j as int]@);
            assert(c[j as int].data.len() == num_rows(c));
        }
        let col = Column {
            name: input.columns[j].name.clone(),
            data: select_rows(&input.columns[j].data, &mask),
        };
        proof {
            assert(col@ =~= filter_spec(c, pred.column@, pred.literal@)[j as int]);
        }
        out.push(col);
        j += 1;
    }
    proof {
        assert(cols_model(out@) =~= filter_spec(c, pred.column@, pred.literal@));
    }
    DataChunk { columns: out }
}

/// A pushed sequence holds exactly the old elements and the pushed one.
pub proof fn lemma_push_contains<A>(s: Seq<A>, x: A, y: A)
    ensures
        s.push(x).contains(y) <==> (s.contains(y) || y == x),
{
    if s.push(x).contains(y) {
        let i = choose|i: int| 0 <= i < s.push(x).len() && s.push(x)[i] == y;
        if i < s.len() {
            assert(s[i] == y);
        }
    }
    if s.contains(y) {
        let i = choose|i: int| 0 <= i < s.len() && s[i] == y;
        assert(s.push(x)[i] == y);
    }
    if y == x {
        assert(s.push(x)[s.len() as int] == y);
    }
}

/// A key occurs among the first `n` rows' distinct keys exactly when some of
/// those rows carries it.
pub proof fn lemma_keys_upto_contains(
    c: Seq<ColModel>,
    gb: Seq<Seq<char>>,
    n: int,
    k: Seq<Seq<char>>,
)
    ensures
        keys_upto(c, gb, n).contains(k) <==> exists|m: int| 0 <= m < n && key_at(c, gb, m) == k,
    decreases n,
{
    if n > 0 {
        lemma_keys_upto_contains(c, gb, n - 1, k);
        let prev = keys_upto(c, gb, n - 1);
        let last = key_at(c, gb, n - 1);
        if !prev.contains(last) {
            lemma_push_contains(prev, last, k);
        }
        if exists|m: int| 0 <= m < n && key_at(c, gb, m) == k {
            let m = choose|m: int| 0 <= m < n && key_at(c, gb, m) == k;
            if m < n - 1 {
                assert(prev.contains(k));
            }
        }
    }
}

/// The distinct keys of the first `n` rows are pairwise distinct.
pub proof fn lemma_keys_upto_distinct(c: Seq<ColModel>, gb: Seq<Seq<char>>, n: int)
    ensures
        forall|g1: int, g2: int|
            0 <= g1 < g2 < keys_upto(c, gb, n).len() ==> keys_upto(c, gb, n)[g1] != keys_upto(
                c,
                gb,
                n,
            )[g2],
    decreases n,
{
    if n > 0 {
        lemma_keys_upto_distinct(c, gb, n - 1);
        let prev = keys_upto(c, gb, n - 1);
        let last = key_at(c, gb, n - 1);
        let cur = keys_upto(c, gb, n);
        if !prev.contains(last) {
            assert forall|g1: int, g2: int|
                0 <= g1 < g2 < cur.len() implies cur[g1] != cur[g2] by {
                if g2 == cur.len() - 1 {
                    if prev[g1] == last {
                        assert(prev.contains(last));
                    }
                } else {
                    assert(cur[g1] == prev[g1] && cur[g2] == prev[g2]);
                }
            }
        }
    }
}

/// A group no row of the prefix belongs to counts zero rows and sums to
/// zero.
pub proof fn lemma_group_zero(c: Seq<ColModel>, gb: Seq<Seq<char>>, key: Seq<Seq<char>>, n: int)
    requires
        forall|m: int| 0 <= m < n ==> key_at(c, gb, m) != key,
    ensures
        group_count(c, gb, key, n) == 0,
        forall|t: Seq<char>| #[trigger] group_sum(c, gb, t, key, n) == 0,
    decreases n,
{
    if n > 0 {
        lemma_group_zero(c, gb, key, n - 1);
        assert forall|t: Seq<char>| #[trigger] group_sum(c, gb, t, key, n) == 0 by {
            assert(group_sum(c, gb, t, key, n - 1) == 0);
        }
    }
}

/// A group's row count over a prefix of `n` rows lies between 0 and `n`.
pub proof fn lemma_group_count_bounds(c: Seq<ColModel>, gb: Seq<Seq<char>>, key: Seq<Seq<char>>, n: int)
    requires
        n >= 0,
    ensures
        0 <= group_count(c, gb, key, n) <= n,
    decreases n,
{
    if n > 0 {
        lemma_group_count_bounds(c, gb, key, n - 1);
    }
}

/// A group's sum over a prefix of `n` rows is bounded by `n` numeric values.
pub proof fn lemma_group_sum_bounds(
    c: Seq<ColModel>,
    gb: Seq<Seq<char>>,
    target: Seq<char>,
    key: Seq<Seq<char>>,
    n: int,
)
    requires
        n >= 0,
    ensures
        -(n * (i64::MAX as int + 1)) <= group_sum(c, gb, target, key, n) <= n * (
        i64::MAX as int + 1),
    decreases n,
{
    if n > 0 {
        lemma_group_sum_bounds(c, gb, target, key, n - 1);
        crate::numbers::lemma_num_val_bound(col_data(c, target)[n - 1]);
    }
}

/// Whether two string vectors hold the same strings in the same order.
pub fn vec_str_eq(a: &Vec<String>, b: &Vec<String>) -> (r: bool)
    ensures
        r == (a.deep_view() == b.deep_view()),
{
    if a.len() != b.len() {
        assert(a.deep_view().len() != b.deep_view().len());
        return false;
    }
    let mut i: usize = 0;
    while i < a.len()
        invariant
            a@.len() == b@.len(),
            0 <= i <= a@.len(),
            forall|j: int| 0 <= j < i ==> a.deep_view()[j] == b.deep_view()[j],
        decreases a.len() - i,
    {
        assert(a.deep_view()[i as int] == a@[i as int]@);
        assert(b.deep_view()[i as int] == b@[i as int]@);
        if !(a[i] == b[i]) {
            proof {
                assert(a.deep_view()[i as int] != b.deep_view()[i as int]);
            }
            return false;
        }
        i += 1;
    }
    proof {
        assert(a.deep_view() =~= b.deep_view());
    }
    true
}

/// Position of `key` among the collected group keys, if it was seen before.
fn find_key(keys: &Vec<Vec<String>>, key: &Vec<String>) -> (r: Option<usize>)
    ensures
        match r {
            Some(g) => 0 <= g < keys@.len() && keys.deep_view()[g as int] == key.deep_view(),
            None => !keys.deep_view().contains(key.deep_view()),
        },
{
    let mut g: usize = 0;
    while g < keys.len()
        invariant
            0 <= g <= keys@.len(),
            forall|h: int| 0 <= h < g ==> keys.deep_view()[h] != key.deep_view(),
        decreases keys.len() - g,
    {
        assert(keys.deep_view()[g as int] == keys@[g as int].deep_view());
        if vec_str_eq(&keys[g], key) {
            return Some(g);
        }
        g += 1;
    }
    proof {
        if keys.deep_view().contains(key.deep_view()) {
            let h = choose|h: int|
                0 <= h < keys.deep_view().len() && keys.deep_view()[h] == key.deep_view();
            assert(false);
        }
    }
    None
}

/// The positions of the named columns inside `input`.
fn column_indices(input: &DataChunk, names: &Vec<String>) -> (r: Vec<usize>)
    requires
        forall|j: int| 0 <= j < names@.len() ==> has_col(input@, #[trigger] names@[j]@),
    ensures
        r@.len() == names@.len(),
        forall|j: int|
            0 <= j < names@.len() ==> #[trigger] r@[j] == find_col(input@, names@[j]@) && r@[j]
                < input.columns@.len(),
{
    let mut r: Vec<usize> = Vec::new();
    let mut j: usize = 0;
    while j < names.len()
        invariant
            0 <= j <= names@.len(),
            r@.len() == j,
            forall|jj: int| 0 <= jj < names@.len() ==> has_col(input@, #[trigger] names@[jj]@),
            forall|jj: int|
                0 <= jj < j ==> #[trigger] r@[jj] == find_col(input@, names@[jj]@) && r@[jj]
                    < input.columns@.len(),
        decreases names.len() - j,
    {
        match input.find_column(&names[j]) {
            Some(ix) => {
                r.push(ix);
            },
            None => {
                proof {
                    assert(false);
                }
            },
        }
        j += 1;
    }
    r
}

/// The group key of row `i`: the row's values in the group-by columns.
fn key_of_row(input: &DataChunk, gbidx: &Vec<usize>, gb: &Vec<String>, i: usize) -> (r: Vec<
    String,
>)
    requires
        cols_wf(input@),
        i < num_rows(input@),
        gbidx@.len() == gb@.len(),
        forall|j: int|
            0 <= j < gb@.len() ==> #[trigger] gbidx@[j] == find_col(input@, gb@[j]@) && gbidx@[j]
                < input.columns@.len() && has_col(input@, gb@[j]@),
    ensures
        r.deep_view() == key_at(input@, gb.deep_view(), i as int),
{
    let ghost c = input@;
    let mut r: Vec<String> = Vec::new();
    let mut j: usize = 0;
    while j < gb.len()
        invariant
            0 <= j <= gb@.len(),
            c == input@,
            cols_wf(c),
            i < num_rows(c),
            gbidx@.len() == gb@.len(),
            forall|jj: int|
                0 <= jj < gb@.len() ==> #[trigger] gbidx@[jj] == find_col(c, gb@[jj]@)
                    && gbidx@[jj] < input.columns@.len() && has_col(c, gb@[jj]@),
            r@.len() == j,
            forall|jj: int|
                0 <= jj < j ==> #[trigger] r@[jj]@ == col_data(c, gb@[jj]@)[i as int],
        decreases gb.len() - j,
    {
        let ix = gbidx[j];
        proof {
            assert(c[ix as int] == input.columns@[ix as int]@);
            assert(c[ix as int].data.len() == num_rows(c));
            assert(col_data(c, gb@[j as int]@) == c[ix as int].data);
        }
        let ghost r0 = r@;
        r.push(input.columns[ix].data[i].clone());
        proof {
            assert forall|jj: int|
                0 <= jj < j + 1 implies #[trigger] r@[jj]@ == col_data(c, gb@[jj]@)[i as int] by {
                if jj < j {
                    assert(r@[jj] == r0[jj]);
                }
            }
        }
        j += 1;
    }
    proof {
        assert(r.deep_view() =~= key_at(c, gb.deep_view(), i as int));
    }
    r
}

/// What row `i` adds to one aggregate of its own group: one for `Count`,
/// the row's numeric value in the target column for `Sum`.
pub open spec fn agg_step(c: Seq<ColModel>, target: Seq<char>, f: AggregateFunction, i: int) -> int {
    match f {
        AggregateFunction::Count => 1,
        AggregateFunction::Sum => num_val(col_data(c, target)[i]),
    }
}

/// Taking one more row into account adds `agg_step` to the aggregate of that
/// row's group and leaves every other group's aggregate unchanged.
pub proof fn lemma_agg_value_step(
    c: Seq<ColModel>,
    gb: Seq<Seq<char>>,
    key: Seq<Seq<char>>,
    target: Seq<char>,
    f: AggregateFunction,
    n: int,
)
    requires
        n >= 0,
    ensures
        agg_value(c, gb, key, target, f, n + 1) == agg_value(c, gb, key, target, f, n) + if key_at(
            c,
            gb,
            n,
        ) == key {
            agg_step(c, target, f, n)
        } else {
            0int
        },
{
}

/// One updated accumulator row: every aggregate of the current row's group
/// advanced by its step for row `i`.
fn updated_row(
    input: &DataChunk,
    row: &Vec<i128>,
    aggregates: &Vec<(String, AggregateFunction)>,
    aggidx: &Vec<usize>,
    i: usize,
) -> (r: Vec<i128>)
    requires
        cols_wf(input@),
        i < num_rows(input@),
        row@.len() == aggregates@.len(),
        aggidx@.len() == aggregates@.len(),
        forall|j: int|
            0 <= j < aggregates@.len() ==> #[trigger] aggidx@[j] == find_col(
                input@,
                aggregates@[j].0@,
            ) && aggidx@[j] < input.columns@.len() && has_col(input@, aggregates@[j].0@),
        forall|j: int|
            0 <= j < row@.len() ==> -((i as int) * (i64::MAX as int + 1)) <= (#[trigger] row@[j])
                as int <= (i as int) * (i64::MAX as int + 1),
    ensures
        r@.len() == row@.len(),
        forall|j: int|
            0 <= j < row@.len() ==> (#[trigger] r@[j]) as int == row@[j] as int + agg_step(
                input@,
                aggregates@[j].0@,
                aggregates@[j].1,
                i as int,
            ),
{
    let ghost c = input@;
    let mut r: Vec<i128> = Vec::new();
    let mut j: usize = 0;
    while j < aggregates.len()
        invariant
            0 <= j <= aggregates@.len(),
            c == input@,
            cols_wf(c),
            i < num_rows(c),
            row@.len() == aggregates@.len(),
            aggidx@.len() == aggregates@.len(),
            forall|jj: int|
                0 <= jj < aggregates@.len() ==> #[trigger] aggidx@[jj] == find_col(
                    c,
                    aggregates@[jj].0@,
                ) && aggidx@[jj] < input.columns@.len() && has_col(c, aggregates@[jj].0@),
            forall|jj: int|
                0 <= jj < row@.len() ==> -((i as int) * (i64::MAX as int + 1)) <= (
                #[trigger] row@[jj]) as int <= (i as int) * (i64::MAX as int + 1),
            r@.len() == j,
            forall|jj: int|
                0 <= jj < j ==> (#[trigger] r@[jj]) as int == row@[jj] as int + agg_step(
                    c,
                    aggregates@[jj].0@,
                    aggregates@[jj].1,
                    i as int,
                ),
        decreases aggregates.len() - j,
    {
        proof {
            assert((i as int) <= usize::MAX as int);
            assert(usize::MAX as int <= 0xffff_ffff_ffff_ffffint);
        }
        let old_v = row[j];
        let nv: i128 = match &aggregates[j].1 {
            AggregateFunction::Count => old_v + 1,
            AggregateFunction::Sum => {
                let ix = aggidx[j];
                proof {
                    assert(c[ix as int] == input.columns@[ix as int]@);
                    assert(c[ix as int].data.len() == num_rows(c));
                    assert(col_data(c, aggregates@[j as int].0@) == c[ix as int].data);
                }
                let parsed = crate::numbers::parse_int_str(input.columns[ix].data[i].as_str());
                let dv: i64 = match parsed {
                    Some(v) => v,
                    None => 0,
                };
                proof {
                    assert(dv as int == num_val(col_data(c, aggregates@[j as int].0@)[i as int]));
                    crate::numbers::lemma_num_val_bound(
                        col_data(c, aggregates@[j as int].0@)[i as int],
                    );
                }
                old_v + (dv as i128)
            },
        };
        r.push(nv);
        j += 1;
    }
    r
}

/// Column `j` of every collected group key, in group order.
fn key_component_col(keys: &Vec<Vec<String>>, j: usize) -> (r: Vec<String>)
    requires
        forall|g: int| 0 <= g < keys@.len() ==> j < (#[trigger] keys@[g])@.len(),
    ensures
        r@.len() == keys@.len(),
        forall|g: int| 0 <= g < keys@.len() ==> (#[trigger] r@[g])@ == keys.deep_view()[g][j as int],
{
    let mut r: Vec<String> = Vec::new();
    let mut g: usize = 0;
    while g < keys.len()
        invariant
            0 <= g <= keys@.len(),
            forall|gg: int| 0 <= gg < keys@.len() ==> j < (#[trigger] keys@[gg])@.len(),
            r@.len() == g,
            forall|gg: int|
                0 <= gg < g ==> (#[trigger] r@[gg])@ == keys.deep_view()[gg][j as int],
        decreases keys.len() - g,
    {
        let ghost r0 = r@;
        r.push(keys[g][j].clone());
        proof {
            assert forall|gg: int|
                0 <= gg < g + 1 implies (#[trigger] r@[gg])@ == keys.deep_view()[gg][j as int] by {
                if gg < g {
                    assert(r@[gg] == r0[gg]);
                } else {
                    assert(keys.deep_view()[gg] == keys@[gg].deep_view());
                    assert(keys@[gg].deep_view()[j as int] == keys@[gg]@[j as int]@);
                }
            }
        }
        g += 1;
    }
    r
}

/// The decimal text of accumulator column `j`, in group order.
fn agg_result_col(accs: &Vec<Vec<i128>>, j: usize) -> (r: Vec<String>)
    requires
        forall|g: int| 0 <= g < accs@.len() ==> j < (#[trigger] accs@[g])@.len(),
        forall|g: int|
            0 <= g < accs@.len() ==> (#[trigger] accs@[g])@[j as int] > i128::MIN,
    ensures
        r@.len() == accs@.len(),
        forall|g: int|
            0 <= g < accs@.len() ==> (#[trigger] r@[g])@ == int_str(accs@[g]@[j as int] as int),
{
    let mut r: Vec<String> = Vec::new();
    let mut g: usize = 0;
    while g < accs.len()
        invariant
            0 <= g <= accs@.len(),
            forall|gg: int| 0 <= gg < accs@.len() ==> j < (#[trigger] accs@[gg])@.len(),
            forall|gg: int|
                0 <= gg < accs@.len() ==> (#[trigger] accs@[gg])@[j as int] > i128::MIN,
            r@.len() == g,
            forall|gg: int|
                0 <= gg < g ==> (#[trigger] r@[gg])@ == int_str(accs@[gg]@[j as int] as int),
        decreases accs.len() - g,
    {
        let ghost r0 = r@;
        let v = accs[g][j];
        r.push(crate::numbers::fmt_i128(v));
        proof {
            assert forall|gg: int|
                0 <= gg < g + 1 implies (#[trigger] r@[gg])@ == int_str(
                accs@[gg]@[j as int] as int,
            ) by {
                if gg < g {
                    assert(r@[gg] == r0[gg]);
                }
            }
        }
        g += 1;
    }
    r
}

/// Aggregate: group the rows of `input` by the exact-match tuple of the
/// group-by columns' values, in order of first occurrence, and compute one
/// value per (target column, function) pair for every group.
pub fn aggregate_chunk(
    input: DataChunk,
    group_by: &Vec<String>,
    aggregates: &Vec<(String, AggregateFunction)>,
) -> (r: DataChunk)
    requires
        cols_wf(input@),
        agg_names_ok(input@, group_by.deep_view(), aggs_model(aggregates@)),
    ensures
        r@ == aggregate_spec(input@, group_by.deep_view(), aggs_model(aggregates@)),
{
    let ghost c = input@;
    let ghost gbv = group_by.deep_view();
    let ghost av = aggs_model(aggregates@);
    proof {
        assert forall|j: int| 0 <= j < group_by@.len() implies has_col(
            input@,
            #[trigger] group_by@[j]@,
        ) by {
            assert(gbv[j] == group_by@[j]@);
        }
    }
    let gbidx = column_indices(&input, group_by);
    let mut agg_names: Vec<String> = Vec::new();
    let mut j0: usize = 0;
    while j0 < aggregates.len()
        invariant
            0 <= j0 <= aggregates@.len(),
            agg_names@.len() == j0,
            forall|j: int| 0 <= j < j0 ==> (#[trigger] agg_names@[j])@ == aggregates@[j].0@,
        decreases aggregates.len() - j0,
    {
        let ghost a0 = agg_names@;
        agg_names.push(aggregates[j0].0.clone());
        proof {
            assert forall|j: int|
                0 <= j < j0 + 1 implies (#[trigger] agg_names@[j])@ == aggregates@[j].0@ by {
                if j < j0 {
                    assert(agg_names@[j] == a0[j]);
                }
            }
        }
        j0 += 1;
    }
    proof {
        assert forall|j: int| 0 <= j < agg_names@.len() implies has_col(
            input@,
            #[trigger] agg_names@[j]@,
        ) by {
            assert(av[j] == (aggregates@[j].0@, aggregates@[j].1));
        }
    }
    let aggidx = column_indices(&input, &agg_names);
    proof {
        assert forall|j: int| 0 <= j < aggregates@.len() implies #[trigger] aggidx@[j]
            == find_col(c, aggregates@[j].0@) && aggidx@[j] < input.columns@.len() && has_col(
            c,
            aggregates@[j].0@,
        ) by {
            assert(aggidx@[j] == find_col(input@, agg_names@[j]@));
        }
    }
    let nrows = input.row_count();
    let mut keys: Vec<Vec<String>> = Vec::new();
    let mut accs: Vec<Vec<i128>> = Vec::new();
    let mut i: usize = 0;
    while i < nrows
        invariant
            0 <= i <= nrows,
            c == input@,
            cols_wf(c),
            nrows == num_rows(c),
            gbv == group_by.deep_view(),
            av == aggs_model(aggregates@),
            agg_names_ok(c, gbv, av),
            gbidx@.len() == group_by@.len(),
            forall|j: int|
                0 <= j < group_by@.len() ==> #[trigger] gbidx@[j] == find_col(c, group_by@[j]@)
                    && gbidx@[j] < input.columns@.len() && has_col(c, group_by@[j]@),
            aggidx@.len() == aggregates@.len(),
            forall|j: int|
                0 <= j < aggregates@.len() ==> #[trigger] aggidx@[j] == find_col(
                    c,
                    aggregates@[j].0@,
                ) && aggidx@[j] < input.columns@.len() && has_col(c, aggregates@[j].0@),
            keys.deep_view() == keys_upto(c, gbv, i as int),
            accs@.len() == keys@.len(),
            forall|g: int| 0 <= g < keys@.len() ==> (#[trigger] keys@[g])@.len() == gbv.len(),
            forall|g: int| 0 <= g < accs@.len() ==> (#[trigger] accs@[g])@.len() == av.len(),
            forall|g: int, j: int|
                0 <= g < accs@.len() && 0 <= j < av.len() ==> (#[trigger] accs@[g]@[j]) as int
                    == agg_value(c, gbv, keys.deep_view()[g], av[j].0, av[j].1, i as int),
        decreases nrows - i,
    {
        let key = key_of_row(&input, &gbidx, group_by, i);
        let ghost kd = key.deep_view();
        proof {
            assert(kd == key_at(c, gbv, i as int));
            assert(kd.len() == gbv.len());
            assert(key@.len() == gbv.len());
        }
        let pos = find_key(&keys, &key);
        let ghost keys0 = keys.deep_view();
        let g: usize = match pos {
            Some(g0) => {
                proof {
                    assert(keys.deep_view() =~= keys_upto(c, gbv, i as int + 1));
                }
                g0
            },
            None => {
                let zrow: Vec<i128> = vec![0i128; aggregates.len()];
                proof {
                    lemma_keys_upto_contains(c, gbv, i as int, kd);
                    lemma_group_zero(c, gbv, kd, i as int);
                }
                let ghost a0 = accs@;
                keys.push(key);
                accs.push(zrow);
                proof {
                    assert(keys.deep_view() =~= keys_upto(c, gbv, i as int).push(kd));
                    assert(keys.deep_view() =~= keys_upto(c, gbv, i as int + 1));
                    assert forall|g2: int, j2: int|
                        0 <= g2 < accs@.len() && 0 <= j2 < av.len() implies (
                    #[trigger] accs@[g2]@[j2]) as int == agg_value(
                        c,
                        gbv,
                        keys.deep_view()[g2],
                        av[j2].0,
                        av[j2].1,
                        i as int,
                    ) by {
                        if g2 < a0.len() {
                            assert(accs@[g2] == a0[g2]);
                            assert(keys.deep_view()[g2] == keys0[g2]);
                        } else {
                            assert(accs@[g2]@[j2] == 0);
                            assert(keys.deep_view()[g2] == kd);
                        }
                    }
                }
                keys.len() - 1
            },
        };
        proof {
            assert(0 <= g < keys@.len());
            assert(keys.deep_view()[g as int] == kd);
            assert(keys.deep_view() == keys_upto(c, gbv, i as int + 1));
            assert forall|g2: int, j2: int|
                0 <= g2 < accs@.len() && 0 <= j2 < av.len() implies -((i as int) * (
            i64::MAX as int + 1)) <= (#[trigger] accs@[g2]@[j2]) as int <= (i as int) * (
            i64::MAX as int + 1) by {
                lemma_group_count_bounds(c, gbv, keys.deep_view()[g2], i as int);
                lemma_group_sum_bounds(c, gbv, av[j2].0, keys.deep_view()[g2], i as int);
                assert((i as int) * 1 <= (i as int) * (i64::MAX as int + 1));
            }
        }
        let newrow = updated_row(&input, &accs[g], aggregates, &aggidx, i);
        let ghost accs1 = accs@;
        accs.set(g, newrow);
        proof {
            lemma_keys_upto_distinct(c, gbv, i as int + 1);
            assert forall|g2: int, j2: int|
                0 <= g2 < accs@.len() && 0 <= j2 < av.len() implies (#[trigger] accs@[g2]@[j2])
                as int == agg_value(
                c,
                gbv,
                keys.deep_view()[g2],
                av[j2].0,
                av[j2].1,
                i as int + 1,
            ) by {
                lemma_agg_value_step(
                    c,
                    gbv,
                    keys.deep_view()[g2],
                    av[j2].0,
                    av[j2].1,
                    i as int,
                );
                if g2 == g {
                    assert(accs@[g2]@[j2] as int == accs1[g2]@[j2] as int + agg_step(
                        c,
                        av[j2].0,
                        av[j2].1,
                        i as int,
                    ));
                } else {
                    assert(accs@[g2] == accs1[g2]);
                    assert(keys.deep_view()[g2] != kd);
                }
            }
        }
        i += 1;
    }
    let ghost keysd = keys.deep_view();
    proof {
        assert(keysd == keys_upto(c, gbv, num_rows(c) as int));
        assert(keysd.len() == keys@.len());
        assert forall|g2: int, j2: int|
            0 <= g2 < accs@.len() && 0 <= j2 < av.len() implies (#[trigger] accs@[g2]@[j2])
            > i128::MIN by {
            lemma_group_count_bounds(c, gbv, keysd[g2], nrows as int);
            lemma_group_sum_bounds(c, gbv, av[j2].0, keysd[g2], nrows as int);
            assert(usize::MAX as int <= 0xffff_ffff_ffff_ffffint);
        }
    }
    let ghost spec_out = aggregate_spec(c, gbv, av);
    let mut out: Vec<Column> = Vec::new();
    let mut j: usize = 0;
    while j < group_by.len()
        invariant
            0 <= j <= group_by@.len(),
            c == input@,
            gbv == group_by.deep_view(),
            av == aggs_model(aggregates@),
            spec_out == aggregate_spec(c, gbv, av),
            keysd == keys.deep_view(),
            keysd == keys_upto(c, gbv, num_rows(c) as int),
            forall|g: int| 0 <= g < keys@.len() ==> (#[trigger] keys@[g])@.len() == gbv.len(),
            out@.len() == j,
            forall|jj: int| 0 <= jj < j ==> #[trigger] out@[jj]@ == spec_out[jj],
        decreases group_by.len() - j,
    {
        let data = key_component_col(&keys, j);
        let col = Column { name: group_by[j].clone(), data };
        proof {
            assert(col@.data =~= Seq::new(keysd.len(), |g: int| keysd[g][j as int]));
            assert(col@ =~= spec_out[j as int]);
        }
        let ghost o0 = out@;
        out.push(col);
        proof {
            assert forall|jj: int| 0 <= jj < j + 1 implies #[trigger] out@[jj]@ == spec_out[jj] by {
                if jj < j {
                    assert(out@[jj] == o0[jj]);
                }
            }
        }
        j += 1;
    }
    let mut j2: usize = 0;
    while j2 < aggregates.len()
        invariant
            0 <= j2 <= aggregates@.len(),
            c == input@,
            gbv == group_by.deep_view(),
            av == aggs_model(aggregates@),
            spec_out == aggregate_spec(c, gbv, av),
            keysd == keys.deep_view(),
            keysd == keys_upto(c, gbv, num_rows(c) as int),
            nrows == num_rows(c),
            accs@.len() == keys@.len(),
            keysd.len() == keys@.len(),
            forall|g: int| 0 <= g < accs@.len() ==> (#[trigger] accs@[g])@.len() == av.len(),
            forall|g: int, jj: int|
                0 <= g < accs@.len() && 0 <= jj < av.len() ==> (#[trigger] accs@[g]@[jj]) as int
                    == agg_value(c, gbv, keysd[g], av[jj].0, av[jj].1, nrows as int),
            forall|g: int, jj: int|
                0 <= g < accs@.len() && 0 <= jj < av.len() ==> (#[trigger] accs@[g]@[jj])
                    > i128::MIN,
            out@.len() == group_by@.len() + j2,
            forall|jj: int|
                0 <= jj < group_by@.len() + j2 ==> #[trigger] out@[jj]@ == spec_out[jj],
        decreases aggregates.len() - j2,
    {
        proof {
            assert forall|g: int| 0 <= g < accs@.len() implies j2 < (#[trigger] accs@[g])@.len()
                && accs@[g]@[j2 as int] > i128::MIN by {}
        }
        let data = agg_result_col(&accs, j2);
        let col = Column { name: aggregates[j2].0.clone(), data };
        proof {
            assert forall|g: int| 0 <= g < keysd.len() implies col@.data[g] == int_str(
                agg_value(c, gbv, keysd[g], av[j2 as int].0, av[j2 as int].1, nrows as int),
            ) by {
                assert(col@.data[g] == data@[g]@);
            }
            assert(col@.data =~= Seq::new(
                keysd.len(),
                |g: int|
                    int_str(
                        agg_value(c, gbv, keysd[g], av[j2 as int].0, av[j2 as int].1, nrows as int),
                    ),
            ));
            assert(col@ =~= spec_out[group_by@.len() + j2]);
        }
        let ghost o0 = out@;
        out.push(col);
        proof {
            assert forall|jj: int|
                0 <= jj < group_by@.len() + j2 + 1 implies #[trigger] out@[jj]@ == spec_out[jj] by {
                if jj < group_by@.len() + j2 {
                    assert(out@[jj] == o0[jj]);
                }
            }
        }
        j2 += 1;
    }
    proof {
        assert(cols_model(out@) =~= spec_out);
    }
    DataChunk { columns: out }
}

/// Every column kept by a filter over column sets occurs in the input.
pub proof fn lemma_filter_members(c: Seq<ColModel>, pred: spec_fn(ColModel) -> bool)
    ensures
        forall|k: int| 0 <= k < c.filter(pred).len() ==> c.contains(#[trigger] c.filter(pred)[k]),
    decreases c.len(),
{
    reveal(Seq::filter);
    if c.len() > 0 {
        lemma_filter_members(c.drop_last(), pred);
        let f = c.filter(pred);
        let fd = c.drop_last().filter(pred);
        assert forall|k: int| 0 <= k < f.len() implies c.contains(#[trigger] f[k]) by {
            if k < fd.len() {
                assert(f[k] == fd[k]);
                assert(c.drop_last().contains(fd[k]));
                let idx = choose|idx: int|
                    0 <= idx < c.drop_last().len() && c.drop_last()[idx] == fd[k];
                assert(c[idx] == fd[k]);
            } else {
                assert(f[k] == c.last());
                assert(c[c.len() - 1] == c.last());
            }
        }
    }
}

/// Projection of a well-formed column set is well-formed.
pub proof fn lemma_project_wf(c: Seq<ColModel>, cols: Seq<Seq<char>>)
    requires
        cols_wf(c),
    ensures
        cols_wf(project_spec(c, cols)),
    decreases c.len(),
{
    reveal(Seq::filter);
    if c.len() > 0 {
        let d = c.drop_last();
        assert(cols_wf(d)) by {
            assert forall|i: int, j: int|
                0 <= i < d.len() && 0 <= j < d.len() && i != j implies d[i].name != d[j].name by {
                assert(d[i] == c[i] && d[j] == c[j]);
            }
            assert forall|i: int, j: int|
                0 <= i < d.len() && 0 <= j < d.len() implies d[i].data.len()
                    == d[j].data.len() by {
                assert(d[i] == c[i] && d[j] == c[j]);
            }
        }
        lemma_project_wf(d, cols);
        lemma_filter_members(d, keeps(cols));
        let f = c.filter(keeps(cols));
        let fd = d.filter(keeps(cols));
        if keeps(cols)(c.last()) {
            assert(f == fd.push(c.last()));
            assert forall|i: int, j: int|
                0 <= i < f.len() && 0 <= j < f.len() && i != j implies f[i].name != f[j].name by {
                if i < fd.len() && j < fd.len() {
                    assert(f[i] == fd[i] && f[j] == fd[j]);
                } else {
                    let (a, b) = if i < j {
                        (i, j)
                    } else {
                        (j, i)
                    };
                    assert(f[b] == c.last());
                    assert(f[a] == fd[a]);
                    assert(d.contains(fd[a]));
                    let idx = choose|idx: int| 0 <= idx < d.len() && d[idx] == fd[a];
                    assert(c[idx] == fd[a]);
                    assert(c[idx].name != c[c.len() - 1].name);
                }
            }
            assert forall|i: int, j: int|
                0 <= i < f.len() && 0 <= j < f.len() implies f[i].data.len()
                    == f[j].data.len() by {
                assert forall|k: int| 0 <= k < f.len() implies f[k].data.len() == c[0].data.len() by {
                    if k < fd.len() {
                        assert(d.contains(fd[k]));
                        let idx = choose|idx: int| 0 <= idx < d.len() && d[idx] == fd[k];
                        assert(c[idx] == fd[k]);
                    } else {
                        assert(f[k] == c[c.len() - 1]);
                    }
                }
            }
        } else {
            assert(f == fd);
        }
    }
}

/// Filtering a well-formed column set yields a well-formed column set.
pub proof fn lemma_filter_wf(c: Seq<ColModel>, column: Seq<char>, literal: Seq<char>)
    requires
        cols_wf(c),
    ensures
        cols_wf(filter_spec(c, column, literal)),
        filter_spec(c, column, literal).len() == c.len(),
        forall|j: int|
            0 <= j < c.len() ==> #[trigger] filter_spec(c, column, literal)[j].name == c[j].name,
{
    let f = filter_spec(c, column, literal);
    let mask = keep_mask(c, column, literal);
    assert forall|i: int, j: int|
        0 <= i < f.len() && 0 <= j < f.len() implies f[i].data.len() == f[j].data.len() by {
        lemma_mask_select_len(c[i].data, mask);
        lemma_mask_select_len(c[j].data, mask);
    }
}

/// Aggregation output is well-formed when the aggregate's column names are.
pub proof fn lemma_aggregate_wf(
    c: Seq<ColModel>,
    gb: Seq<Seq<char>>,
    aggs: Seq<(Seq<char>, AggregateFunction)>,
)
    requires
        agg_names_ok(c, gb, aggs),
    ensures
        cols_wf(aggregate_spec(c, gb, aggs)),
{
    let f = aggregate_spec(c, gb, aggs);
    assert forall|i: int, j: int|
        0 <= i < f.len() && 0 <= j < f.len() && i != j implies f[i].name != f[j].name by {
        if i < gb.len() && j < gb.len() {
        } else if i >= gb.len() && j >= gb.len() {
            assert(f[i].name == aggs[i - gb.len()].0);
            assert(f[j].name == aggs[j - gb.len()].0);
        } else {
            let (a, b) = if i < j {
                (i, j)
            } else {
                (j, i)
            };
            if a < gb.len() && b >= gb.len() {
                assert(f[a].name == gb[a]);
                assert(f[b].name == aggs[b - gb.len()].0);
            }
        }
    }
}

/// A well-formed plan's output is a well-formed column set.
pub proof fn lemma_plan_out_wf<'a>(p: PlanNode<'a>)
    requires
        plan_wf(p),
    ensures
        cols_wf(plan_out(p)),
    decreases p,
{
    match p {
        PlanNode::Scan(s) => {},
        PlanNode::Project(pr) => {
            lemma_plan_out_wf(*pr.input);
            lemma_project_wf(plan_out(*pr.input), pr.columns.deep_view());
        },
        PlanNode::Filter(f) => {
            lemma_plan_out_wf(*f.input);
            lemma_filter_wf(plan_out(*f.input), f.predicate.column@, f.predicate.literal@);
        },
        PlanNode::Aggregate(a) => {
            lemma_plan_out_wf(*a.input);
            lemma_aggregate_wf(
                plan_out(*a.input),
                a.group_by.deep_view(),
                aggs_model(a.aggregates@),
            );
        },
    }
}

/// Evaluate a plan: a single recursive descent, each node materializing its
/// whole output before returning.
pub fn exec_plan<'a>(p: &PlanNode<'a>) -> (r: DataChunk)
    requires
        plan_wf(*p),
    ensures
        r@ == plan_out(*p),
        cols_wf(r@),
    decreases *p,
{
    proof {
        lemma_plan_out_wf(*p);
    }
    match p {
        PlanNode::Scan(s) => scan_table(s.table),
        PlanNode::Project(pr) => {
            let child = exec_plan(&pr.input);
            project_chunk(child, &pr.columns)
        },
        PlanNode::Filter(f) => {
            let child = exec_plan(&f.input);
            filter_chunk(child, &f.predicate)
        },
        PlanNode::Aggregate(a) => {
            let child = exec_plan(&a.input);
            aggregate_chunk(child, &a.group_by, &a.aggregates)
        },
    }
}

/// The capability of every plan node: produce one full result chunk, a pure
/// function of the node's state, specified by `out_spec`.
pub trait Executable {
    /// The side conditions under which the node may run.
    spec fn exec_wf(&self) -> bool;

    /// The node's entire output chunk.
    spec fn out_spec(&self) -> Seq<ColModel>;

    /// Materialize the node's whole output.
    fn execute(&self) -> (r: DataChunk)
        requires
            self.exec_wf(),
        ensures
            r@ == self.out_spec(),
            cols_wf(r@),
    ;
}

impl<'a> Executable for PlanNode<'a> {
    open spec fn exec_wf(&self) -> bool {
        plan_wf(*self)
    }

    open spec fn out_spec(&self) -> Seq<ColModel> {
        plan_out(*self)
    }

    fn execute(&self) -> (r: DataChunk) {
        exec_plan(self)
    }
}

impl<'a> Executable for ScanNode<'a> {
    open spec fn exec_wf(&self) -> bool {
        self.table.wf()
    }

    open spec fn out_spec(&self) -> Seq<ColModel> {
        self.table@
    }

    fn execute(&self) -> (r: DataChunk) {
        scan_table(self.table)
    }
}

impl<'a> Executable for ProjectNode<'a> {
    open spec fn exec_wf(&self) -> bool {
        plan_wf(*self.input)
    }

    open spec fn out_spec(&self) -> Seq<ColModel> {
        project_spec(plan_out(*self.input), self.columns.deep_view())
    }

    fn execute(&self) -> (r: DataChunk) {
        proof {
            lemma_plan_out_wf(*self.input);
            lemma_project_wf(plan_out(*self.input), self.columns.deep_view());
        }
        let child = exec_plan(&self.input);
        project_chunk(child, &self.columns)
    }
}

impl<'a> Executable for FilterNode<'a> {
    open spec fn exec_wf(&self) -> bool {
        plan_wf(*self.input)
    }

    open spec fn out_spec(&self) -> Seq<ColModel> {
        filter_spec(plan_out(*self.input), self.predicate.column@, self.predicate.literal@)
    }

    fn execute(&self) -> (r: DataChunk) {
        proof {
            lemma_plan_out_wf(*self.input);
            lemma_filter_wf(
                plan_out(*self.input),
                self.predicate.column@,
                self.predicate.literal@,
            );
        }
        let child = exec_plan(&self.input);
        filter_chunk(child, &self.predicate)
    }
}

impl<'a> Executable for AggregateNode<'a> {
    open spec fn exec_wf(&self) -> bool {
        plan_wf(*self.input) && agg_names_ok(
            plan_out(*self.input),
            self.group_by.deep_view(),
            aggs_model(self.aggregates@),
        )
    }

    open spec fn out_spec(&self) -> Seq<ColModel> {
        aggregate_spec(plan_out(*self.input), self.group_by.deep_view(), aggs_model(self.aggregates@))
    }

    fn execute(&self) -> (r: DataChunk) {
        proof {
            lemma_plan_out_wf(*self.input);
            lemma_aggregate_wf(
                plan_out(*self.input),
                self.group_by.deep_view(),
                aggs_model(self.aggregates@),
            );
        }
        let child = exec_plan(&self.input);
        aggregate_chunk(child, &self.group_by, &self.aggregates)
    }
}

/// The keep-decision of a projection, seen on names alone.
pub open spec fn name_kept(cols: Seq<Seq<char>>) -> spec_fn(Seq<char>) -> bool {
    |n: Seq<char>| cols.contains(n)
}

/// Projection keeps exactly the names among the requested ones, in order.
pub proof fn lemma_project_names(c: Seq<ColModel>, cols: Seq<Seq<char>>)
    ensures
        col_names(project_spec(c, cols)) == col_names(c).filter(name_kept(cols)),
    decreases c.len(),
{
    reveal(Seq::filter);
    if c.len() == 0 {
        assert(col_names(project_spec(c, cols)) =~= col_names(c).filter(name_kept(cols)));
    } else {
        lemma_project_names(c.drop_last(), cols);
        assert(col_names(c).drop_last() =~= col_names(c.drop_last()));
        assert(col_names(c).last() == c.last().name);
        if keeps(cols)(c.last()) {
            assert(project_spec(c, cols) == project_spec(c.drop_last(), cols).push(c.last()));
            assert(col_names(project_spec(c, cols)) =~= col_names(
                project_spec(c.drop_last(), cols),
            ).push(c.last().name));
            assert(name_kept(cols)(col_names(c).last()));
        } else {
            assert(project_spec(c, cols) == project_spec(c.drop_last(), cols));
            assert(!name_kept(cols)(col_names(c).last()));
        }
        assert(col_names(project_spec(c, cols)) =~= col_names(c).filter(name_kept(cols)));
    }
}

/// Filtering keeps the column names unchanged.
pub proof fn lemma_filter_names(c: Seq<ColModel>, column: Seq<char>, literal: Seq<char>)
    ensures
        col_names(filter_spec(c, column, literal)) == col_names(c),
{
    assert(col_names(filter_spec(c, column, literal)) =~= col_names(c));
}

/// Aggregation's output columns are the group-by names then the target
/// names.
pub proof fn lemma_aggregate_names(
    c: Seq<ColModel>,
    gb: Seq<Seq<char>>,
    aggs: Seq<(Seq<char>, AggregateFunction)>,
)
    ensures
        col_names(aggregate_spec(c, gb, aggs)) == gb + aggs.map_values(
            |p: (Seq<char>, AggregateFunction)| p.0,
        ),
{
    assert(col_names(aggregate_spec(c, gb, aggs)) =~= gb + aggs.map_values(
        |p: (Seq<char>, AggregateFunction)| p.0,
    ));
}

/// The column names of a column vector, as strings.
fn names_of_columns(cols: &Vec<Column>) -> (r: Vec<String>)
    ensures
        r.deep_view() == col_names(cols_model(cols@)),
{
    let mut r: Vec<String> = Vec::new();
    let mut j: usize = 0;
    while j < cols.len()
        invariant
            0 <= j <= cols@.len(),
            r@.len() == j,
            forall|jj: int| 0 <= jj < j ==> (#[trigger] r@[jj])@ == cols@[jj]@.name,
        decreases cols.len() - j,
    {
        let ghost r0 = r@;
        r.push(cols[j].name.clone());
        proof {
            assert forall|jj: int|
                0 <= jj < j + 1 implies (#[trigger] r@[jj])@ == cols@[jj]@.name by {
                if jj < j {
                    assert(r@[jj] == r0[jj]);
                }
            }
        }
        j += 1;
    }
    proof {
        assert(r.deep_view() =~= col_names(cols_model(cols@)));
    }
    r
}

/// Whether the strings of `v` are pairwise distinct.
fn distinct_strings(v: &Vec<String>) -> (r: bool)
    ensures
        r == strings_distinct(v.deep_view()),
{
    let mut j: usize = 0;
    while j < v.len()
        invariant
            0 <= j <= v@.len(),
            forall|a: int, b: int|
                0 <= a < b < v@.len() && b < j ==> v.deep_view()[a] != v.deep_view()[b],
        decreases v.len() - j,
    {
        let mut a: usize = 0;
        while a < j
            invariant
                0 <= a <= j < v@.len(),
                forall|aa: int| 0 <= aa < a ==> v.deep_view()[aa] != v.deep_view()[j as int],
            decreases j - a,
        {
            proof {
                assert(v.deep_view()[a as int] == v@[a as int]@);
                assert(v.deep_view()[j as int] == v@[j as int]@);
            }
            if v[a] == v[j] {
                return false;
            }
            a += 1;
        }
        j += 1;
    }
    true
}

/// Whether every string of `xs` occurs among the strings of `ys`.
fn all_in(xs: &Vec<String>, ys: &Vec<String>) -> (r: bool)
    ensures
        r == forall|j: int|
            0 <= j < xs@.len() ==> ys.deep_view().contains(#[trigger] xs.deep_view()[j]),
{
    let mut j: usize = 0;
    while j < xs.len()
        invariant
            0 <= j <= xs@.len(),
            forall|jj: int|
                0 <= jj < j ==> ys.deep_view().contains(#[trigger] xs.deep_view()[jj]),
        decreases xs.len() - j,
    {
        proof {
            assert(xs.deep_view()[j as int] == xs@[j as int]@);
        }
        if !contains_string(ys, &xs[j]) {
            return false;
        }
        j += 1;
    }
    true
}

/// Whether no string of `xs` occurs among the strings of `ys`.
fn none_in(xs: &Vec<String>, ys: &Vec<String>) -> (r: bool)
    ensures
        r == forall|j: int|
            0 <= j < xs@.len() ==> !ys.deep_view().contains(#[trigger] xs.deep_view()[j]),
{
    let mut j: usize = 0;
    while j < xs.len()
        invariant
            0 <= j <= xs@.len(),
            forall|jj: int|
                0 <= jj < j ==> !ys.deep_view().contains(#[trigger] xs.deep_view()[jj]),
        decreases xs.len() - j,
    {
        proof {
            assert(xs.deep_view()[j as int] == xs@[j as int]@);
        }
        if contains_string(ys, &xs[j]) {
            return false;
        }
        j += 1;
    }
    true
}

/// The names of `v` that occur among the requested ones, in order.
fn filter_names(v: &Vec<String>, cols: &Vec<String>) -> (r: Vec<String>)
    ensures
        r.deep_view() == v.deep_view().filter(name_kept(cols.deep_view())),
{
    let ghost pred = name_kept(cols.deep_view());
    let mut r: Vec<String> = Vec::new();
    let mut j: usize = 0;
    while j < v.len()
        invariant
            0 <= j <= v@.len(),
            pred == name_kept(cols.deep_view()),
            r.deep_view() == v.deep_view().take(j as int).filter(pred),
        decreases v.len() - j,
    {
        proof {
            assert(v.deep_view().take(j + 1).drop_last() =~= v.deep_view().take(j as int));
            assert(v.deep_view().take(j + 1).last() == v.deep_view()[j as int]);
            assert(v.deep_view()[j as int] == v@[j as int]@);
        }
        let keep = contains_string(cols, &v[j]);
        if keep {
            r.push(v[j].clone());
        }
        proof {
            reveal(Seq::filter);
            assert(pred(v.deep_view()[j as int]) == keep);
            assert(r.deep_view() =~= v.deep_view().take(j + 1).filter(pred));
        }
        j += 1;
    }
    proof {
        assert(v.deep_view().take(v@.len() as int) =~= v.deep_view());
    }
    r
}

/// The target column names of an aggregate list.
fn agg_target_names(aggs: &Vec<(String, AggregateFunction)>) -> (r: Vec<String>)
    ensures
        r@.len() == aggs@.len(),
        forall|j: int| 0 <= j < aggs@.len() ==> (#[trigger] r@[j])@ == aggs@[j].0@,
{
    let mut r: Vec<String> = Vec::new();
    let mut j: usize = 0;
    while j < aggs.len()
        invariant
            0 <= j <= aggs@.len(),
            r@.len() == j,
            forall|jj: int| 0 <= jj < j ==> (#[trigger] r@[jj])@ == aggs@[jj].0@,
        decreases aggs.len() - j,
    {
        let ghost r0 = r@;
        r.push(aggs[j].0.clone());
        proof {
            assert forall|jj: int|
                0 <= jj < j + 1 implies (#[trigger] r@[jj])@ == aggs@[jj].0@ by {
                if jj < j {
                    assert(r@[jj] == r0[jj]);
                }
            }
        }
        j += 1;
    }
    r
}

/// Decide a table's row-length invariant at run time.
pub fn table_wf_check(t: &Table) -> (r: bool)
    ensures
        r == t.wf(),
{
    let names = names_of_columns(&t.columns);
    if !distinct_strings(&names) {
        proof {
            let (a, b) = choose|a: int, b: int|
                0 <= a < b < names.deep_view().len() && names.deep_view()[a]
                    == names.deep_view()[b];
            assert(t@[a].name == t@[b].name);
        }
        return false;
    }
    if t.columns.len() == 0 {
        return true;
    }
    let n0 = t.columns[0].data.len();
    let mut j: usize = 1;
    while j < t.columns.len()
        invariant
            1 <= j <= t.columns@.len(),
            n0 == t@[0].data.len(),
            strings_distinct(col_names(t@)),
            forall|jj: int| 0 <= jj < j ==> (#[trigger] t@[jj]).data.len() == t@[0].data.len(),
        decreases t.columns.len() - j,
    {
        proof {
            assert(t@[j as int] == t.columns@[j as int]@);
        }
        if t.columns[j].data.len() != n0 {
            return false;
        }
        j += 1;
    }
    proof {
        assert forall|a: int, b: int|
            0 <= a < t@.len() && 0 <= b < t@.len() && a != b implies t@[a].name != t@[b].name by {
            if a < b {
                assert(col_names(t@)[a] != col_names(t@)[b]);
            } else {
                assert(col_names(t@)[b] != col_names(t@)[a]);
            }
        }
    }
    true
}

/// Decide a plan's well-formedness at run time: `Some` of the plan's output
/// column names when every node's side conditions hold (so `execute` may be
/// called), `None` otherwise.
pub fn check_plan<'a>(p: &PlanNode<'a>) -> (r: Option<Vec<String>>)
    ensures
        match r {
            Some(names) => plan_wf(*p) && names.deep_view() == col_names(plan_out(*p)),
            None => !plan_wf(*p),
        },
    decreases *p,
{
    match p {
        PlanNode::Scan(s) => {
            if table_wf_check(s.table) {
                Some(names_of_columns(&s.table.columns))
            } else {
                None
            }
        },
        PlanNode::Project(pr) => {
            match check_plan(&pr.input) {
                None => None,
                Some(child_names) => {
                    proof {
                        lemma_project_names(plan_out(*pr.input), pr.columns.deep_view());
                    }
                    Some(filter_names(&child_names, &pr.columns))
                },
            }
        },
        PlanNode::Filter(f) => {
            match check_plan(&f.input) {
                None => None,
                Some(child_names) => {
                    proof {
                        lemma_filter_names(
                            plan_out(*f.input),
                            f.predicate.column@,
                            f.predicate.literal@,
                        );
                    }
                    Some(child_names)
                },
            }
        },
        PlanNode::Aggregate(a) => {
            match check_plan(&a.input) {
                None => None,
                Some(child_names) => {
                    let ghost c = plan_out(*a.input);
                    let ghost gbv = a.group_by.deep_view();
                    let ghost av = aggs_model(a.aggregates@);
                    let targets = agg_target_names(&a.aggregates);
                    proof {
                        assert(targets.deep_view() =~= av.map_values(
                            |pair: (Seq<char>, AggregateFunction)| pair.0,
                        ));
                        assert forall|n: Seq<char>|
                            child_names.deep_view().contains(n) == col_names(c).contains(n) by {}
                    }
                    let ok = all_in(&a.group_by, &child_names) && all_in(&targets, &child_names)
                        && distinct_strings(&a.group_by) && distinct_strings(&targets) && none_in(
                        &targets,
                        &a.group_by,
                    );
                    proof {
                        let tn = targets.deep_view();
                        let gn = a.group_by.deep_view();
                        assert forall|j: int| 0 <= j < av.len() implies (#[trigger] av[j]).0
                            == tn[j] by {}
                        if ok {
                            assert forall|j: int| 0 <= j < gbv.len() implies has_col(
                                c,
                                #[trigger] gbv[j],
                            ) by {
                                assert(child_names.deep_view().contains(gn[j]));
                                crate::table::lemma_has_col_names(c, gbv[j]);
                            }
                            assert forall|j: int| 0 <= j < av.len() implies has_col(
                                c,
                                (#[trigger] av[j]).0,
                            ) by {
                                assert(child_names.deep_view().contains(tn[j]));
                                crate::table::lemma_has_col_names(c, av[j].0);
                            }
                            assert forall|j: int, k: int|
                                0 <= j < k < av.len() implies av[j].0 != av[k].0 by {
                                assert(tn[j] != tn[k]);
                            }
                            assert forall|j: int, k: int|
                                0 <= j < gbv.len() && 0 <= k < av.len() implies gbv[j]
                                != av[k].0 by {
                                if gbv[j] == av[k].0 {
                                    assert(gn.contains(tn[k]));
                                }
                            }
                            assert(agg_names_ok(c, gbv, av));
                        } else {
                            if agg_names_ok(c, gbv, av) {
                                assert forall|j: int|
                                    0 <= j < gn.len() implies child_names.deep_view().contains(
                                    #[trigger] gn[j],
                                ) by {
                                    assert(has_col(c, gbv[j]));
                                    crate::table::lemma_has_col_names(c, gbv[j]);
                                }
                                assert forall|j: int|
                                    0 <= j < tn.len() implies child_names.deep_view().contains(
                                    #[trigger] tn[j],
                                ) by {
                                    assert(has_col(c, av[j].0));
                                    crate::table::lemma_has_col_names(c, av[j].0);
                                }
                                assert(strings_distinct(gn));
                                assert forall|a2: int, b2: int|
                                    0 <= a2 < b2 < tn.len() implies tn[a2] != tn[b2] by {
                                    assert(av[a2].0 != av[b2].0);
                                }
                                assert(strings_distinct(tn));
                                assert forall|k: int| 0 <= k < tn.len() implies !gn.contains(
                                    #[trigger] tn[k],
                                ) by {
                                    if gn.contains(tn[k]) {
                                        let j = choose|j: int|
                                            0 <= j < gn.len() && gn[j] == tn[k];
                                        assert(gbv[j] == av[k].0);
                                    }
                                }
                                assert(ok);
                            }
                            assert(!agg_names_ok(c, gbv, av));
                        }
                        assert(ok == agg_names_ok(c, gbv, av));
                    }
                    if ok {
                        proof {
                            lemma_aggregate_names(c, gbv, av);
                        }
                        let mut names = clone_strings(&a.group_by);
                        let mut tail = targets;
                        names.append(&mut tail);
                        proof {
                            assert(names.deep_view() =~= col_names(plan_out(*p)));
                        }
                        Some(names)
                    } else {
                        None
                    }
                },
            }
        },
    }
}

} // verus!
