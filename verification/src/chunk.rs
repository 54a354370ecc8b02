//! The result chunk: the column-oriented, fully materialized batch of values
//! produced by one operator invocation, with executable helpers over column
//! sets that the operators share.

use vstd::prelude::*;

use crate::table::{cols_model, cols_wf, find_col, lemma_find_col, lemma_find_col_present, num_rows, ColModel, Column};

verus! {

/// Ephemeral, column-oriented materialized output of one operator
/// invocation. Well-formed chunks (`wf`) have pairwise distinct column names
/// and equal column lengths.
pub struct DataChunk {
    pub columns: Vec<Column>,
}

impl View for DataChunk {
    type V = Seq<ColModel>;

    open spec fn view(&self) -> Seq<ColModel> {
        cols_model(self.columns@)
    }
}

impl DataChunk {
    /// All present columns share equal length and distinct names.
    pub open spec fn wf(&self) -> bool {
        cols_wf(self@)
    }

    /// The chunk's row count: the length of any present column, zero when
    /// the chunk has no columns.
    pub fn row_count(&self) -> (r: usize)
        ensures
            r == num_rows(self@),
    {
        if self.columns.len() == 0 {
            0
        } else {
            assert(self@[0] == self.columns@[0]@);
            self.columns[0].data.len()
        }
    }

    /// Position of the column named `name`, or `None` when the chunk has no
    /// such column.
    pub fn find_column(&self, name: &String) -> (r: Option<usize>)
        ensures
            match r {
                Some(i) => 0 <= i < self.columns.len() && i == find_col(self@, name@),
                None => find_col(self@, name@) == -1,
            },
    {
        find_in_columns(&self.columns, name)
    }
}

/// Position of the first column named `name` in `cols`, if any.
pub fn find_in_columns(cols: &Vec<Column>, name: &String) -> (r: Option<usize>)
    ensures
        match r {
            Some(i) => 0 <= i < cols.len() && i == find_col(cols_model(cols@), name@),
            None => find_col(cols_model(cols@), name@) == -1,
        },
{
    let ghost cs = cols_model(cols@);
    let mut i: usize = 0;
    while i < cols.len()
        invariant
            0 <= i <= cols.len(),
            cs == cols_model(cols@),
            forall|j: int| 0 <= j < i ==> cs[j].name != name@,
        decreases cols.len() - i,
    {
        assert(cs[i as int] == cols@[i as int]@);
        if cols[i].name == *name {
            proof {
                lemma_find_col_present(cs, name@, i as int);
                lemma_find_col(cs, name@);
            }
            return Some(i);
        }
        i += 1;
    }
    proof {
        lemma_find_col(cs, name@);
        if find_col(cs, name@) != -1 {
            assert(cs[find_col(cs, name@)].name == name@);
        }
    }
    None
}

/// A copy of a string vector whose model is unchanged.
pub fn clone_strings(v: &Vec<String>) -> (r: Vec<String>)
    ensures
        r.deep_view() == v.deep_view(),
        r@.len() == v@.len(),
{
    let r = v.clone();
    proof {
        assert forall|i: int| 0 <= i < v@.len() implies r@[i] == v@[i] by {
            assert(cloned::<String>(v@[i], r@[i]));
        }
        assert(r@ =~= v@);
        assert(r.deep_view() =~= v.deep_view());
    }
    r
}

/// A copy of a column set whose model is unchanged.
pub fn clone_columns(cols: &Vec<Column>) -> (r: Vec<Column>)
    ensures
        cols_model(r@) == cols_model(cols@),
{
    let mut r: Vec<Column> = Vec::new();
    let mut i: usize = 0;
    while i < cols.len()
        invariant
            0 <= i <= cols.len(),
            r@.len() == i,
            forall|j: int| 0 <= j < i ==> #[trigger] r@[j]@ == cols@[j]@,
        decreases cols.len() - i,
    {
        let c = Column { name: cols[i].name.clone(), data: clone_strings(&cols[i].data) };
        assert(c@ =~= cols@[i as int]@);
        r.push(c);
        i += 1;
    }
    assert(cols_model(r@) =~= cols_model(cols@));
    r
}

} // verus!
