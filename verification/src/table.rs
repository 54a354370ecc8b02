//! The tabular store: named columns of textual values, and the mathematical
//! model shared by tables and result chunks (a sequence of modelled columns).

use vstd::prelude::*;

verus! {

/// Model of one column: a name and an ordered sequence of textual values.
#[verifier::ext_equal]
pub ghost struct ColModel {
    pub name: Seq<char>,
    pub data: Seq<Seq<char>>,
}

/// One named, ordered sequence of textual values.
pub struct Column {
    pub name: String,
    pub data: Vec<String>,
}

impl View for Column {
    type V = ColModel;

    open spec fn view(&self) -> ColModel {
        ColModel { name: self.name@, data: self.data.deep_view() }
    }
}

/// The model of a sequence of columns.
pub open spec fn cols_model(cs: Seq<Column>) -> Seq<ColModel> {
    cs.map_values(|c: Column| c@)
}

/// Well-formedness of a column set: column names are pairwise distinct and
/// every column holds the same number of rows.
pub open spec fn cols_wf(cs: Seq<ColModel>) -> bool {
    &&& forall|i: int, j: int|
        0 <= i < cs.len() && 0 <= j < cs.len() && i != j ==> cs[i].name != cs[j].name
    &&& forall|i: int, j: int|
        0 <= i < cs.len() && 0 <= j < cs.len() ==> cs[i].data.len() == cs[j].data.len()
}

/// The row count of a column set: the length of any column (zero if there
/// are no columns).
pub open spec fn num_rows(cs: Seq<ColModel>) -> nat {
    if cs.len() == 0 {
        0
    } else {
        cs[0].data.len()
    }
}

/// Index of the first column named `name`, or `-1` if there is none.
pub open spec fn find_col(cs: Seq<ColModel>, name: Seq<char>) -> int
    decreases cs.len(),
{
    if cs.len() == 0 {
        -1
    } else if cs[0].name == name {
        0
    } else {
        let r = find_col(cs.drop_first(), name);
        if r == -1 {
            -1
        } else {
            r + 1
        }
    }
}

/// Whether the column set holds a column named `name`.
pub open spec fn has_col(cs: Seq<ColModel>, name: Seq<char>) -> bool {
    find_col(cs, name) >= 0
}

/// The values of the column named `name` (meaningful when `has_col` holds).
pub open spec fn col_data(cs: Seq<ColModel>, name: Seq<char>) -> Seq<Seq<char>> {
    cs[find_col(cs, name)].data
}

/// `find_col` returns either `-1` or the position of the first column with
/// the requested name.
pub proof fn lemma_find_col(cs: Seq<ColModel>, name: Seq<char>)
    ensures
        find_col(cs, name) == -1 ==> forall|i: int| 0 <= i < cs.len() ==> cs[i].name != name,
        find_col(cs, name) != -1 ==> {
            &&& 0 <= find_col(cs, name) < cs.len()
            &&& cs[find_col(cs, name)].name == name
            &&& forall|i: int| 0 <= i < find_col(cs, name) ==> cs[i].name != name
        },
    decreases cs.len(),
{
    if cs.len() > 0 && cs[0].name != name {
        let t = cs.drop_first();
        lemma_find_col(t, name);
        if find_col(t, name) == -1 {
            assert forall|i: int| 0 <= i < cs.len() implies cs[i].name != name by {
                if i > 0 {
                    assert(cs[i] == t[i - 1]);
                }
            }
        } else {
            let r = find_col(cs, name);
            assert(cs[r] == t[r - 1]);
            assert forall|i: int| 0 <= i < r implies cs[i].name != name by {
                if i > 0 {
                    assert(cs[i] == t[i - 1]);
                }
            }
        }
    }
}

/// The names of a column set, in column order.
pub open spec fn col_names(cs: Seq<ColModel>) -> Seq<Seq<char>> {
    cs.map_values(|c: ColModel| c.name)
}

/// Pairwise distinctness of a list of strings.
pub open spec fn strings_distinct(s: Seq<Seq<char>>) -> bool {
    forall|a: int, b: int| 0 <= a < b < s.len() ==> s[a] != s[b]
}

/// A name resolves in a column set exactly when it occurs among the
/// column names.
pub proof fn lemma_has_col_names(cs: Seq<ColModel>, name: Seq<char>)
    ensures
        has_col(cs, name) <==> col_names(cs).contains(name),
{
    lemma_find_col(cs, name);
    if has_col(cs, name) {
        assert(col_names(cs)[find_col(cs, name)] == name);
    }
    if col_names(cs).contains(name) {
        let i = choose|i: int| 0 <= i < col_names(cs).len() && col_names(cs)[i] == name;
        lemma_find_col_present(cs, name, i);
    }
}

/// A column with the requested name makes `find_col` succeed.
pub proof fn lemma_find_col_present(cs: Seq<ColModel>, name: Seq<char>, i: int)
    requires
        0 <= i < cs.len(),
        cs[i].name == name,
    ensures
        has_col(cs, name),
    decreases cs.len(),
{
    if cs[0].name != name {
        lemma_find_col_present(cs.drop_first(), name, i - 1);
    }
}

/// The complete, immutable in-memory dataset queried by the engine.
///
/// Invariant (`wf`): all columns have pairwise distinct names and equal
/// lengths.
pub struct Table {
    pub columns: Vec<Column>,
}

impl View for Table {
    type V = Seq<ColModel>;

    open spec fn view(&self) -> Seq<ColModel> {
        cols_model(self.columns@)
    }
}

/// A recoverable ingestion failure: the tabular source cannot become a
/// well-formed table.
#[derive(Debug, PartialEq, Eq)]
pub enum IngestionError {
    /// Two header fields carry the same column name.
    DuplicateHeader,
    /// Some row's field count differs from the header's.
    ArityMismatch,
}

/// Whether the header names are pairwise distinct.
pub open spec fn headers_distinct(hs: Seq<Seq<char>>) -> bool {
    forall|a: int, b: int| 0 <= a < b < hs.len() ==> hs[a] != hs[b]
}

/// Whether every row holds exactly `w` fields.
pub open spec fn rows_arity_ok(rows: Seq<Seq<Seq<char>>>, w: int) -> bool {
    forall|i: int| 0 <= i < rows.len() ==> (#[trigger] rows[i]).len() == w
}

impl Table {
    /// The table's row-length invariant: well-formed column set.
    pub open spec fn wf(&self) -> bool {
        cols_wf(self@)
    }

    /// Build a table from a header row and positional data rows: column `j`
    /// is named by header `j` and holds field `j` of every row in row
    /// order. Duplicate header names and rows whose field count differs
    /// from the header's are rejected with a typed error.
    pub fn from_rows(headers: Vec<String>, rows: Vec<Vec<String>>) -> (r: Result<
        Table,
        IngestionError,
    >)
        ensures
            match r {
                Ok(t) => {
                    &&& headers_distinct(headers.deep_view())
                    &&& rows_arity_ok(rows.deep_view(), headers@.len() as int)
                    &&& t.wf()
                    &&& t@.len() == headers@.len()
                    &&& forall|j: int|
                        0 <= j < headers@.len() ==> (#[trigger] t@[j]).name
                            == headers.deep_view()[j] && t@[j].data == Seq::new(
                            rows@.len() as nat,
                            |i: int| rows.deep_view()[i][j],
                        )
                },
                Err(IngestionError::DuplicateHeader) => !headers_distinct(headers.deep_view()),
                Err(IngestionError::ArityMismatch) => headers_distinct(headers.deep_view())
                    && !rows_arity_ok(rows.deep_view(), headers@.len() as int),
            },
    {
        let mut j: usize = 0;
        while j < headers.len()
            invariant
                0 <= j <= headers@.len(),
                forall|a: int, b: int|
                    0 <= a < b < headers@.len() && b < j ==> headers.deep_view()[a]
                        != headers.deep_view()[b],
            decreases headers.len() - j,
        {
            let mut a: usize = 0;
            while a < j
                invariant
                    0 <= a <= j < headers@.len(),
                    forall|aa: int|
                        0 <= aa < a ==> headers.deep_view()[aa] != headers.deep_view()[j as int],
                decreases j - a,
            {
                proof {
                    assert(headers.deep_view()[a as int] == headers@[a as int]@);
                    assert(headers.deep_view()[j as int] == headers@[j as int]@);
                }
                if headers[a] == headers[j] {
                    return Err(IngestionError::DuplicateHeader);
                }
                a += 1;
            }
            j += 1;
        }
        let mut i: usize = 0;
        while i < rows.len()
            invariant
                0 <= i <= rows@.len(),
                headers_distinct(headers.deep_view()),
                forall|ii: int|
                    0 <= ii < i ==> (#[trigger] rows.deep_view()[ii]).len() == headers@.len(),
            decreases rows.len() - i,
        {
            proof {
                assert(rows.deep_view()[i as int] == rows@[i as int].deep_view());
            }
            if rows[i].len() != headers.len() {
                return Err(IngestionError::ArityMismatch);
            }
            i += 1;
        }
        let mut columns: Vec<Column> = Vec::new();
        let mut j2: usize = 0;
        while j2 < headers.len()
            invariant
                0 <= j2 <= headers@.len(),
                headers_distinct(headers.deep_view()),
                rows_arity_ok(rows.deep_view(), headers@.len() as int),
                columns@.len() == j2,
                forall|jj: int|
                    0 <= jj < j2 ==> (#[trigger] columns@[jj])@.name == headers.deep_view()[jj]
                        && columns@[jj]@.data == Seq::new(
                        rows@.len() as nat,
                        |i: int| rows.deep_view()[i][jj],
                    ),
            decreases headers.len() - j2,
        {
            let mut data: Vec<String> = Vec::new();
            let mut i2: usize = 0;
            while i2 < rows.len()
                invariant
                    0 <= i2 <= rows@.len(),
                    0 <= j2 < headers@.len(),
                    rows_arity_ok(rows.deep_view(), headers@.len() as int),
                    data@.len() == i2,
                    forall|ii: int|
                        0 <= ii < i2 ==> (#[trigger] data@[ii])@ == rows.deep_view()[ii][j2 as int],
                decreases rows.len() - i2,
            {
                proof {
                    assert(rows.deep_view()[i2 as int] == rows@[i2 as int].deep_view());
                    assert(rows@[i2 as int].deep_view().len() == rows@[i2 as int]@.len());
                }
                let ghost d0 = data@;
                data.push(rows[i2][j2].clone());
                proof {
                    assert forall|ii: int|
                        0 <= ii < i2 + 1 implies (#[trigger] data@[ii])@ == rows.deep_view()[ii][j2 as int] by {
                        if ii < i2 {
                            assert(data@[ii] == d0[ii]);
                        } else {
                            assert(rows.deep_view()[ii] == rows@[ii].deep_view());
                        }
                    }
                }
                i2 += 1;
            }
            let ghost c0 = columns@;
            let col = Column { name: headers[j2].clone(), data };
            proof {
                assert(col@.data =~= Seq::new(rows@.len() as nat, |i: int| rows.deep_view()[i][j2 as int]));
            }
            columns.push(col);
            proof {
                assert forall|jj: int|
                    0 <= jj < j2 + 1 implies (#[trigger] columns@[jj])@.name
                        == headers.deep_view()[jj] && columns@[jj]@.data == Seq::new(
                        rows@.len() as nat,
                        |i: int| rows.deep_view()[i][jj],
                    ) by {
                    if jj < j2 {
                        assert(columns@[jj] == c0[jj]);
                    }
                }
            }
            j2 += 1;
        }
        let t = Table { columns };
        proof {
            assert forall|a: int, b: int|
                0 <= a < t@.len() && 0 <= b < t@.len() && a != b implies t@[a].name
                != t@[b].name by {}
            assert forall|a: int, b: int|
                0 <= a < t@.len() && 0 <= b < t@.len() implies t@[a].data.len()
                == t@[b].data.len() by {}
        }
        Ok(t)
    }
}

} // verus!
