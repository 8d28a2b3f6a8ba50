use vstd::prelude::*;
use crate::schema::{ColumnSchema, cols_model};
use crate::value::{Value, fits};

verus! {

/// An immutable bundle of equal-length columns with their schema.
#[derive(Debug, Clone)]
pub struct Batch {
    pub schema: Vec<ColumnSchema>,
    pub columns: Vec<Vec<Value>>,
    pub num_rows: usize,
}

impl Batch {
    /// One column per schema entry, each `num_rows` long.
    pub open spec fn wf(&self) -> bool {
        &&& self.schema@.len() == self.columns@.len()
        &&& forall|c: int| 0 <= c < self.columns@.len() ==> #[trigger] self.columns@[c]@.len() == self.num_rows
    }

    /// Every cell belongs to its column's type.
    pub open spec fn typed(&self) -> bool {
        forall|c: int, k: int|
            0 <= c < self.columns@.len() && 0 <= k < self.columns@[c]@.len() ==> fits(
                (#[trigger] self.columns@[c]@[k])@,
                self.schema@[c].dtype,
            )
    }

    pub fn num_rows(&self) -> (r: usize)
        ensures
            r == self.num_rows,
    {
        self.num_rows
    }

    pub fn num_columns(&self) -> (r: usize)
        ensures
            r == self.columns@.len(),
    {
        self.columns.len()
    }
}

/// A copy of a schema, equal in names, types and nullability.
pub fn copy_schema(s: &Vec<ColumnSchema>) -> (r: Vec<ColumnSchema>)
    ensures
        cols_model(r@) == cols_model(s@),
        r@.len() == s@.len(),
        forall|i: int|
            0 <= i < s@.len() ==> r@[i].nullable == s@[i].nullable && r@[i].dtype == s@[i].dtype,
{
    let mut r: Vec<ColumnSchema> = Vec::new();
    let mut i: usize = 0;
    while i < s.len()
        invariant
            i <= s@.len(),
            r@.len() == i,
            forall|k: int|
                0 <= k < i ==> r@[k].name@ == s@[k].name@ && r@[k].dtype == s@[k].dtype
                    && r@[k].nullable == s@[k].nullable,
        decreases s@.len() - i,
    {
        r.push(ColumnSchema { name: s[i].name.clone(), dtype: s[i].dtype, nullable: s[i].nullable });
        i += 1;
    }
    assert(cols_model(r@) =~= cols_model(s@));
    r
}

} // verus!
