use vstd::prelude::*;
use crate::batch::Batch;
use crate::coerce::{coerce, coerce_value};
use crate::error::MawError;
use crate::schema::{
    ColumnSchema, ColModel, TypeKind, UnifiedSchema, cols_model, rename_of, str_eq, subsumed,
    widen_types,
};
use crate::value::{Value, ValueModel};

verus! {

/// Maps source batches onto the unified schema.
#[derive(Debug, Clone)]
pub struct BatchAligner {
    pub unified_schema: UnifiedSchema,
    pub include_columns: Option<Vec<String>>,
    pub exclude_columns: Option<Vec<String>>,
    pub stringify_conflicts: bool,
}

/// An aligned batch and the number of values lost in coercion.
#[derive(Debug, Clone)]
pub struct Aligned {
    pub batch: Batch,
    pub coercion_loss: u64,
}

pub open spec fn contains_name(list: Seq<String>, n: Seq<char>) -> bool {
    exists|k: int| 0 <= k < list.len() && list[k]@ == n
}

/// A unified column is kept when the list of wanted columns, if any, names
/// it and the list of excluded ones, if any, does not.
pub open spec fn projected(n: Seq<char>, only: Option<Vec<String>>, exclude: Option<Vec<String>>) -> bool {
    &&& match only {
        Some(l) => contains_name(l@, n),
        None => true,
    }
    &&& match exclude {
        Some(l) => !contains_name(l@, n),
        None => true,
    }
}

/// The unified columns that the projection keeps, in order.
pub open spec fn kept(cols: Seq<ColumnSchema>, only: Option<Vec<String>>, exclude: Option<Vec<String>>) -> Seq<
    ColumnSchema,
>
    decreases cols.len(),
{
    if cols.len() == 0 {
        Seq::empty()
    } else {
        let rest = kept(cols.drop_last(), only, exclude);
        if projected(cols.last().name@, only, exclude) {
            rest.push(cols.last())
        } else {
            rest
        }
    }
}

/// Position of the first source column whose renamed name is `n`, or -1.
pub open spec fn source_index(src: Seq<ColumnSchema>, renames: Seq<(String, String)>, n: Seq<char>) -> int
    decreases src.len(),
{
    if src.len() == 0 {
        -1
    } else {
        let i = source_index(src.drop_last(), renames, n);
        if i >= 0 {
            i
        } else if rename_of(renames, src.last().name@) == n {
            src.len() - 1
        } else {
            -1
        }
    }
}

/// A coerced value, or null where coercion loses it.
pub open spec fn aligned_cell(v: ValueModel, t: TypeKind) -> ValueModel {
    match coerce(v, t) {
        Some(w) => w,
        None => ValueModel::Null,
    }
}

/// The value of unified column `col` in row `row` of the source batch: the
/// coerced source value, or null where the source lacks the column.
pub open spec fn aligned_value(b: Batch, renames: Seq<(String, String)>, col: ColumnSchema, row: int) -> ValueModel {
    let j = source_index(b.schema@, renames, col.name@);
    if j < 0 {
        ValueModel::Null
    } else {
        aligned_cell(b.columns@[j]@[row]@, col.dtype)
    }
}

/// Values of a source column lost when coerced to `t`, over its first `n` rows.
pub open spec fn column_loss(vals: Seq<Value>, t: TypeKind, n: int) -> nat
    decreases n,
{
    if n <= 0 {
        0
    } else {
        column_loss(vals, t, n - 1) + if coerce(vals[n - 1]@, t) is None {
            1nat
        } else {
            0nat
        }
    }
}

/// Values lost over the given unified columns.
pub open spec fn batch_loss(b: Batch, renames: Seq<(String, String)>, cols: Seq<ColumnSchema>) -> nat
    decreases cols.len(),
{
    if cols.len() == 0 {
        0
    } else {
        let j = source_index(b.schema@, renames, cols.last().name@);
        batch_loss(b, renames, cols.drop_last()) + if j < 0 {
            0nat
        } else {
            column_loss(b.columns@[j]@, cols.last().dtype, b.num_rows as int)
        }
    }
}

/// Some column present in the source has a type that does not widen into
/// its unified type.
pub open spec fn has_conflict(b: Batch, renames: Seq<(String, String)>, cols: Seq<ColumnSchema>, s: bool) -> bool {
    exists|k: int|
        0 <= k < cols.len() && #[trigger] source_index(b.schema@, renames, cols[k].name@) >= 0
            && !subsumed(
            b.schema@[source_index(b.schema@, renames, cols[k].name@)].dtype,
            cols[k].dtype,
            s,
        )
}

proof fn lemma_source_index_bounds(src: Seq<ColumnSchema>, renames: Seq<(String, String)>, n: Seq<char>)
    ensures
        -1 <= source_index(src, renames, n) < src.len(),
        source_index(src, renames, n) >= 0 ==> rename_of(renames, src[source_index(src, renames, n)].name@) == n,
    decreases src.len(),
{
    if src.len() > 0 {
        lemma_source_index_bounds(src.drop_last(), renames, n);
    }
}

proof fn lemma_source_index_prefix(src: Seq<ColumnSchema>, renames: Seq<(String, String)>, n: Seq<char>, k: int)
    requires
        0 <= k <= src.len(),
        source_index(src.subrange(0, k), renames, n) >= 0,
    ensures
        source_index(src, renames, n) == source_index(src.subrange(0, k), renames, n),
    decreases src.len(),
{
    if k == src.len() {
        assert(src.subrange(0, k) =~= src);
    } else {
        assert(src.drop_last().subrange(0, k) =~= src.subrange(0, k));
        lemma_source_index_prefix(src.drop_last(), renames, n, k);
    }
}

proof fn lemma_source_index_absent(src: Seq<ColumnSchema>, renames: Seq<(String, String)>, n: Seq<char>)
    requires
        forall|j: int| 0 <= j < src.len() ==> rename_of(renames, #[trigger] src[j].name@) != n,
    ensures
        source_index(src, renames, n) == -1,
    decreases src.len(),
{
    if src.len() > 0 {
        lemma_source_index_absent(src.drop_last(), renames, n);
    }
}

fn find_source(src: &Vec<ColumnSchema>, renames: &Vec<(String, String)>, n: &str) -> (r: Option<usize>)
    ensures
        match r {
            Some(j) => j < src@.len() && source_index(src@, renames@, n@) == j,
            None => source_index(src@, renames@, n@) == -1,
        },
{
    let mut j: usize = 0;
    assert(src@.subrange(0, 0) =~= Seq::<ColumnSchema>::empty());
    while j < src.len()
        invariant
            j <= src@.len(),
            source_index(src@.subrange(0, j as int), renames@, n@) == -1,
            forall|i: int| 0 <= i < j ==> rename_of(renames@, #[trigger] src@[i].name@) != n@,
        decreases src@.len() - j,
    {
        let renamed = crate::schema::rename_column(renames, src[j].name.as_str());
        assert(src@.subrange(0, j + 1).drop_last() =~= src@.subrange(0, j as int));
        if str_eq(renamed.as_str(), n) {
            proof {
                lemma_source_index_prefix(src@, renames@, n@, j + 1);
            }
            return Some(j);
        }
        j += 1;
    }
    proof {
        lemma_source_index_absent(src@, renames@, n@);
    }
    None
}

fn contains_name_exec(list: &Vec<String>, n: &str) -> (r: bool)
    ensures
        r == contains_name(list@, n@),
{
    let mut k: usize = 0;
    while k < list.len()
        invariant
            k <= list@.len(),
            forall|j: int| 0 <= j < k ==> list@[j]@ != n@,
        decreases list@.len() - k,
    {
        if str_eq(list[k].as_str(), n) {
            return true;
        }
        k += 1;
    }
    false
}

fn projected_exec(n: &str, only: &Option<Vec<String>>, exclude: &Option<Vec<String>>) -> (r: bool)
    ensures
        r == projected(n@, *only, *exclude),
{
    let inc = match only {
        Some(l) => contains_name_exec(l, n),
        None => true,
    };
    let exc = match exclude {
        Some(l) => !contains_name_exec(l, n),
        None => true,
    };
    inc && exc
}

pub open spec fn sat_u64(n: nat) -> u64 {
    if n > u64::MAX {
        u64::MAX
    } else {
        n as u64
    }
}

/// Coerces one source column to type `t`, counting lost values onto `loss`
/// (saturating).
fn coerce_column(vals: &Vec<Value>, t: TypeKind, n: usize, loss: u64, Ghost(base): Ghost<nat>) -> (r: (Vec<Value>, u64))
    requires
        n <= vals@.len(),
        loss == sat_u64(base),
    ensures
        r.0@.len() == n,
        forall|row: int| 0 <= row < n ==> (#[trigger] r.0@[row])@ == aligned_cell(vals@[row]@, t),
        r.1 == sat_u64(base + column_loss(vals@, t, n as int)),
{
    let mut out: Vec<Value> = Vec::new();
    let mut loss = loss;
    let mut row: usize = 0;
    while row < n
        invariant
            row <= n <= vals@.len(),
            out@.len() == row,
            forall|k: int| 0 <= k < row ==> (#[trigger] out@[k])@ == aligned_cell(vals@[k]@, t),
            loss == sat_u64(base + column_loss(vals@, t, row as int)),
        decreases n - row,
    {
        match coerce_value(&vals[row], t) {
            Some(w) => {
                out.push(w);
            },
            None => {
                out.push(Value::Null);
                if loss < u64::MAX {
                    loss = loss + 1;
                }
            },
        }
        row += 1;
    }
    (out, loss)
}

fn null_column(n: usize) -> (r: Vec<Value>)
    ensures
        r@.len() == n,
        forall|row: int| 0 <= row < n ==> (#[trigger] r@[row])@ == ValueModel::Null,
{
    let mut out: Vec<Value> = Vec::new();
    let mut row: usize = 0;
    while row < n
        invariant
            row <= n,
            out@.len() == row,
            forall|k: int| 0 <= k < row ==> (#[trigger] out@[k])@ == ValueModel::Null,
        decreases n - row,
    {
        out.push(Value::Null);
        row += 1;
    }
    out
}

impl BatchAligner {
    pub fn new(
        unified_schema: UnifiedSchema,
        include_columns: Option<Vec<String>>,
        exclude_columns: Option<Vec<String>>,
        stringify_conflicts: bool,
    ) -> (r: Self)
        ensures
            r.unified_schema == unified_schema,
            r.include_columns == include_columns,
            r.exclude_columns == exclude_columns,
            r.stringify_conflicts == stringify_conflicts,
    {
        BatchAligner { unified_schema, include_columns, exclude_columns, stringify_conflicts }
    }

    /// The unified columns this aligner emits.
    pub open spec fn out_columns(&self) -> Seq<ColumnSchema> {
        kept(self.unified_schema.columns@, self.include_columns, self.exclude_columns)
    }

    /// The columns of every aligned batch: the kept unified columns, in order.
    pub fn output_schema(&self) -> (r: Vec<ColumnSchema>)
        ensures
            cols_model(r@) == cols_model(self.out_columns()),
    {
        let ucols = &self.unified_schema.columns;
        let mut out: Vec<ColumnSchema> = Vec::new();
        let mut i: usize = 0;
        assert(ucols@.subrange(0, 0) =~= Seq::<ColumnSchema>::empty());
        assert(cols_model(out@) =~= Seq::<ColModel>::empty());
        while i < ucols.len()
            invariant
                ucols == &self.unified_schema.columns,
                i <= ucols@.len(),
                cols_model(out@) == cols_model(
                    kept(ucols@.subrange(0, i as int), self.include_columns, self.exclude_columns),
                ),
            decreases ucols@.len() - i,
        {
            let ghost kp = kept(ucols@.subrange(0, i as int), self.include_columns, self.exclude_columns);
            let ghost pre = out@;
            assert(ucols@.subrange(0, i + 1).drop_last() =~= ucols@.subrange(0, i as int));
            assert(ucols@.subrange(0, i + 1).last() == ucols@[i as int]);
            let col = &ucols[i];
            if projected_exec(col.name.as_str(), &self.include_columns, &self.exclude_columns) {
                out.push(ColumnSchema { name: col.name.clone(), dtype: col.dtype, nullable: col.nullable });
                assert(cols_model(out@) =~= cols_model(kp.push(*col))) by {
                    assert(cols_model(pre).len() == pre.len());
                    assert(cols_model(kp).len() == kp.len());
                    assert forall|x: int| 0 <= x < out@.len() implies cols_model(out@)[x]
                        == cols_model(kp.push(*col))[x] by {
                        if x < pre.len() {
                            assert(out@[x] == pre[x]);
                            assert(cols_model(pre)[x] == cols_model(kp)[x]);
                        }
                    }
                }
            }
            i += 1;
        }
        assert(ucols@.subrange(0, ucols@.len() as int) =~= ucols@);
        out
    }

    /// Aligns a source batch to the unified schema: each kept unified column
    /// takes the source column renamed to it, coerced to its type (a lost
    /// value becomes null and is counted), or nulls where the source has no
    /// such column. A source column whose type does not widen into its
    /// unified type is a schema conflict unless conflicts are stringified; then
    /// it is coerced like any other, its lost values counted.
    pub fn align_batch(&self, batch: &Batch) -> (r: Result<Aligned, MawError>)
        requires
            batch.wf(),
        ensures
            r is Err <==> !self.stringify_conflicts && has_conflict(
                *batch,
                self.unified_schema.column_mapping@,
                self.out_columns(),
                self.stringify_conflicts,
            ),
            r is Err ==> r->Err_0 is SchemaConflict,
            r is Ok ==> ({
                let a = r->Ok_0;
                let cols = self.out_columns();
                &&& a.batch.wf()
                &&& a.batch.typed()
                &&& a.batch.num_rows == batch.num_rows
                &&& cols_model(a.batch.schema@) == cols_model(cols)
                &&& forall|k: int, row: int|
                    0 <= k < cols.len() && 0 <= row < batch.num_rows ==> (
                    #[trigger] a.batch.columns@[k]@[row])@ == aligned_value(
                        *batch,
                        self.unified_schema.column_mapping@,
                        cols[k],
                        row,
                    )
                &&& a.coercion_loss == sat_u64(
                    batch_loss(*batch, self.unified_schema.column_mapping@, cols),
                )
            }),
    {
        let ucols = &self.unified_schema.columns;
        let renames = &self.unified_schema.column_mapping;
        let ghost ren = renames@;
        let n = batch.num_rows;
        let mut schema: Vec<ColumnSchema> = Vec::new();
        let mut columns: Vec<Vec<Value>> = Vec::new();
        let mut loss: u64 = 0;
        let mut i: usize = 0;
        assert(ucols@.subrange(0, 0) =~= Seq::<ColumnSchema>::empty());
        assert(cols_model(schema@) =~= Seq::<ColModel>::empty());
        while i < ucols.len()
            invariant
                batch.wf(),
                n == batch.num_rows,
                ren == renames@,
                ucols == &self.unified_schema.columns,
                renames == &self.unified_schema.column_mapping,
                i <= ucols@.len(),
                ({
                    let kp = kept(ucols@.subrange(0, i as int), self.include_columns, self.exclude_columns);
                    &&& cols_model(schema@) == cols_model(kp)
                    &&& columns@.len() == kp.len()
                    &&& forall|k: int| 0 <= k < columns@.len() ==> (#[trigger] columns@[k])@.len() == n
                    &&& forall|k: int, row: int|
                        0 <= k < kp.len() && 0 <= row < n ==> (#[trigger] columns@[k]@[row])@
                            == aligned_value(*batch, ren, kp[k], row)
                    &&& loss == sat_u64(batch_loss(*batch, ren, kp))
                    &&& (!self.stringify_conflicts ==> !has_conflict(*batch, ren, kp, self.stringify_conflicts))
                }),
            decreases ucols@.len() - i,
        {
            let ghost kp = kept(ucols@.subrange(0, i as int), self.include_columns, self.exclude_columns);
            let ghost pre_cols = columns@;
            let ghost pre_schema = schema@;
            assert(ucols@.subrange(0, i + 1).drop_last() =~= ucols@.subrange(0, i as int));
            assert(ucols@.subrange(0, i + 1).last() == ucols@[i as int]);
            let col = &ucols[i];
            if projected_exec(col.name.as_str(), &self.include_columns, &self.exclude_columns) {
                let ghost kp_next = kp.push(*col);
                assert(kp_next.drop_last() =~= kp);
                let t = col.dtype;
                let values = match find_source(&batch.schema, renames, col.name.as_str()) {
                    Some(j) => {
                        proof {
                            lemma_source_index_bounds(batch.schema@, ren, col.name@);
                        }
                        let src_t = batch.schema[j].dtype;
                        let ok = match widen_types(&src_t, &t, self.stringify_conflicts) {
                            Ok(w) => w == t,
                            Err(_) => false,
                        };
                        if !ok && !self.stringify_conflicts {
                            assert(has_conflict(*batch, ren, kp_next, self.stringify_conflicts)) by {
                                assert(kp_next[kp.len() as int] == *col);
                            }
                            proof {
                                lemma_kept_prefix_conflict(
                                    *batch,
                                    ren,
                                    ucols@,
                                    i + 1,
                                    self.include_columns,
                                    self.exclude_columns,
                                    self.stringify_conflicts,
                                );
                            }
                            return Err(MawError::SchemaConflict(String::from_str("source column type does not widen into its unified type")));
                        }
                        assert(j < batch.columns@.len());
                        assert(batch.columns@[j as int]@.len() == n);
                        let (vals, l) = coerce_column(&batch.columns[j], t, n, loss, Ghost(batch_loss(*batch, ren, kp)));
                        loss = l;
                        vals
                    },
                    None => {
                        null_column(n)
                    },
                };
                schema.push(ColumnSchema { name: col.name.clone(), dtype: t, nullable: true });
                columns.push(values);
                assert(cols_model(schema@) =~= cols_model(kp_next)) by {
                    assert(cols_model(pre_schema) == cols_model(kp));
                    assert(cols_model(pre_schema).len() == pre_schema.len());
                    assert(cols_model(kp).len() == kp.len());
                    assert forall|x: int| 0 <= x < schema@.len() implies cols_model(schema@)[x]
                        == cols_model(kp_next)[x] by {
                        if x < pre_schema.len() {
                            assert(schema@[x] == pre_schema[x]);
                            assert(kp_next[x] == kp[x]);
                            assert(cols_model(pre_schema)[x] == cols_model(kp)[x]);
                        }
                    }
                }
                assert forall|k: int, row: int|
                    0 <= k < kp_next.len() && 0 <= row < n implies (#[trigger] columns@[k]@[row])@
                        == aligned_value(*batch, ren, kp_next[k], row) by {
                    if k < kp.len() {
                        assert(columns@[k] == pre_cols[k]);
                        assert(kp_next[k] == kp[k]);
                    }
                }
                assert(!self.stringify_conflicts ==> !has_conflict(*batch, ren, kp_next, self.stringify_conflicts)) by {
                    if has_conflict(*batch, ren, kp_next, self.stringify_conflicts) {
                        let k = choose|k: int|
                            0 <= k < kp_next.len() && #[trigger] source_index(batch.schema@, ren, kp_next[k].name@) >= 0
                                && !subsumed(
                                batch.schema@[source_index(batch.schema@, ren, kp_next[k].name@)].dtype,
                                kp_next[k].dtype,
                                self.stringify_conflicts,
                            );
                        if k < kp.len() {
                            assert(kp_next[k] == kp[k]);
                        }
                    }
                }
            }
            i += 1;
        }
        assert(ucols@.subrange(0, ucols@.len() as int) =~= ucols@);
        let out = Batch { schema, columns, num_rows: n };
        let ghost cols = self.out_columns();
        assert forall|c: int, k: int|
            0 <= c < out.columns@.len() && 0 <= k < out.columns@[c]@.len() implies crate::value::fits(
            (#[trigger] out.columns@[c]@[k])@,
            out.schema@[c].dtype,
        ) by {
            assert(cols_model(out.schema@)[c] == cols_model(cols)[c]);
            let j = source_index(batch.schema@, ren, cols[c].name@);
            if j >= 0 {
                crate::coerce::lemma_coerce_fits(batch.columns@[j]@[k]@, cols[c].dtype);
            }
        }
        Ok(Aligned { batch: out, coercion_loss: loss })
    }
}

proof fn lemma_kept_prefix_conflict(
    b: Batch,
    ren: Seq<(String, String)>,
    cols: Seq<ColumnSchema>,
    k: int,
    only: Option<Vec<String>>,
    exclude: Option<Vec<String>>,
    s: bool,
)
    requires
        0 <= k <= cols.len(),
        has_conflict(b, ren, kept(cols.subrange(0, k), only, exclude), s),
    ensures
        has_conflict(b, ren, kept(cols, only, exclude), s),
    decreases cols.len(),
{
    if k == cols.len() {
        assert(cols.subrange(0, k) =~= cols);
    } else {
        assert(cols.drop_last().subrange(0, k) =~= cols.subrange(0, k));
        lemma_kept_prefix_conflict(b, ren, cols.drop_last(), k, only, exclude, s);
        let kd = kept(cols.drop_last(), only, exclude);
        let kf = kept(cols, only, exclude);
        let w = choose|w: int|
            0 <= w < kd.len() && #[trigger] source_index(b.schema@, ren, kd[w].name@) >= 0 && !subsumed(
                b.schema@[source_index(b.schema@, ren, kd[w].name@)].dtype,
                kd[w].dtype,
                s,
            );
        assert(kf[w] == kd[w]);
    }
}

} // verus!
