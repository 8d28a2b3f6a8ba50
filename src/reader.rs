use vstd::prelude::*;
use crate::batch::{Batch, copy_schema};
use crate::coerce::{coerce, coerce_value, opt_view};
use crate::error::MawError;
use crate::parse::{
    bool_of_text, date_of_text, datetime_of_text, i64_of_text, is_float_text, parse_bool, parse_date,
    parse_datetime, parse_i64, is_float_str,
};
use crate::schema::{ColumnSchema, TypeKind, cols_model, str_eq};
use crate::text::decimal;
use crate::value::{Value, ValueModel};

verus! {

/// Options of the delimited-text reader.
#[derive(Debug, Clone)]
pub struct CsvConfig {
    pub delimiter: Option<u8>,
    pub quote: Option<u8>,
    pub has_headers: bool,
    pub encoding: String,
    pub na_values: Vec<String>,
    pub batch_size: usize,
}

impl CsvConfig {
    /// Comma-separated with a header row, UTF-8, the NA tokens `NA`, `null`,
    /// `\N` and the empty field, and batches of 64,000 records.
    pub fn default() -> (r: Self)
        ensures
            r.delimiter is None,
            r.quote is None,
            r.has_headers,
            r.encoding@ == "utf8"@,
            r.na_values@.len() == 4,
            r.na_values@[0]@ == "NA"@,
            r.na_values@[1]@ == "null"@,
            r.na_values@[2]@ == "\\N"@,
            r.na_values@[3]@ == ""@,
            r.batch_size == 64_000,
    {
        let mut na = Vec::new();
        na.push(String::from_str("NA"));
        na.push(String::from_str("null"));
        na.push(String::from_str("\\N"));
        na.push(String::new());
        proof {
            reveal_strlit("");
        }
        CsvConfig {
            delimiter: None,
            quote: None,
            has_headers: true,
            encoding: String::from_str("utf8"),
            na_values: na,
            batch_size: 64_000,
        }
    }
}

/// The name of the `i`-th column (from 0) when the input has no header.
pub open spec fn synthetic_name(i: int) -> Seq<char> {
    seq!['c', 'o', 'l', '_'] + decimal((i + 1) as nat)
}

/// Names `col_1` to `col_k` for an input without a header row.
pub fn synthetic_headers(k: usize) -> (r: Vec<String>)
    ensures
        r@.len() == k,
        forall|i: int| 0 <= i < k ==> (#[trigger] r@[i])@ == synthetic_name(i),
{
    let mut r: Vec<String> = Vec::new();
    let mut i: usize = 0;
    proof {
        reveal_strlit("col_");
    }
    while i < k
        invariant
            i <= k,
            r@.len() == i,
            forall|j: int| 0 <= j < i ==> (#[trigger] r@[j])@ == synthetic_name(j),
        decreases k - i,
    {
        let mut name = String::from_str("col_");
        name.append(crate::text::decimal_string_wide(i as u128 + 1).as_str());
        proof {
            reveal_strlit("col_");
            assert("col_"@ =~= seq!['c', 'o', 'l', '_']);
        }
        assert(name@ =~= synthetic_name(i as int));
        r.push(name);
        i += 1;
    }
    r
}

/// The column names of a text input from its first record: the record
/// itself when the input has a header row, else `col_1` to `col_k` for its
/// `k` fields.
pub fn header_names(first: &Vec<String>, has_headers: bool) -> (r: Vec<String>)
    ensures
        r@.len() == first@.len(),
        forall|i: int|
            0 <= i < first@.len() ==> (#[trigger] r@[i])@ == if has_headers {
                first@[i]@
            } else {
                synthetic_name(i)
            },
{
    if has_headers {
        let mut r: Vec<String> = Vec::new();
        let mut i: usize = 0;
        while i < first.len()
            invariant
                i <= first@.len(),
                r@.len() == i,
                forall|j: int| 0 <= j < i ==> (#[trigger] r@[j])@ == first@[j]@,
            decreases first@.len() - i,
        {
            r.push(first[i].clone());
            i += 1;
        }
        r
    } else {
        synthetic_headers(first.len())
    }
}

pub open spec fn is_na(x: Seq<char>, na: Seq<String>) -> bool {
    exists|k: int| 0 <= k < na.len() && na[k]@ == x
}

pub open spec fn opt_text(o: Option<String>) -> Option<Seq<char>> {
    match o {
        Some(s) => Some(s@),
        None => None,
    }
}

/// A record cut or null-extended to `width` fields, NA tokens read as null.
pub open spec fn shaped_field(fields: Seq<String>, i: int, na: Seq<String>) -> Option<Seq<char>> {
    if i < fields.len() && !is_na(fields[i]@, na) {
        Some(fields[i]@)
    } else {
        None
    }
}

fn is_na_exec(x: &str, na: &Vec<String>) -> (r: bool)
    ensures
        r == is_na(x@, na@),
{
    let mut k: usize = 0;
    while k < na.len()
        invariant
            k <= na@.len(),
            forall|j: int| 0 <= j < k ==> na@[j]@ != x@,
        decreases na@.len() - k,
    {
        if str_eq(na[k].as_str(), x) {
            return true;
        }
        k += 1;
    }
    false
}

/// Fits a record to `width` fields: shorter records are extended with
/// nulls, longer ones are cut (the second result says so), and NA tokens
/// become nulls.
pub fn shape_record(fields: &Vec<String>, width: usize, na: &Vec<String>) -> (r: (
    Vec<Option<String>>,
    bool,
))
    ensures
        r.0@.len() == width,
        forall|i: int| 0 <= i < width ==> opt_text(#[trigger] r.0@[i]) == shaped_field(fields@, i, na@),
        r.1 == (fields@.len() > width),
{
    let mut out: Vec<Option<String>> = Vec::new();
    let mut i: usize = 0;
    while i < width
        invariant
            i <= width,
            out@.len() == i,
            forall|j: int| 0 <= j < i ==> opt_text(#[trigger] out@[j]) == shaped_field(fields@, j, na@),
        decreases width - i,
    {
        if i < fields.len() && !is_na_exec(fields[i].as_str(), na) {
            out.push(Some(fields[i].clone()));
        } else {
            out.push(None);
        }
        i += 1;
    }
    (out, fields.len() > width)
}

/// The values of column `c` of shaped records.
pub open spec fn column_of(rows: Seq<Vec<Option<String>>>, c: int) -> Seq<Option<String>> {
    rows.map_values(|r: Vec<Option<String>>| r@[c])
}

pub open spec fn all_rows_wide(rows: Seq<Vec<Option<String>>>, width: int) -> bool {
    forall|r: int| 0 <= r < rows.len() ==> (#[trigger] rows[r])@.len() == width
}

/// The type of a text column: `Null` when every value is null, else the
/// first of `Bool`, `I64`, `F64`, `Date`, `Datetime` that every present
/// value parses as, else `Utf8`.
pub open spec fn infer_type(vals: Seq<Option<String>>) -> TypeKind {
    if !(exists|i: int| 0 <= i < vals.len() && vals[i] is Some) {
        TypeKind::Null
    } else if forall|i: int|
        0 <= i < vals.len() && vals[i] is Some ==> bool_of_text(vals[i]->Some_0@) is Some {
        TypeKind::Bool
    } else if forall|i: int|
        0 <= i < vals.len() && vals[i] is Some ==> i64_of_text(vals[i]->Some_0@) is Some {
        TypeKind::I64
    } else if forall|i: int|
        0 <= i < vals.len() && vals[i] is Some ==> is_float_text(vals[i]->Some_0@) {
        TypeKind::F64
    } else if forall|i: int|
        0 <= i < vals.len() && vals[i] is Some ==> (date_of_text(vals[i]->Some_0@) matches Some(
            d,
        ) && i32::MIN <= d <= i32::MAX) {
        TypeKind::Date
    } else if forall|i: int|
        0 <= i < vals.len() && vals[i] is Some ==> datetime_of_text(vals[i]->Some_0@) is Some {
        TypeKind::Datetime
    } else {
        TypeKind::Utf8
    }
}

/// Infers the type of column `c` from sampled records.
pub fn infer_column_type(rows: &Vec<Vec<Option<String>>>, c: usize) -> (r: TypeKind)
    requires
        forall|k: int| 0 <= k < rows@.len() ==> c < (#[trigger] rows@[k])@.len(),
    ensures
        r == infer_type(column_of(rows@, c as int)),
{
    let ghost col = column_of(rows@, c as int);
    let mut any = false;
    let mut all_bool = true;
    let mut all_int = true;
    let mut all_float = true;
    let mut all_date = true;
    let mut all_datetime = true;
    let mut k: usize = 0;
    while k < rows.len()
        invariant
            k <= rows@.len(),
            col == column_of(rows@, c as int),
            forall|j: int| 0 <= j < rows@.len() ==> c < (#[trigger] rows@[j])@.len(),
            any == exists|i: int| 0 <= i < k && col[i] is Some,
            all_bool == forall|i: int|
                0 <= i < k && col[i] is Some ==> bool_of_text(col[i]->Some_0@) is Some,
            all_int == forall|i: int|
                0 <= i < k && col[i] is Some ==> i64_of_text(col[i]->Some_0@) is Some,
            all_float == forall|i: int|
                0 <= i < k && col[i] is Some ==> is_float_text(col[i]->Some_0@),
            all_date == forall|i: int|
                0 <= i < k && col[i] is Some ==> (date_of_text(col[i]->Some_0@) matches Some(d)
                    && i32::MIN <= d <= i32::MAX),
            all_datetime == forall|i: int|
                0 <= i < k && col[i] is Some ==> datetime_of_text(col[i]->Some_0@) is Some,
        decreases rows@.len() - k,
    {
        assert(col[k as int] == rows@[k as int]@[c as int]);
        match &rows[k][c] {
            Some(x) => {
                any = true;
                if parse_bool(x.as_str()).is_none() {
                    all_bool = false;
                }
                if parse_i64(x.as_str()).is_none() {
                    all_int = false;
                }
                if !is_float_str(x.as_str()) {
                    all_float = false;
                }
                match parse_date(x.as_str()) {
                    Some(d) => {
                        if !(i32::MIN as i64 <= d && d <= i32::MAX as i64) {
                            all_date = false;
                        }
                    },
                    None => {
                        all_date = false;
                    },
                }
                if parse_datetime(x.as_str()).is_none() {
                    all_datetime = false;
                }
            },
            None => {},
        }
        k += 1;
    }
    if !any {
        TypeKind::Null
    } else if all_bool {
        TypeKind::Bool
    } else if all_int {
        TypeKind::I64
    } else if all_float {
        TypeKind::F64
    } else if all_date {
        TypeKind::Date
    } else if all_datetime {
        TypeKind::Datetime
    } else {
        TypeKind::Utf8
    }
}

/// The typed value of one text cell in a column of type `t`; `None` when
/// the text does not parse as that type.
pub open spec fn cell_value(cell: Option<String>, t: TypeKind) -> Option<ValueModel> {
    match cell {
        None => Some(ValueModel::Null),
        Some(x) => coerce(ValueModel::Text(x@), t),
    }
}

/// Every cell parses as its column's type.
pub open spec fn cells_ok(rows: Seq<Vec<Option<String>>>, schema: Seq<ColumnSchema>) -> bool {
    forall|r: int, c: int|
        0 <= r < rows.len() && 0 <= c < schema.len() ==> (#[trigger] cell_value(
            rows[r]@[c],
            schema[c].dtype,
        )) is Some
}

fn convert_cell(cell: &Option<String>, t: TypeKind) -> (r: Option<Value>)
    ensures
        opt_view(r) == cell_value(*cell, t),
{
    match cell {
        None => Some(Value::Null),
        Some(x) => coerce_value(&Value::Text(x.clone()), t),
    }
}

/// Converts shaped text records into a batch of the given schema. A cell
/// that does not parse as its column's type makes the whole batch a bad
/// record.
pub fn records_to_batch(rows: &Vec<Vec<Option<String>>>, schema: &Vec<ColumnSchema>) -> (r: Result<
    Batch,
    MawError,
>)
    requires
        all_rows_wide(rows@, schema@.len() as int),
    ensures
        r is Ok <==> cells_ok(rows@, schema@),
        r is Err ==> r->Err_0 is BadRecord,
        r is Ok ==> ({
            let b = r->Ok_0;
            &&& b.wf()
            &&& b.typed()
            &&& b.num_rows == rows@.len()
            &&& cols_model(b.schema@) == cols_model(schema@)
            &&& forall|c: int, k: int|
                0 <= c < schema@.len() && 0 <= k < rows@.len() ==> Some(
                    (#[trigger] b.columns@[c]@[k])@,
                ) == cell_value(rows@[k]@[c], schema@[c].dtype)
        }),
{
    let mut columns: Vec<Vec<Value>> = Vec::new();
    let mut c: usize = 0;
    while c < schema.len()
        invariant
            c <= schema@.len(),
            all_rows_wide(rows@, schema@.len() as int),
            columns@.len() == c,
            forall|cc: int| 0 <= cc < c ==> (#[trigger] columns@[cc])@.len() == rows@.len(),
            forall|cc: int, k: int|
                0 <= cc < c && 0 <= k < rows@.len() ==> Some((#[trigger] columns@[cc]@[k])@)
                    == cell_value(rows@[k]@[cc], schema@[cc].dtype),
        decreases schema@.len() - c,
    {
        let t = schema[c].dtype;
        let mut col: Vec<Value> = Vec::new();
        let mut k: usize = 0;
        while k < rows.len()
            invariant
                c < schema@.len(),
                t == schema@[c as int].dtype,
                all_rows_wide(rows@, schema@.len() as int),
                k <= rows@.len(),
                col@.len() == k,
                forall|j: int|
                    0 <= j < k ==> Some((#[trigger] col@[j])@) == cell_value(rows@[j]@[c as int], t),
            decreases rows@.len() - k,
        {
            assert(rows@[k as int]@.len() == schema@.len());
            match convert_cell(&rows[k][c], t) {
                Some(v) => {
                    col.push(v);
                },
                None => {
                    assert(cell_value(rows@[k as int]@[c as int], schema@[c as int].dtype) is None);
                    return Err(MawError::BadRecord(String::from_str("value does not parse as its column type")));
                },
            }
            k += 1;
        }
        columns.push(col);
        c += 1;
    }
    assert forall|k: int, cc: int|
        0 <= k < rows@.len() && 0 <= cc < schema@.len() implies (#[trigger] cell_value(
        rows@[k]@[cc],
        schema@[cc].dtype,
    )) is Some by {
        assert(Some(columns@[cc]@[k]@) == cell_value(rows@[k]@[cc], schema@[cc].dtype));
    }
    let b = Batch { schema: copy_schema(schema), columns, num_rows: rows.len() };
    assert forall|c: int, k: int|
        0 <= c < b.columns@.len() && 0 <= k < b.columns@[c]@.len() implies crate::value::fits(
        (#[trigger] b.columns@[c]@[k])@,
        b.schema@[c].dtype,
    ) by {
        crate::coerce::lemma_coerce_fits(ValueModel::Text(rows@[k]@[c].unwrap()@), schema@[c].dtype);
    }
    Ok(b)
}

/// Byte offsets published after each batch of `batch_size` records: the end
/// of the batch's last record.
pub open spec fn boundary_at(record_ends: Seq<u64>, batch_size: int, k: int) -> u64 {
    record_ends[vstd::math::min((k + 1) * batch_size, record_ends.len() as int) - 1]
}

pub open spec fn strictly_increasing(s: Seq<u64>) -> bool {
    forall|i: int, j: int| 0 <= i < j < s.len() ==> s[i] < s[j]
}

/// The offsets that a reader publishes, one per batch, from the end offsets
/// of the records it read in order. Offsets are only published at the end of
/// a batch, that is at a record boundary, and they strictly increase.
pub fn batch_boundaries(record_ends: &Vec<u64>, batch_size: usize) -> (r: Vec<u64>)
    requires
        batch_size > 0,
        strictly_increasing(record_ends@),
    ensures
        r@.len() == (record_ends@.len() + batch_size - 1) / batch_size as int,
        forall|k: int| 0 <= k < r@.len() ==> r@[k] == boundary_at(record_ends@, batch_size as int, k),
        strictly_increasing(r@),
{
    let n = record_ends.len();
    let mut r: Vec<u64> = Vec::new();
    let mut start: usize = 0;
    assert(start == r@.len() * batch_size);
    assert(n == 0 ==> (n + batch_size - 1) / batch_size as int == 0) by (nonlinear_arith)
        requires
            batch_size > 0,
    ;
    while start < n
        invariant
            n == record_ends@.len(),
            batch_size > 0,
            strictly_increasing(record_ends@),
            start <= n,
            start == r@.len() * batch_size || start == n,
            start == n ==> r@.len() == (n + batch_size - 1) / batch_size as int,
            start < n ==> start == r@.len() * batch_size,
            forall|k: int| 0 <= k < r@.len() ==> r@[k] == boundary_at(record_ends@, batch_size as int, k),
            strictly_increasing(r@),
            r@.len() > 0 ==> r@.last() == record_ends@[start - 1],
        decreases n - start,
    {
        let end: usize = if n - start > batch_size {
            start + batch_size
        } else {
            n
        };
        let ghost k = r@.len() as int;
        assert(end == vstd::math::min((k + 1) * batch_size, n as int)) by (nonlinear_arith)
            requires
                start == k * batch_size,
                end == if n - start > batch_size { start + batch_size } else { n as int },
        ;
        let ghost old_r = r@;
        r.push(record_ends[end - 1]);
        assert(r@.last() == record_ends@[end - 1]);
        proof {
            if old_r.len() > 0 {
                assert(start >= 1) by (nonlinear_arith)
                    requires
                        start == old_r.len() * batch_size,
                        old_r.len() > 0,
                        batch_size > 0,
                ;
                assert(end > start);
                assert(record_ends@[start - 1] < record_ends@[end - 1]);
            }
        }
        assert forall|i: int, j: int| 0 <= i < j < r@.len() implies r@[i] < r@[j] by {
            if j == r@.len() - 1 {
                assert(r@[i] == old_r[i]);
                if i < old_r.len() - 1 {
                    assert(old_r[i] < old_r.last());
                }
            } else {
                assert(r@[i] == old_r[i]);
                assert(r@[j] == old_r[j]);
            }
        }
        if end == n {
            assert((n + batch_size - 1) / batch_size as int == k + 1) by (nonlinear_arith)
                requires
                    start == k * batch_size,
                    start < n,
                    n <= start + batch_size,
                    batch_size > 0,
            ;
        }
        start = end;
    }
    r
}

/// Resume determinism: the offset published after batch `k` splits the
/// input exactly between the records already written and the rest. A record
/// ends at or before the offset if and only if it belongs to one of the
/// first `k + 1` batches, so a run resumed from that offset reads every
/// other record once and none of the written ones again.
pub proof fn lemma_resume_splits_records(record_ends: Seq<u64>, batch_size: int, k: int)
    requires
        batch_size > 0,
        strictly_increasing(record_ends),
        0 <= k,
        k * batch_size < record_ends.len(),
    ensures
        forall|i: int|
            0 <= i < record_ends.len() ==> (#[trigger] record_ends[i] <= boundary_at(
                record_ends,
                batch_size,
                k,
            ) <==> i < vstd::math::min((k + 1) * batch_size, record_ends.len() as int)),
{
    let e = vstd::math::min((k + 1) * batch_size, record_ends.len() as int);
    assert((k + 1) * batch_size > k * batch_size) by (nonlinear_arith)
        requires
            batch_size > 0,
    ;
    assert(e >= 1);
    assert forall|i: int| 0 <= i < record_ends.len() implies (#[trigger] record_ends[i] <= boundary_at(
        record_ends,
        batch_size,
        k,
    ) <==> i < e) by {
        if i < e - 1 {
            assert(record_ends[i] < record_ends[e - 1]);
        } else if i > e - 1 {
            assert(record_ends[e - 1] < record_ends[i]);
        }
    }
}

/// The row groups a columnar input still has to give, in order: all of
/// them on a fresh start, else those after the last one written. They
/// strictly increase.
pub fn row_groups_to_read(total: usize, last_row_group: Option<usize>) -> (r: Vec<usize>)
    ensures
        ({
            let start = match last_row_group {
                Some(g) => g + 1,
                None => 0,
            };
            &&& r@.len() == if start <= total { total - start } else { 0 }
            &&& forall|k: int| 0 <= k < r@.len() ==> #[trigger] r@[k] == start + k
        }),
        forall|i: int, j: int| 0 <= i < j < r@.len() ==> r@[i] < r@[j],
{
    let start: usize = match last_row_group {
        Some(g) => if g >= total {
            total
        } else {
            g + 1
        },
        None => 0,
    };
    let mut r: Vec<usize> = Vec::new();
    let mut g = start;
    while g < total
        invariant
            start <= g <= total || (start == total && g == total),
            g >= start,
            r@.len() == g - start,
            forall|k: int| 0 <= k < r@.len() ==> #[trigger] r@[k] == start + k,
        decreases total - g,
    {
        r.push(g);
        g += 1;
    }
    r
}

/// Resume determinism for a text input whose run was cancelled after batch
/// `k` was written and checkpointed: when the input is unchanged, the
/// resumed run continues from the checkpointed offset, and from there it
/// reads exactly the records that were not written before.
pub proof fn lemma_resume_determinism(
    f: crate::state::FileState,
    size: u64,
    mtime: u64,
    record_ends: Seq<u64>,
    batch_size: int,
    k: int,
)
    requires
        batch_size > 0,
        strictly_increasing(record_ends),
        0 <= k,
        k * batch_size < record_ends.len(),
        f.size == size && f.last_modified == mtime,
        !f.processed,
        f.last_offset == Some(boundary_at(record_ends, batch_size, k)),
    ensures
        crate::state::resume_spec(Some(f), size, mtime) == (crate::state::ResumeAction::Resume {
            offset: boundary_at(record_ends, batch_size, k),
            row_group: f.last_row_group,
        }),
        forall|i: int|
            0 <= i < record_ends.len() ==> (#[trigger] record_ends[i] <= boundary_at(
                record_ends,
                batch_size,
                k,
            ) <==> i < vstd::math::min((k + 1) * batch_size, record_ends.len() as int)),
{
    lemma_resume_splits_records(record_ends, batch_size, k);
}

/// What the reader does with the next raw record.
#[derive(Debug, Clone, Copy, PartialEq, Eq, Structural)]
pub struct RecordStep {
    /// Strip a byte order mark from its first field.
    pub strip_bom: bool,
    /// It is the header row, not data.
    pub is_header: bool,
    /// It is a data record that completes the current batch.
    pub batch_full: bool,
}

/// Where a text reader stands: at the start of the input or not, and how
/// many data records the current batch holds.
#[derive(Debug, Clone, Copy)]
pub struct RecordCursor {
    pub has_headers: bool,
    pub at_start: bool,
    pub batch_size: usize,
    pub in_batch: usize,
}

impl RecordCursor {
    pub open spec fn wf(&self) -> bool {
        self.batch_size > 0 && self.in_batch < self.batch_size
    }

    /// A cursor for an input read from its start, or resumed at a record
    /// boundary further on (then no header and no byte order mark come).
    pub fn new(has_headers: bool, from_start: bool, batch_size: usize) -> (r: Self)
        requires
            batch_size > 0,
        ensures
            r.wf(),
            r.has_headers == has_headers && r.at_start == from_start,
            r.batch_size == batch_size && r.in_batch == 0,
    {
        RecordCursor { has_headers, at_start: from_start, batch_size, in_batch: 0 }
    }

    /// Steps over one record: only the input's first record has its byte
    /// order mark stripped, and it is the header when the input has one;
    /// every `batch_size`-th data record closes a batch.
    pub fn next(&mut self) -> (r: RecordStep)
        requires
            old(self).wf(),
        ensures
            final(self).wf(),
            final(self).has_headers == old(self).has_headers,
            final(self).batch_size == old(self).batch_size,
            !final(self).at_start,
            r.strip_bom == old(self).at_start,
            r.is_header == (old(self).at_start && old(self).has_headers),
            r.is_header ==> !r.batch_full && final(self).in_batch == old(self).in_batch,
            !r.is_header ==> r.batch_full == (old(self).in_batch + 1 == old(self).batch_size)
                && final(self).in_batch == if r.batch_full {
                0
            } else {
                old(self).in_batch + 1
            },
    {
        let strip_bom = self.at_start;
        let is_header = self.at_start && self.has_headers;
        self.at_start = false;
        if is_header {
            return RecordStep { strip_bom, is_header, batch_full: false };
        }
        let batch_full = self.in_batch + 1 == self.batch_size;
        self.in_batch = if batch_full {
            0
        } else {
            self.in_batch + 1
        };
        RecordStep { strip_bom, is_header, batch_full }
    }
}

} // verus!
