use vstd::prelude::*;
use crate::error::MawError;
use crate::discover::{lex_lt, lemma_lex_total, lemma_lex_transitive, path_lt};

verus! {

/// The closed set of column types.
#[derive(Debug, Clone, Copy, PartialEq, Eq, Hash, Structural)]
pub enum TypeKind {
    Null,
    Bool,
    I8,
    I16,
    I32,
    I64,
    F32,
    F64,
    Utf8,
    Date,
    Datetime,
    Binary,
}

pub open spec fn is_int(t: TypeKind) -> bool {
    t is I8 || t is I16 || t is I32 || t is I64
}

pub open spec fn is_float(t: TypeKind) -> bool {
    t is F32 || t is F64
}

pub open spec fn is_numeric(t: TypeKind) -> bool {
    is_int(t) || is_float(t)
}

/// Width of an integer type: I8 < I16 < I32 < I64.
pub open spec fn int_rank(t: TypeKind) -> int {
    match t {
        TypeKind::I8 => 1,
        TypeKind::I16 => 2,
        TypeKind::I32 => 3,
        TypeKind::I64 => 4,
        _ => 0,
    }
}

/// The smallest float holding both an integer type and a float type:
/// F32 for I8, I16 and I32 beside F32, F64 otherwise.
pub open spec fn int_float_join(i: TypeKind, f: TypeKind) -> TypeKind {
    if f is F32 && int_rank(i) <= 3 {
        TypeKind::F32
    } else {
        TypeKind::F64
    }
}

/// The join of two types in the lattice, or `None` where they only meet in
/// a stringified column.
pub open spec fn join(a: TypeKind, b: TypeKind) -> Option<TypeKind> {
    if a is Null {
        Some(b)
    } else if b is Null {
        Some(a)
    } else if a == b {
        Some(a)
    } else if is_int(a) && is_int(b) {
        Some(if int_rank(a) >= int_rank(b) { a } else { b })
    } else if is_float(a) && is_float(b) {
        Some(TypeKind::F64)
    } else if is_int(a) && is_float(b) {
        Some(int_float_join(a, b))
    } else if is_float(a) && is_int(b) {
        Some(int_float_join(b, a))
    } else if a is Bool && is_numeric(b) {
        Some(b)
    } else if b is Bool && is_numeric(a) {
        Some(a)
    } else if (a is Date && b is Datetime) || (a is Datetime && b is Date) {
        Some(TypeKind::Datetime)
    } else {
        None
    }
}

/// Widening: the join, else `Utf8` when conflicts are stringified, else a
/// schema conflict (`None`).
pub open spec fn widen(a: TypeKind, b: TypeKind, stringify_conflicts: bool) -> Option<TypeKind> {
    match join(a, b) {
        Some(t) => Some(t),
        None => if stringify_conflicts {
            Some(TypeKind::Utf8)
        } else {
            None
        },
    }
}

/// `a ⊑ b`: widening `a` into `b` leaves `b`.
pub open spec fn subsumed(a: TypeKind, b: TypeKind, stringify_conflicts: bool) -> bool {
    widen(a, b, stringify_conflicts) == Some(b)
}

/// Widening a partial result further: a conflict stays a conflict.
pub open spec fn widen_then(x: Option<TypeKind>, c: TypeKind, stringify_conflicts: bool) -> Option<TypeKind> {
    match x {
        Some(t) => widen(t, c, stringify_conflicts),
        None => None,
    }
}

fn is_int_exec(t: TypeKind) -> (r: bool)
    ensures
        r == is_int(t),
{
    matches!(t, TypeKind::I8 | TypeKind::I16 | TypeKind::I32 | TypeKind::I64)
}

fn is_float_exec(t: TypeKind) -> (r: bool)
    ensures
        r == is_float(t),
{
    matches!(t, TypeKind::F32 | TypeKind::F64)
}

fn int_rank_exec(t: TypeKind) -> (r: u8)
    ensures
        r as int == int_rank(t),
{
    match t {
        TypeKind::I8 => 1,
        TypeKind::I16 => 2,
        TypeKind::I32 => 3,
        TypeKind::I64 => 4,
        _ => 0,
    }
}

fn int_float_join_exec(i: TypeKind, f: TypeKind) -> (r: TypeKind)
    ensures
        r == int_float_join(i, f),
{
    if f == TypeKind::F32 && int_rank_exec(i) <= 3 {
        TypeKind::F32
    } else {
        TypeKind::F64
    }
}

/// Widens two column types by the lattice rules. Fails with a schema
/// conflict exactly when the types have no join and conflicts are not
/// stringified.
pub fn widen_types(left: &TypeKind, right: &TypeKind, stringify_conflicts: bool) -> (r: Result<
    TypeKind,
    MawError,
>)
    ensures
        match widen(*left, *right, stringify_conflicts) {
            Some(t) => r == Ok::<TypeKind, MawError>(t),
            None => r is Err && r->Err_0 is SchemaConflict,
        },
{
    let a = *left;
    let b = *right;
    if a == TypeKind::Null {
        return Ok(b);
    }
    if b == TypeKind::Null {
        return Ok(a);
    }
    if a == b {
        return Ok(a);
    }
    let a_int = is_int_exec(a);
    let b_int = is_int_exec(b);
    let a_float = is_float_exec(a);
    let b_float = is_float_exec(b);
    if a_int && b_int {
        if int_rank_exec(a) >= int_rank_exec(b) {
            Ok(a)
        } else {
            Ok(b)
        }
    } else if a_float && b_float {
        Ok(TypeKind::F64)
    } else if a_int && b_float {
        Ok(int_float_join_exec(a, b))
    } else if a_float && b_int {
        Ok(int_float_join_exec(b, a))
    } else if a == TypeKind::Bool && (b_int || b_float) {
        Ok(b)
    } else if b == TypeKind::Bool && (a_int || a_float) {
        Ok(a)
    } else if (a == TypeKind::Date && b == TypeKind::Datetime) || (a == TypeKind::Datetime && b
        == TypeKind::Date) {
        Ok(TypeKind::Datetime)
    } else if stringify_conflicts {
        Ok(TypeKind::Utf8)
    } else {
        Err(MawError::SchemaConflict(String::from_str("cannot unify incompatible column types")))
    }
}

/// Widening is commutative.
pub proof fn lemma_widen_commutative(a: TypeKind, b: TypeKind, stringify_conflicts: bool)
    ensures
        widen(a, b, stringify_conflicts) == widen(b, a, stringify_conflicts),
{
}

/// Widening is idempotent.
pub proof fn lemma_widen_idempotent(a: TypeKind, stringify_conflicts: bool)
    ensures
        widen(a, a, stringify_conflicts) == Some(a),
{
}

/// `Null` is a unit of widening, on either side.
pub proof fn lemma_widen_null_unit(a: TypeKind, stringify_conflicts: bool)
    ensures
        widen(TypeKind::Null, a, stringify_conflicts) == Some(a),
        widen(a, TypeKind::Null, stringify_conflicts) == Some(a),
{
}

/// Widening is associative; a conflict on either side is a conflict on both.
#[verifier::rlimit(100)]
pub proof fn lemma_widen_associative(a: TypeKind, b: TypeKind, c: TypeKind, stringify_conflicts: bool)
    ensures
        widen_then(widen(a, b, stringify_conflicts), c, stringify_conflicts) == match widen(
            b,
            c,
            stringify_conflicts,
        ) {
            Some(bc) => widen(a, bc, stringify_conflicts),
            None => None,
        },
{
}

/// One column of a schema: its name, type and whether it may hold nulls.
#[derive(Debug, Clone, PartialEq)]
pub struct ColumnSchema {
    pub name: String,
    pub dtype: TypeKind,
    pub nullable: bool,
}

/// A column as the contracts see it: name and type.
pub type ColModel = (Seq<char>, TypeKind);

pub open spec fn col_model(c: ColumnSchema) -> ColModel {
    (c.name@, c.dtype)
}

pub open spec fn cols_model(cols: Seq<ColumnSchema>) -> Seq<ColModel> {
    cols.map_values(|c: ColumnSchema| col_model(c))
}

pub open spec fn names_unique(m: Seq<ColModel>) -> bool {
    forall|i: int, j: int| 0 <= i < j < m.len() ==> m[i].0 != m[j].0
}

/// The name a source column takes: the new name of the first rename pair
/// whose old name it is, else its own.
pub open spec fn rename_of(renames: Seq<(String, String)>, n: Seq<char>) -> Seq<char>
    decreases renames.len(),
{
    if renames.len() == 0 {
        n
    } else if renames[0].0@ == n {
        renames[0].1@
    } else {
        rename_of(renames.drop_first(), n)
    }
}

/// Position of the column named `n`, or -1.
pub open spec fn name_index(m: Seq<ColModel>, n: Seq<char>) -> int {
    if exists|i: int| 0 <= i < m.len() && m[i].0 == n {
        choose|i: int| 0 <= i < m.len() && m[i].0 == n
    } else {
        -1
    }
}

/// Merges one column into the accumulated schema: a known name has its type
/// widened, a new name is appended.
pub open spec fn add_column(m: Seq<ColModel>, n: Seq<char>, t: TypeKind, s: bool) -> Option<
    Seq<ColModel>,
> {
    let i = name_index(m, n);
    if i >= 0 {
        match widen(m[i].1, t, s) {
            Some(w) => Some(m.update(i, (n, w))),
            None => None,
        }
    } else {
        Some(m.push((n, t)))
    }
}

/// Merges the columns of one input, in order, after renaming.
pub open spec fn add_columns(
    acc: Option<Seq<ColModel>>,
    cols: Seq<ColumnSchema>,
    renames: Seq<(String, String)>,
    s: bool,
) -> Option<Seq<ColModel>>
    decreases cols.len(),
{
    if cols.len() == 0 {
        acc
    } else {
        match add_columns(acc, cols.drop_last(), renames, s) {
            Some(m) => add_column(m, rename_of(renames, cols.last().name@), cols.last().dtype, s),
            None => None,
        }
    }
}

/// The unified columns of the inputs, walked in order; `None` on a conflict.
pub open spec fn unify(schemas: Seq<Vec<ColumnSchema>>, renames: Seq<(String, String)>, s: bool) -> Option<
    Seq<ColModel>,
>
    decreases schemas.len(),
{
    if schemas.len() == 0 {
        Some(Seq::empty())
    } else {
        add_columns(unify(schemas.drop_last(), renames, s), schemas.last()@, renames, s)
    }
}

/// The column named `n` holds a type into which `t` widens.
pub open spec fn covers(m: Seq<ColModel>, n: Seq<char>, t: TypeKind, s: bool) -> bool {
    exists|k: int| 0 <= k < m.len() && m[k].0 == n && subsumed(t, m[k].1, s)
}

/// The unified schema: its columns, in order of first appearance, and the
/// rename pairs applied to source column names.
#[derive(Debug, Clone)]
pub struct UnifiedSchema {
    pub columns: Vec<ColumnSchema>,
    pub column_mapping: Vec<(String, String)>,
}

pub fn str_eq(a: &str, b: &str) -> (r: bool)
    ensures
        r == (a@ == b@),
{
    let x = a.to_owned();
    let y = b.to_owned();
    x == y
}

fn find_column(cols: &Vec<ColumnSchema>, name: &str) -> (r: Option<usize>)
    ensures
        match r {
            Some(i) => i < cols@.len() && cols@[i as int].name@ == name@,
            None => forall|k: int| 0 <= k < cols@.len() ==> cols@[k].name@ != name@,
        },
{
    let mut i: usize = 0;
    while i < cols.len()
        invariant
            i <= cols@.len(),
            forall|k: int| 0 <= k < i ==> cols@[k].name@ != name@,
        decreases cols@.len() - i,
    {
        if str_eq(cols[i].name.as_str(), name) {
            return Some(i);
        }
        i += 1;
    }
    None
}

proof fn lemma_name_index_found(m: Seq<ColModel>, n: Seq<char>, i: int)
    requires
        names_unique(m),
        0 <= i < m.len(),
        m[i].0 == n,
    ensures
        name_index(m, n) == i,
{
    let j = name_index(m, n);
    assert(0 <= j < m.len() && m[j].0 == n);
    if j < i {
        assert(m[j].0 != m[i].0);
    } else if i < j {
        assert(m[i].0 != m[j].0);
    }
}

proof fn lemma_name_index_absent(m: Seq<ColModel>, n: Seq<char>)
    requires
        forall|k: int| 0 <= k < m.len() ==> m[k].0 != n,
    ensures
        name_index(m, n) == -1,
{
}

proof fn lemma_add_columns_none(cols: Seq<ColumnSchema>, renames: Seq<(String, String)>, s: bool)
    ensures
        add_columns(None, cols, renames, s) is None,
    decreases cols.len(),
{
    if cols.len() > 0 {
        lemma_add_columns_none(cols.drop_last(), renames, s);
    }
}

proof fn lemma_unify_none_extends(
    schemas: Seq<Vec<ColumnSchema>>,
    k: int,
    renames: Seq<(String, String)>,
    s: bool,
)
    requires
        0 <= k <= schemas.len(),
        unify(schemas.subrange(0, k), renames, s) is None,
    ensures
        unify(schemas, renames, s) is None,
    decreases schemas.len(),
{
    if k == schemas.len() {
        assert(schemas.subrange(0, k) =~= schemas);
    } else {
        assert(schemas.drop_last().subrange(0, k) =~= schemas.subrange(0, k));
        lemma_unify_none_extends(schemas.drop_last(), k, renames, s);
        lemma_add_columns_none(schemas.last()@, renames, s);
    }
}

proof fn lemma_add_column_unique(m: Seq<ColModel>, n: Seq<char>, t: TypeKind, s: bool)
    requires
        names_unique(m),
        add_column(m, n, t, s) is Some,
    ensures
        names_unique(add_column(m, n, t, s)->Some_0),
{
    let r = add_column(m, n, t, s)->Some_0;
    let i = name_index(m, n);
    if i >= 0 {
        assert(m[i].0 == n);
        assert forall|a: int, b: int| 0 <= a < b < r.len() implies r[a].0 != r[b].0 by {
            assert(r[a].0 == m[a].0);
            assert(r[b].0 == m[b].0);
        }
    } else {
        assert forall|a: int, b: int| 0 <= a < b < r.len() implies r[a].0 != r[b].0 by {
            if b == m.len() {
                assert(r[a].0 == m[a].0);
            }
        }
    }
}

proof fn lemma_add_column_covers(
    m: Seq<ColModel>,
    n: Seq<char>,
    t: TypeKind,
    s: bool,
    n2: Seq<char>,
    t2: TypeKind,
)
    requires
        names_unique(m),
        add_column(m, n, t, s) is Some,
        covers(m, n2, t2, s) || (n2 == n && t2 == t),
    ensures
        covers(add_column(m, n, t, s)->Some_0, n2, t2, s),
{
    let r = add_column(m, n, t, s)->Some_0;
    let i = name_index(m, n);
    lemma_widen_idempotent(t, s);
    if i >= 0 {
        assert(m[i].0 == n);
        let w = widen(m[i].1, t, s)->Some_0;
        assert(r[i] == (n, w));
        if n2 == n {
            if covers(m, n2, t2, s) {
                let k = choose|k: int| 0 <= k < m.len() && m[k].0 == n2 && subsumed(t2, m[k].1, s);
                lemma_name_index_found(m, n, k);
                // t2 ⊑ m[i].1, so t2 ⊑ widen(m[i].1, t)
                lemma_widen_associative(t2, m[i].1, t, s);
            } else {
                // t ⊑ widen(m[i].1, t)
                lemma_widen_commutative(m[i].1, t, s);
                lemma_widen_associative(t, t, m[i].1, s);
                lemma_widen_commutative(t, w, s);
                lemma_widen_associative(t, m[i].1, t, s);
            }
            assert(subsumed(t2, r[i].1, s));
        } else {
            let k = choose|k: int| 0 <= k < m.len() && m[k].0 == n2 && subsumed(t2, m[k].1, s);
            assert(r[k] == m[k]);
        }
    } else {
        if covers(m, n2, t2, s) {
            let k = choose|k: int| 0 <= k < m.len() && m[k].0 == n2 && subsumed(t2, m[k].1, s);
            assert(r[k] == m[k]);
        } else {
            assert(r[m.len() as int] == (n, t));
        }
    }
}

/// Everything covered before merging an input stays covered, and each of the
/// input's columns is covered after it.
proof fn lemma_add_columns_covers(
    m: Seq<ColModel>,
    cols: Seq<ColumnSchema>,
    renames: Seq<(String, String)>,
    s: bool,
)
    requires
        names_unique(m),
        add_columns(Some(m), cols, renames, s) is Some,
    ensures
        names_unique(add_columns(Some(m), cols, renames, s)->Some_0),
        forall|n2: Seq<char>, t2: TypeKind|
            covers(m, n2, t2, s) ==> covers(
                #[trigger] add_columns(Some(m), cols, renames, s)->Some_0,
                n2,
                t2,
                s,
            ),
        forall|j: int|
            0 <= j < cols.len() ==> covers(
                add_columns(Some(m), cols, renames, s)->Some_0,
                rename_of(renames, #[trigger] cols[j].name@),
                cols[j].dtype,
                s,
            ),
    decreases cols.len(),
{
    if cols.len() > 0 {
        let prev = add_columns(Some(m), cols.drop_last(), renames, s);
        if prev is None {
            lemma_add_columns_none(cols.drop_last(), renames, s);
        }
        lemma_add_columns_covers(m, cols.drop_last(), renames, s);
        let pm = prev->Some_0;
        let n = rename_of(renames, cols.last().name@);
        let t = cols.last().dtype;
        lemma_add_column_unique(pm, n, t, s);
        assert forall|n2: Seq<char>, t2: TypeKind|
            covers(pm, n2, t2, s) || (n2 == n && t2 == t) implies covers(
            add_column(pm, n, t, s)->Some_0,
            n2,
            t2,
            s,
        ) by {
            lemma_add_column_covers(pm, n, t, s, n2, t2);
        }
        assert forall|j: int| 0 <= j < cols.len() implies covers(
            add_columns(Some(m), cols, renames, s)->Some_0,
            rename_of(renames, #[trigger] cols[j].name@),
            cols[j].dtype,
            s,
        ) by {
            if j < cols.len() - 1 {
                assert(cols.drop_last()[j] == cols[j]);
                assert(covers(pm, rename_of(renames, cols[j].name@), cols[j].dtype, s));
            }
            lemma_add_column_covers(pm, n, t, s, rename_of(renames, cols[j].name@), cols[j].dtype);
        }
    }
}

proof fn lemma_unify_unique(schemas: Seq<Vec<ColumnSchema>>, renames: Seq<(String, String)>, s: bool)
    requires
        unify(schemas, renames, s) is Some,
    ensures
        names_unique(unify(schemas, renames, s)->Some_0),
    decreases schemas.len(),
{
    if schemas.len() > 0 {
        let prev = unify(schemas.drop_last(), renames, s);
        if prev is None {
            lemma_add_columns_none(schemas.last()@, renames, s);
        }
        lemma_unify_unique(schemas.drop_last(), renames, s);
        lemma_add_columns_covers(prev->Some_0, schemas.last()@, renames, s);
    }
}

/// Schema containment: when unification succeeds, every column of every
/// input, under its renamed name, is present in the unified schema with a
/// type into which the column's own type widens.
pub proof fn lemma_schema_containment(
    schemas: Seq<Vec<ColumnSchema>>,
    renames: Seq<(String, String)>,
    s: bool,
    i: int,
    j: int,
)
    requires
        unify(schemas, renames, s) is Some,
        0 <= i < schemas.len(),
        0 <= j < schemas[i]@.len(),
    ensures
        covers(
            unify(schemas, renames, s)->Some_0,
            rename_of(renames, schemas[i]@[j].name@),
            schemas[i]@[j].dtype,
            s,
        ),
    decreases schemas.len(),
{
    let prev = unify(schemas.drop_last(), renames, s);
    if prev is None {
        lemma_add_columns_none(schemas.last()@, renames, s);
    }
    lemma_unify_unique(schemas.drop_last(), renames, s);
    lemma_add_columns_covers(prev->Some_0, schemas.last()@, renames, s);
    if i < schemas.len() - 1 {
        lemma_schema_containment(schemas.drop_last(), renames, s, i, j);
        assert(schemas.drop_last()[i] == schemas[i]);
    } else {
        let c = schemas.last()@;
        assert(covers(
            unify(schemas, renames, s)->Some_0,
            rename_of(renames, c[j].name@),
            c[j].dtype,
            s,
        ));
    }
}

pub(crate) fn rename_column(renames: &Vec<(String, String)>, name: &str) -> (r: String)
    ensures
        r@ == rename_of(renames@, name@),
{
    let mut i: usize = 0;
    assert(renames@.subrange(0, renames@.len() as int) =~= renames@);
    while i < renames.len()
        invariant
            i <= renames@.len(),
            rename_of(renames@, name@) == rename_of(renames@.subrange(i as int, renames@.len() as int), name@),
        decreases renames@.len() - i,
    {
        let ghost rest = renames@.subrange(i as int, renames@.len() as int);
        assert(rest.drop_first() =~= renames@.subrange(i + 1, renames@.len() as int));
        if str_eq(renames[i].0.as_str(), name) {
            return renames[i].1.clone();
        }
        i += 1;
    }
    assert(renames@.subrange(i as int, renames@.len() as int).len() == 0);
    name.to_owned()
}

impl UnifiedSchema {
    pub open spec fn model(&self) -> Seq<ColModel> {
        cols_model(self.columns@)
    }

    /// An empty schema with no renames.
    pub fn new() -> (r: Self)
        ensures
            r.columns@.len() == 0,
            r.column_mapping@.len() == 0,
    {
        UnifiedSchema { columns: Vec::new(), column_mapping: Vec::new() }
    }

    /// Unifies the inputs' schemas, walked in order, after applying the rename
    /// pairs: columns keep the order of their first appearance and each type
    /// is the widening of all the types seen under that name. Every unified
    /// column is nullable.
    pub fn from_schemas(
        schemas: &Vec<Vec<ColumnSchema>>,
        renames: Vec<(String, String)>,
        stringify_conflicts: bool,
    ) -> (r: Result<Self, MawError>)
        ensures
            match unify(schemas@, renames@, stringify_conflicts) {
                Some(m) => r is Ok && r->Ok_0.model() == m && names_unique(m) && r->Ok_0.column_mapping@ == renames@
                    && forall|k: int|
                    0 <= k < r->Ok_0.columns@.len() ==> #[trigger] r->Ok_0.columns@[k].nullable,
                None => r is Err && r->Err_0 is SchemaConflict,
            },
    {
        let mut acc: Vec<ColumnSchema> = Vec::new();
        let mut i: usize = 0;
        assert(schemas@.subrange(0, 0) =~= Seq::<Vec<ColumnSchema>>::empty());
        assert(cols_model(acc@) =~= Seq::<ColModel>::empty());
        while i < schemas.len()
            invariant
                i <= schemas@.len(),
                unify(schemas@.subrange(0, i as int), renames@, stringify_conflicts) == Some(
                    cols_model(acc@),
                ),
                names_unique(cols_model(acc@)),
                forall|k: int| 0 <= k < acc@.len() ==> #[trigger] acc@[k].nullable,
            decreases schemas@.len() - i,
        {
            let cols = &schemas[i];
            let ghost start = cols_model(acc@);
            assert(schemas@.subrange(0, i + 1).drop_last() =~= schemas@.subrange(0, i as int));
            assert(schemas@.subrange(0, i + 1).last() == schemas@[i as int]);
            let mut j: usize = 0;
            assert(cols@.subrange(0, 0) =~= Seq::<ColumnSchema>::empty());
            while j < cols.len()
                invariant
                    i < schemas@.len(),
                    cols == &schemas@[i as int],
                    j <= cols@.len(),
                    unify(schemas@.subrange(0, i as int), renames@, stringify_conflicts) == Some(start),
                    add_columns(Some(start), cols@.subrange(0, j as int), renames@, stringify_conflicts)
                        == Some(cols_model(acc@)),
                    names_unique(cols_model(acc@)),
                    forall|k: int| 0 <= k < acc@.len() ==> #[trigger] acc@[k].nullable,
                decreases cols@.len() - j,
            {
                let ghost before = cols_model(acc@);
                let ghost pre = cols@.subrange(0, j as int);
                assert(cols@.subrange(0, j + 1).drop_last() =~= pre);
                assert(cols@.subrange(0, j + 1).last() == cols@[j as int]);
                let name = rename_column(&renames, cols[j].name.as_str());
                let t = cols[j].dtype;
                match find_column(&acc, name.as_str()) {
                    Some(k) => {
                        proof {
                            lemma_name_index_found(before, name@, k as int);
                        }
                        let w = widen_types(&acc[k].dtype, &t, stringify_conflicts);
                        match w {
                            Ok(w) => {
                                proof {
                                    lemma_add_column_unique(before, name@, t, stringify_conflicts);
                                }
                                acc.set(k, ColumnSchema { name, dtype: w, nullable: true });
                                assert(cols_model(acc@) =~= before.update(k as int, (name@, w)));
                            },
                            Err(e) => {
                                proof {
                                    lemma_add_columns_none(
                                        cols@.subrange(j + 1, cols@.len() as int),
                                        renames@,
                                        stringify_conflicts,
                                    );
                                    lemma_add_columns_split(
                                        Some(start),
                                        cols@,
                                        j + 1,
                                        renames@,
                                        stringify_conflicts,
                                    );
                                    assert(cols@.subrange(0, cols@.len() as int) =~= cols@);
                                    assert(schemas@.subrange(0, i + 1).drop_last() =~= schemas@.subrange(0, i as int));
                                    assert(schemas@.subrange(0, i + 1).last() == schemas@[i as int]);
                                    lemma_unify_none_extends(
                                        schemas@,
                                        i + 1,
                                        renames@,
                                        stringify_conflicts,
                                    );
                                }
                                return Err(e);
                            },
                        }
                    },
                    None => {
                        proof {
                            lemma_name_index_absent(before, name@);
                            lemma_add_column_unique(before, name@, t, stringify_conflicts);
                        }
                        acc.push(ColumnSchema { name, dtype: t, nullable: true });
                        assert(cols_model(acc@) =~= before.push((name@, t)));
                    },
                }
                j += 1;
            }
            assert(cols@.subrange(0, cols@.len() as int) =~= cols@);
            i += 1;
        }
        assert(schemas@.subrange(0, schemas@.len() as int) =~= schemas@);
        proof {
            lemma_unify_unique(schemas@, renames@, stringify_conflicts);
        }
        Ok(UnifiedSchema { columns: acc, column_mapping: renames })
    }

    /// The type of the unified column named `column`, if there is one.
    pub fn get_column_type(&self, column: &str) -> (r: Option<TypeKind>)
        ensures
            match r {
                Some(t) => exists|k: int|
                    0 <= k < self.columns@.len() && self.columns@[k].name@ == column@
                        && self.columns@[k].dtype == t,
                None => forall|k: int|
                    0 <= k < self.columns@.len() ==> self.columns@[k].name@ != column@,
            },
    {
        match find_column(&self.columns, column) {
            Some(k) => Some(self.columns[k].dtype),
            None => None,
        }
    }

    /// The unified name of a source column under the rename pairs.
    pub fn get_unified_column_name(&self, original: &str) -> (r: String)
        ensures
            r@ == rename_of(self.column_mapping@, original@),
    {
        rename_column(&self.column_mapping, original)
    }
}

/// Merging a prefix of an input and then the rest is merging the whole input.
proof fn lemma_add_columns_split(
    acc: Option<Seq<ColModel>>,
    cols: Seq<ColumnSchema>,
    k: int,
    renames: Seq<(String, String)>,
    s: bool,
)
    requires
        0 <= k <= cols.len(),
        add_columns(acc, cols.subrange(0, k), renames, s) is None,
    ensures
        add_columns(acc, cols, renames, s) is None,
    decreases cols.len(),
{
    if k == cols.len() {
        assert(cols.subrange(0, k) =~= cols);
    } else {
        assert(cols.drop_last().subrange(0, k) =~= cols.subrange(0, k));
        lemma_add_columns_split(acc, cols.drop_last(), k, renames, s);
    }
}

/// Columns in alphabetical order of their names (by code point).
pub open spec fn sorted_by_name(s: Seq<ColumnSchema>) -> bool {
    forall|i: int, j: int| 0 <= i < j < s.len() ==> !lex_lt(s[j].name@, s[i].name@)
}

fn insert_by_name(out: &mut Vec<ColumnSchema>, e: ColumnSchema)
    requires
        sorted_by_name(old(out)@),
    ensures
        sorted_by_name(final(out)@),
        exists|k: int| 0 <= k <= old(out)@.len() && final(out)@ == old(out)@.insert(k, e),
{
    let ghost old_out = out@;
    let mut k: usize = 0;
    while k < out.len() && !path_lt(e.name.as_str(), out[k].name.as_str())
        invariant
            k <= out@.len(),
            out@ == old_out,
            forall|j: int| 0 <= j < k ==> !lex_lt(e.name@, out@[j].name@),
        decreases out@.len() - k,
    {
        k += 1;
    }
    out.insert(k, e);
    assert forall|a: int, b: int| 0 <= a < b < out@.len() implies !lex_lt(out@[b].name@, out@[a].name@) by {
        if b == k {
            assert(out@[a] == old_out[a]);
        } else if a == k {
            // e < old_out[k] <= old_out[b - 1]
            assert(out@[b] == old_out[b - 1]);
            assert(lex_lt(e.name@, old_out[k as int].name@));
            if b - 1 > k {
                if old_out[k as int].name@ != old_out[b - 1].name@ {
                    lemma_lex_total(old_out[k as int].name@, old_out[b - 1].name@);
                    lemma_lex_transitive(e.name@, old_out[k as int].name@, old_out[b - 1].name@);
                }
            }
            if lex_lt(out@[b].name@, e.name@) {
                if b - 1 > k && old_out[k as int].name@ != old_out[b - 1].name@ {
                    lemma_lex_transitive(out@[b].name@, e.name@, old_out[k as int].name@);
                } else {
                    lemma_lex_transitive(out@[b].name@, e.name@, old_out[k as int].name@);
                }
                crate::discover::lemma_lex_irreflexive(out@[b].name@);
            }
        } else if a < k && b > k {
            assert(out@[a] == old_out[a]);
            assert(out@[b] == old_out[b - 1]);
        } else if a > k {
            assert(out@[a] == old_out[a - 1]);
            assert(out@[b] == old_out[b - 1]);
        } else {
            assert(out@[a] == old_out[a]);
            assert(out@[b] == old_out[b]);
        }
    }
}

/// Sorts columns alphabetically by name; the columns themselves are kept.
pub fn sort_columns(cols: Vec<ColumnSchema>) -> (r: Vec<ColumnSchema>)
    ensures
        sorted_by_name(r@),
        r@.to_multiset() == cols@.to_multiset(),
{
    let ghost orig = cols@;
    let mut rest = cols;
    let mut out: Vec<ColumnSchema> = Vec::new();
    assert(orig.subrange(0, orig.len() as int) =~= orig);
    proof {
        out@.to_multiset_ensures();
        vstd::multiset::lemma_multiset_empty_len(out@.to_multiset());
        assert(out@.to_multiset().add(orig.to_multiset()) =~= orig.to_multiset());
    }
    while rest.len() > 0
        invariant
            rest@ == orig.subrange(0, rest@.len() as int),
            rest@.len() <= orig.len(),
            sorted_by_name(out@),
            out@.to_multiset().add(rest@.to_multiset()) == orig.to_multiset(),
        decreases rest@.len(),
    {
        let ghost before_rest = rest@;
        let ghost before_out = out@;
        let e = rest.pop().unwrap();
        insert_by_name(&mut out, e);
        proof {
            let k = choose|k: int| 0 <= k <= before_out.len() && out@ == before_out.insert(k, e);
            assert(before_rest =~= rest@.push(e));
            vstd::seq_lib::to_multiset_insert(before_out, k, e);
            rest@.to_multiset_ensures();
            assert(out@.to_multiset() =~= before_out.to_multiset().insert(e));
            assert(before_rest.to_multiset() =~= rest@.to_multiset().insert(e));
        }
    }
    proof {
        assert(rest@ =~= Seq::<ColumnSchema>::empty());
        rest@.to_multiset_ensures();
        vstd::multiset::lemma_multiset_empty_len(rest@.to_multiset());
        assert(rest@.to_multiset() =~= vstd::multiset::Multiset::<ColumnSchema>::empty());
        assert(out@.to_multiset().add(rest@.to_multiset()) =~= out@.to_multiset());
    }
    out
}

} // verus!
