use maw::error::MawError;
use maw::schema::{sort_columns, widen_types, ColumnSchema, TypeKind, UnifiedSchema};

fn col(name: &str, dtype: TypeKind) -> ColumnSchema {
    ColumnSchema { name: name.to_string(), dtype, nullable: true }
}

const ALL: [TypeKind; 12] = [
    TypeKind::Null,
    TypeKind::Bool,
    TypeKind::I8,
    TypeKind::I16,
    TypeKind::I32,
    TypeKind::I64,
    TypeKind::F32,
    TypeKind::F64,
    TypeKind::Utf8,
    TypeKind::Date,
    TypeKind::Datetime,
    TypeKind::Binary,
];

#[test]
fn test_type_widening() {
    assert_eq!(widen_types(&TypeKind::Null, &TypeKind::I32, false).unwrap(), TypeKind::I32);
    assert_eq!(widen_types(&TypeKind::I32, &TypeKind::Null, false).unwrap(), TypeKind::I32);
    assert_eq!(widen_types(&TypeKind::I32, &TypeKind::I64, false).unwrap(), TypeKind::I64);
    assert_eq!(widen_types(&TypeKind::I32, &TypeKind::F64, false).unwrap(), TypeKind::F64);
    assert_eq!(widen_types(&TypeKind::Bool, &TypeKind::I32, false).unwrap(), TypeKind::I32);
    assert_eq!(widen_types(&TypeKind::Date, &TypeKind::Datetime, false).unwrap(), TypeKind::Datetime);
}

#[test]
fn test_stringify_conflicts() {
    assert_eq!(widen_types(&TypeKind::I32, &TypeKind::Utf8, true).unwrap(), TypeKind::Utf8);
    assert!(widen_types(&TypeKind::I32, &TypeKind::Utf8, false).is_err());
}

#[test]
fn mixed_int_float_table() {
    assert_eq!(widen_types(&TypeKind::I8, &TypeKind::F32, false).unwrap(), TypeKind::F32);
    assert_eq!(widen_types(&TypeKind::I16, &TypeKind::F32, false).unwrap(), TypeKind::F32);
    assert_eq!(widen_types(&TypeKind::I32, &TypeKind::F32, false).unwrap(), TypeKind::F32);
    assert_eq!(widen_types(&TypeKind::I64, &TypeKind::F32, false).unwrap(), TypeKind::F64);
    assert_eq!(widen_types(&TypeKind::F32, &TypeKind::F64, false).unwrap(), TypeKind::F64);
    assert_eq!(widen_types(&TypeKind::Bool, &TypeKind::F32, false).unwrap(), TypeKind::F32);
}

#[test]
fn conflict_is_schema_conflict() {
    let e = widen_types(&TypeKind::Date, &TypeKind::I64, false).unwrap_err();
    assert!(matches!(e, MawError::SchemaConflict(_)));
    assert_eq!(e.exit_code(), 2);
    assert_eq!(widen_types(&TypeKind::Date, &TypeKind::I64, true).unwrap(), TypeKind::Utf8);
    assert_eq!(widen_types(&TypeKind::Binary, &TypeKind::Binary, false).unwrap(), TypeKind::Binary);
}

#[test]
fn lattice_laws_on_every_pair() {
    for s in [false, true] {
        for a in ALL {
            assert_eq!(widen_types(&a, &a, s).unwrap(), a);
            assert_eq!(widen_types(&TypeKind::Null, &a, s).unwrap(), a);
            for b in ALL {
                assert_eq!(widen_types(&a, &b, s).ok(), widen_types(&b, &a, s).ok());
                for c in ALL {
                    let left = widen_types(&a, &b, s).ok().and_then(|ab| widen_types(&ab, &c, s).ok());
                    let right = widen_types(&b, &c, s).ok().and_then(|bc| widen_types(&a, &bc, s).ok());
                    assert_eq!(left, right);
                }
            }
        }
    }
}

#[test]
fn unify_widens_int_to_float() {
    let schemas = vec![vec![col("age", TypeKind::I64)], vec![col("age", TypeKind::F64)]];
    let u = UnifiedSchema::from_schemas(&schemas, vec![], false).unwrap();
    assert_eq!(u.columns, vec![col("age", TypeKind::F64)]);
    assert_eq!(u.get_column_type("age"), Some(TypeKind::F64));
    assert_eq!(u.get_column_type("name"), None);
}

#[test]
fn unify_keeps_first_appearance_order() {
    let schemas = vec![
        vec![col("name", TypeKind::Utf8), col("age", TypeKind::I64)],
        vec![col("age", TypeKind::I64), col("name", TypeKind::Utf8)],
    ];
    let u = UnifiedSchema::from_schemas(&schemas, vec![], false).unwrap();
    let names: Vec<&str> = u.columns.iter().map(|c| c.name.as_str()).collect();
    assert_eq!(names, vec!["name", "age"]);
}

#[test]
fn unify_applies_renames() {
    let schemas = vec![vec![col("a", TypeKind::I32)], vec![col("b", TypeKind::I64), col("c", TypeKind::Bool)]];
    let renames = vec![("b".to_string(), "a".to_string())];
    let u = UnifiedSchema::from_schemas(&schemas, renames, false).unwrap();
    assert_eq!(u.columns, vec![col("a", TypeKind::I64), col("c", TypeKind::Bool)]);
    assert_eq!(u.get_unified_column_name("b"), "a");
    assert_eq!(u.get_unified_column_name("c"), "c");
}

#[test]
fn unify_conflict_and_stringify() {
    let schemas = vec![vec![col("x", TypeKind::I64)], vec![col("x", TypeKind::Utf8)]];
    let e = UnifiedSchema::from_schemas(&schemas, vec![], false).unwrap_err();
    assert!(matches!(e, MawError::SchemaConflict(_)));
    let u = UnifiedSchema::from_schemas(&schemas, vec![], true).unwrap();
    assert_eq!(u.columns, vec![col("x", TypeKind::Utf8)]);
}

#[test]
fn every_input_type_is_contained() {
    let schemas = vec![
        vec![col("a", TypeKind::I8), col("b", TypeKind::Null)],
        vec![col("a", TypeKind::F32), col("b", TypeKind::Date)],
        vec![col("b", TypeKind::Datetime), col("a", TypeKind::I16)],
    ];
    let u = UnifiedSchema::from_schemas(&schemas, vec![], false).unwrap();
    for s in &schemas {
        for c in s {
            let t = u.get_column_type(&c.name).unwrap();
            assert_eq!(widen_types(&c.dtype, &t, false).unwrap(), t);
        }
    }
    assert_eq!(u.get_column_type("a"), Some(TypeKind::F32));
    assert_eq!(u.get_column_type("b"), Some(TypeKind::Datetime));
}

#[test]
fn empty_inputs_unify_to_empty_schema() {
    let u = UnifiedSchema::from_schemas(&vec![], vec![], false).unwrap();
    assert!(u.columns.is_empty());
    assert!(UnifiedSchema::new().columns.is_empty());
}

#[test]
fn reorder_sorts_columns_by_name() {
    let cols = vec![col("b", TypeKind::I64), col("a", TypeKind::Utf8), col("C", TypeKind::Bool), col("aa", TypeKind::F64)];
    let sorted = sort_columns(cols);
    let names: Vec<&str> = sorted.iter().map(|c| c.name.as_str()).collect();
    assert_eq!(names, vec!["C", "a", "aa", "b"]);
    assert_eq!(sorted[1], col("a", TypeKind::Utf8));
}
