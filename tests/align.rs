use maw::align::BatchAligner;
use maw::batch::Batch;
use maw::error::MawError;
use maw::schema::{ColumnSchema, TypeKind, UnifiedSchema};
use maw::value::Value;

fn col(name: &str, dtype: TypeKind) -> ColumnSchema {
    ColumnSchema { name: name.to_string(), dtype, nullable: true }
}

fn sample_batch() -> Batch {
    Batch {
        schema: vec![col("a", TypeKind::I64), col("b", TypeKind::Utf8)],
        columns: vec![
            vec![Value::Int(1), Value::Int(2), Value::Int(3)],
            vec![Value::Text("x".to_string()), Value::Text("y".to_string()), Value::Text("z".to_string())],
        ],
        num_rows: 3,
    }
}

#[test]
fn test_batch_alignment() {
    let batch = sample_batch();
    let aligner = BatchAligner::new(UnifiedSchema::new(), None, None, false);
    let aligned = aligner.align_batch(&batch).unwrap();
    assert_eq!(aligned.batch.num_rows(), 3);
}

#[test]
fn integers_widen_to_float_text() {
    let unified = UnifiedSchema { columns: vec![col("a", TypeKind::F64)], column_mapping: vec![] };
    let aligner = BatchAligner::new(unified, None, None, false);
    let aligned = aligner.align_batch(&sample_batch()).unwrap();
    assert_eq!(
        aligned.batch.columns[0],
        vec![Value::Float("1.0".to_string()), Value::Float("2.0".to_string()), Value::Float("3.0".to_string())]
    );
    assert_eq!(aligned.coercion_loss, 0);
}

#[test]
fn missing_columns_fill_with_nulls_and_projection_applies() {
    let unified = UnifiedSchema {
        columns: vec![col("b", TypeKind::Utf8), col("c", TypeKind::I64), col("a", TypeKind::I64)],
        column_mapping: vec![],
    };
    let aligner = BatchAligner::new(unified, None, Some(vec!["a".to_string()]), false);
    let aligned = aligner.align_batch(&sample_batch()).unwrap();
    let names: Vec<&str> = aligned.batch.schema.iter().map(|c| c.name.as_str()).collect();
    assert_eq!(names, vec!["b", "c"]);
    assert_eq!(aligned.batch.columns[1], vec![Value::Null, Value::Null, Value::Null]);
    let only = BatchAligner::new(
        UnifiedSchema { columns: vec![col("a", TypeKind::I64), col("zz", TypeKind::Bool)], column_mapping: vec![] },
        Some(vec!["zz".to_string()]),
        None,
        false,
    );
    let aligned = only.align_batch(&sample_batch()).unwrap();
    assert_eq!(aligned.batch.schema, vec![col("zz", TypeKind::Bool)]);
    assert_eq!(aligned.batch.columns[0], vec![Value::Null, Value::Null, Value::Null]);
}

#[test]
fn renamed_source_and_lossy_coercion() {
    let batch = Batch {
        schema: vec![col("amount", TypeKind::Utf8)],
        columns: vec![vec![Value::Text("12".to_string()), Value::Text("oops".to_string()), Value::Null]],
        num_rows: 3,
    };
    let unified = UnifiedSchema {
        columns: vec![col("total", TypeKind::Utf8)],
        column_mapping: vec![("amount".to_string(), "total".to_string())],
    };
    let aligned = BatchAligner::new(unified, None, None, false).align_batch(&batch).unwrap();
    assert_eq!(
        aligned.batch.columns[0],
        vec![Value::Text("12".to_string()), Value::Text("oops".to_string()), Value::Null]
    );
    let batch_i = Batch {
        schema: vec![col("v", TypeKind::I64)],
        columns: vec![vec![Value::Int(300), Value::Int(-5)]],
        num_rows: 2,
    };
    let narrow = UnifiedSchema { columns: vec![col("v", TypeKind::F32)], column_mapping: vec![] };
    let aligned = BatchAligner::new(narrow, None, None, false).align_batch(&batch_i);
    assert!(matches!(aligned.unwrap_err(), MawError::SchemaConflict(_)));
}

#[test]
fn out_of_range_values_are_counted_as_loss() {
    let batch = Batch {
        schema: vec![col("v", TypeKind::I64)],
        columns: vec![vec![Value::Int(7), Value::Int(i64::MAX)]],
        num_rows: 2,
    };
    let unified = UnifiedSchema { columns: vec![col("v", TypeKind::F64)], column_mapping: vec![] };
    let aligned = BatchAligner::new(unified, None, None, false).align_batch(&batch).unwrap();
    assert_eq!(
        aligned.batch.columns[0],
        vec![Value::Float("7.0".to_string()), Value::Float("9223372036854775808.0".to_string())]
    );
    assert_eq!(aligned.coercion_loss, 0);
    // with conflicts stringified, a narrowing column is coerced and its losses counted
    let wide = Batch {
        schema: vec![col("v", TypeKind::I64)],
        columns: vec![vec![Value::Int(5), Value::Int(1 << 40)]],
        num_rows: 2,
    };
    let narrow = UnifiedSchema { columns: vec![col("v", TypeKind::I32)], column_mapping: vec![] };
    let strict = BatchAligner::new(narrow.clone(), None, None, false).align_batch(&wide);
    assert!(matches!(strict.unwrap_err(), MawError::SchemaConflict(_)));
    let lenient = BatchAligner::new(narrow, None, None, true).align_batch(&wide).unwrap();
    assert_eq!(lenient.batch.columns[0], vec![Value::Int(5), Value::Null]);
    assert_eq!(lenient.coercion_loss, 1);
    let dates = Batch {
        schema: vec![col("d", TypeKind::Date)],
        columns: vec![vec![Value::Date(1), Value::Null]],
        num_rows: 2,
    };
    let unified = UnifiedSchema { columns: vec![col("d", TypeKind::Datetime)], column_mapping: vec![] };
    let aligned = BatchAligner::new(unified, None, None, false).align_batch(&dates).unwrap();
    assert_eq!(aligned.batch.columns[0], vec![Value::Datetime(86_400_000), Value::Null]);
}
