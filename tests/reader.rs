use maw::encoding::{decode_field, encoding_from_label, TextEncoding};
use maw::error::MawError;
use maw::reader::{
    batch_boundaries, header_names, infer_column_type, records_to_batch, shape_record, synthetic_headers,
    CsvConfig, RecordCursor, RecordStep,
};
use maw::schema::{ColumnSchema, TypeKind};
use maw::value::Value;

fn read_rows(data: &str, has_headers: bool) -> (Vec<String>, Vec<Vec<Option<String>>>) {
    let config = CsvConfig::default();
    let mut rdr = csv::ReaderBuilder::new().has_headers(false).from_reader(data.as_bytes());
    let mut cursor = RecordCursor::new(has_headers, true, config.batch_size);
    let mut headers: Option<Vec<String>> = None;
    let mut raw = Vec::new();
    for rec in rdr.records() {
        let fields: Vec<String> = rec.unwrap().iter().map(|f| f.to_string()).collect();
        let step = cursor.next();
        if headers.is_none() {
            headers = Some(header_names(&fields, has_headers));
        }
        if !step.is_header {
            raw.push(fields);
        }
    }
    let headers = headers.unwrap_or_default();
    let rows = raw.iter().map(|f| shape_record(f, headers.len(), &config.na_values).0).collect();
    (headers, rows)
}

fn schema_of(headers: &[String], rows: &Vec<Vec<Option<String>>>) -> Vec<ColumnSchema> {
    (0..headers.len())
        .map(|c| ColumnSchema { name: headers[c].clone(), dtype: infer_column_type(rows, c), nullable: true })
        .collect()
}

#[test]
fn test_csv_reader() {
    let (headers, rows) = read_rows("a,b,c\n1,2,3\n4,5,6\n", true);
    let schema = schema_of(&headers, &rows);
    let batch = records_to_batch(&rows, &schema).unwrap();
    assert_eq!(batch.num_rows(), 2);
    assert_eq!(batch.num_columns(), 3);
}

#[test]
fn test_csv_without_headers() {
    let (headers, rows) = read_rows("1,2,3\n4,5,6\n", false);
    let schema = schema_of(&headers, &rows);
    let batch = records_to_batch(&rows, &schema).unwrap();
    assert_eq!(batch.num_rows(), 2);
    assert_eq!(batch.num_columns(), 3);

    assert_eq!(headers[0], "col_1");
    assert_eq!(headers[1], "col_2");
    assert_eq!(headers[2], "col_3");
}

#[test]
fn inferred_types_follow_parse_order() {
    let rows = vec![
        vec![Some("true".to_string()), Some("1".to_string()), Some("1.5".to_string()), Some("x".to_string()), None],
        vec![Some("false".to_string()), Some("-7".to_string()), Some("2".to_string()), Some("3".to_string()), None],
    ];
    assert_eq!(infer_column_type(&rows, 0), TypeKind::Bool);
    assert_eq!(infer_column_type(&rows, 1), TypeKind::I64);
    assert_eq!(infer_column_type(&rows, 2), TypeKind::F64);
    assert_eq!(infer_column_type(&rows, 3), TypeKind::Utf8);
    assert_eq!(infer_column_type(&rows, 4), TypeKind::Null);
    let temporal = vec![
        vec![Some("2024-01-01".to_string()), Some("2024-01-01 10:00:00".to_string())],
        vec![Some("1999-12-31".to_string()), Some("2024-01-01T10:00:00Z".to_string())],
    ];
    assert_eq!(infer_column_type(&temporal, 0), TypeKind::Date);
    assert_eq!(infer_column_type(&temporal, 1), TypeKind::Datetime);
}

#[test]
fn short_records_extend_long_records_cut() {
    let na = CsvConfig::default().na_values;
    let fields = vec!["1".to_string(), "NA".to_string()];
    let (shaped, cut) = shape_record(&fields, 3, &na);
    assert_eq!(shaped, vec![Some("1".to_string()), None, None]);
    assert!(!cut);
    let fields = vec!["1".to_string(), "2".to_string(), "3".to_string(), "".to_string()];
    let (shaped, cut) = shape_record(&fields, 2, &na);
    assert_eq!(shaped, vec![Some("1".to_string()), Some("2".to_string())]);
    assert!(cut);
}

#[test]
fn unparseable_value_is_bad_record() {
    let schema = vec![ColumnSchema { name: "x".to_string(), dtype: TypeKind::I64, nullable: true }];
    let rows = vec![vec![Some("1".to_string())], vec![Some("abc".to_string())]];
    let e = records_to_batch(&rows, &schema).unwrap_err();
    assert!(matches!(e, MawError::BadRecord(_)));
    assert_eq!(e.exit_code(), 2);
    let good = vec![vec![Some("1".to_string())], vec![None]];
    let b = records_to_batch(&good, &schema).unwrap();
    assert_eq!(b.columns[0], vec![Value::Int(1), Value::Null]);
}

#[test]
fn published_offsets_increase() {
    let ends = vec![6, 12, 18, 25, 31];
    assert_eq!(batch_boundaries(&ends, 2), vec![12, 25, 31]);
    assert_eq!(batch_boundaries(&ends, 5), vec![31]);
    assert_eq!(batch_boundaries(&vec![], 3), Vec::<u64>::new());
}

#[test]
fn decoding_strips_bom_and_reads_latin1() {
    let with_bom = [0xEF, 0xBB, 0xBF, b'a'];
    assert_eq!(decode_field(&with_bom, TextEncoding::Utf8, true).unwrap(), "a");
    assert_eq!(decode_field(&with_bom, TextEncoding::Utf8, false).unwrap(), "\u{feff}a");
    assert_eq!(decode_field(&[0x63, 0x61, 0x66, 0xE9], TextEncoding::Latin1, false).unwrap(), "caf\u{e9}");
    let e = decode_field(&[0xFF, 0xFE], TextEncoding::Utf8, false).unwrap_err();
    assert!(matches!(e, MawError::Encoding(_)));
    assert_eq!(encoding_from_label("LATIN1"), TextEncoding::Latin1);
    assert_eq!(encoding_from_label("iso-8859-1"), TextEncoding::Latin1);
    assert_eq!(encoding_from_label("utf-8"), TextEncoding::Utf8);
}

#[test]
fn record_cursor_steps() {
    let mut c = RecordCursor::new(true, true, 2);
    assert_eq!(c.next(), RecordStep { strip_bom: true, is_header: true, batch_full: false });
    assert_eq!(c.next(), RecordStep { strip_bom: false, is_header: false, batch_full: false });
    assert_eq!(c.next(), RecordStep { strip_bom: false, is_header: false, batch_full: true });
    assert_eq!(c.next(), RecordStep { strip_bom: false, is_header: false, batch_full: false });
    let mut resumed = RecordCursor::new(true, false, 1);
    assert_eq!(resumed.next(), RecordStep { strip_bom: false, is_header: false, batch_full: true });
    let mut plain = RecordCursor::new(false, true, 5);
    assert_eq!(plain.next(), RecordStep { strip_bom: true, is_header: false, batch_full: false });
    assert_eq!(synthetic_headers(2), vec!["col_1", "col_2"]);
}
