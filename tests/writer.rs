use maw::batch::Batch;
use maw::schema::{ColumnSchema, TypeKind};
use maw::value::{value_text, Value};
use maw::cli::Compression;
use maw::writer::{header_record, row_record, Codec, CsvWriterConfig, ParquetWriterConfig};

fn write_csv(batch: &Batch, config: &CsvWriterConfig) -> String {
    let mut w = csv::WriterBuilder::new().delimiter(config.delimiter).quote(config.quote).from_writer(vec![]);
    w.write_record(&header_record(&batch.schema)).unwrap();
    for row in 0..batch.num_rows {
        w.write_record(&row_record(batch, row, &config.na_string)).unwrap();
    }
    String::from_utf8(w.into_inner().unwrap()).unwrap()
}

#[test]
fn test_csv_writer() {
    let batch = Batch {
        schema: vec![
            ColumnSchema { name: "a".to_string(), dtype: TypeKind::I64, nullable: false },
            ColumnSchema { name: "b".to_string(), dtype: TypeKind::Utf8, nullable: false },
        ],
        columns: vec![
            vec![Value::Int(1), Value::Int(2), Value::Int(3)],
            vec![Value::Text("x".to_string()), Value::Text("y".to_string()), Value::Text("z".to_string())],
        ],
        num_rows: 3,
    };
    let config = CsvWriterConfig::default();
    let content = write_csv(&batch, &config);
    assert!(content.contains("a,b"));
    assert!(content.contains("1,x"));
    assert!(content.contains("2,y"));
    assert!(content.contains("3,z"));
}

#[test]
fn nulls_and_canonical_text() {
    let batch = Batch {
        schema: vec![ColumnSchema { name: "v".to_string(), dtype: TypeKind::Utf8, nullable: true }],
        columns: vec![vec![Value::Null, Value::Bool(true), Value::Int(-42)]],
        num_rows: 3,
    };
    assert_eq!(row_record(&batch, 0, "NA"), vec!["NA"]);
    assert_eq!(row_record(&batch, 1, ""), vec!["true"]);
    assert_eq!(row_record(&batch, 2, ""), vec!["-42"]);
    assert_eq!(value_text(&Value::Date(0)), "1970-01-01");
    assert_eq!(value_text(&Value::Date(19723)), "2024-01-01");
    assert_eq!(value_text(&Value::Date(-1)), "1969-12-31");
    assert_eq!(value_text(&Value::Datetime(1_500)), "1970-01-01T00:00:01.500Z");
    assert_eq!(value_text(&Value::Datetime(-1000)), "1969-12-31T23:59:59Z");
    assert_eq!(value_text(&Value::Binary(vec![0x0f, 0xa0])), "0fa0");
    assert_eq!(value_text(&Value::Int(i64::MIN)), "-9223372036854775808");
}

#[test]
fn columnar_codec_and_row_groups() {
    let mut c = ParquetWriterConfig::default();
    assert_eq!(c.row_group_size, 128 * 1024 * 1024);
    assert_eq!(c.codec(), Codec::Uncompressed);
    c.compression = Compression::Zstd;
    assert_eq!(c.codec(), Codec::Zstd(3));
    c.zstd_level = 19;
    assert_eq!(c.codec(), Codec::Zstd(19));
    c.zstd_level = 25;
    assert_eq!(c.codec(), Codec::Zstd(3));
    c.compression = Compression::Snappy;
    assert_eq!(c.codec(), Codec::Snappy);
    assert!(!c.row_group_full(1000));
    assert!(c.row_group_full(128 * 1024 * 1024));
}
