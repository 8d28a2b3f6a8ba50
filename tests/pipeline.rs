use maw::cli::{determine_output_format, parse_rename, split_list, Cli, Compression, OutputFormat};
use maw::pipeline::Pipeline;
use maw::queue::{BoundedQueue, Residency};
use maw::reader::row_groups_to_read;
use maw::reorder::ReorderBuffer;
use maw::rolling::{shard_path, Piece, Roller};

#[test]
fn test_pipeline_creation() {
    let cli = Cli::new(vec!["test.csv".to_string()]);
    let pipeline = Pipeline::new(cli);
    assert!(pipeline.cli.inputs.len() > 0);
}

#[test]
fn test_output_format_detection() {
    let cli = Cli::new(vec!["test.csv".to_string()]);
    let pipeline = Pipeline::new(cli);

    let format = pipeline.determine_output_format("test.csv");
    assert!(matches!(format, OutputFormat::Csv));

    let format = pipeline.determine_output_format("test.parquet");
    assert!(matches!(format, OutputFormat::Parquet));
}

#[test]
fn asked_format_wins_and_names() {
    assert_eq!(determine_output_format(Some(OutputFormat::Csv), "x.parquet"), OutputFormat::Csv);
    assert_eq!(determine_output_format(None, "out"), OutputFormat::Csv);
    assert_eq!(OutputFormat::Parquet.name(), "parquet");
    assert_eq!(Compression::Uncompressed.name(), "none");
    assert_eq!(Compression::Zstd.name(), "zstd");
}

#[test]
fn option_values_parse() {
    assert_eq!(split_list("NA,null,\\N"), vec!["NA", "null", "\\N"]);
    assert_eq!(split_list("a"), vec!["a"]);
    assert_eq!(split_list("a,,b"), vec!["a", "", "b"]);
    assert_eq!(parse_rename("old=new").unwrap(), ("old".to_string(), "new".to_string()));
    assert_eq!(parse_rename("a=b=c").unwrap(), ("a".to_string(), "b=c".to_string()));
    assert!(parse_rename("nope").is_err());
    assert!(parse_rename("=x").is_err());
    let mut cli = Cli::new(vec!["in.csv".to_string()]);
    assert!(cli.validate().is_ok());
    cli.zstd_level = 20;
    assert_eq!(cli.validate().unwrap_err().exit_code(), 1);
    assert!(Cli::new(vec![]).validate().is_err());
}

#[test]
fn rolling_by_rows_gives_full_shards() {
    // 10,000 rows in batches of 4,000 with shards of 3,000 rows
    let mut roller = Roller::new(Some(3000), None);
    let mut shards: Vec<u64> = vec![0];
    for rows in [4000u64, 4000, 2000] {
        for piece in roller.plan_rows(rows) {
            *shards.last_mut().unwrap() += piece.rows;
            if piece.close_after {
                shards.push(0);
            }
        }
    }
    assert_eq!(shards, vec![3000, 3000, 3000, 1000]);
    assert_eq!(roller.shard_index, 3);
    assert_eq!(roller.rows_in_shard, 1000);
}

#[test]
fn one_large_batch_is_cut_into_shards() {
    let mut roller = Roller::new(Some(3000), None);
    let pieces = roller.plan_rows(10_000);
    assert_eq!(
        pieces,
        vec![
            Piece { rows: 3000, close_after: true },
            Piece { rows: 3000, close_after: true },
            Piece { rows: 3000, close_after: true },
            Piece { rows: 1000, close_after: false },
        ]
    );
    let mut plain = Roller::new(None, None);
    assert_eq!(plain.plan_rows(5), vec![Piece { rows: 5, close_after: false }]);
}

#[test]
fn rolling_by_bytes_closes_after_the_limit() {
    let mut roller = Roller::new(None, Some(100));
    assert_eq!(roller.record_bytes(60), None);
    assert_eq!(roller.record_bytes(60), Some(120));
    assert_eq!(roller.shard_index, 1);
    assert_eq!(roller.record_bytes(100), Some(100));
    assert_eq!(roller.shard_index, 2);
}

#[test]
fn shard_names_are_zero_padded() {
    assert_eq!(shard_path("out.csv", 0), "out.csv.0000");
    assert_eq!(shard_path("out.csv", 42), "out.csv.0042");
    assert_eq!(shard_path("p", 12345), "p.12345");
}

#[test]
fn queue_never_exceeds_capacity() {
    let mut q = BoundedQueue::new(2);
    assert_eq!(q.try_send(1), None);
    assert_eq!(q.try_send(2), None);
    assert_eq!(q.try_send(3), Some(3));
    assert_eq!(q.len(), 2);
    assert!(q.is_full());
    assert_eq!(q.recv(), Some(1));
    assert_eq!(q.try_send(3), None);
    assert_eq!(q.recv(), Some(2));
    assert_eq!(q.recv(), Some(3));
    assert_eq!(q.recv(), None);
}

#[test]
fn residency_stays_bounded() {
    let mut r = Residency::new(2, 1);
    assert!(r.decode());
    assert!(r.decode());
    assert!(!r.decode());
    assert!(r.send());
    assert!(!r.send());
    assert!(r.receive());
    assert!(r.send());
    assert!(r.decode());
    assert_eq!(r.resident_count(), 3);
    assert!(r.written());
    assert!(r.drop_decoded());
    assert_eq!(r.resident_count(), 1);
}

#[test]
fn default_options() {
    let cli = Cli::new(vec!["x.csv".to_string()]);
    assert_eq!(cli.na, "NA,null,\\N");
    assert_eq!(cli.encoding, "utf8");
    assert_eq!(cli.infer_rows, 1000);
    assert_eq!(cli.concurrency, 4);
    assert_eq!(cli.zstd_level, 3);
}

#[test]
fn reorder_buffer_keeps_input_order() {
    let mut rb: ReorderBuffer<&str> = ReorderBuffer::new(3);
    assert_eq!(rb.push(1, "b1"), Vec::<&str>::new());
    assert_eq!(rb.push(0, "a1"), vec!["a1"]);
    assert_eq!(rb.push(2, "c1"), Vec::<&str>::new());
    assert_eq!(rb.finish(2), Vec::<&str>::new());
    assert_eq!(rb.push(1, "b2"), Vec::<&str>::new());
    assert_eq!(rb.finish(0), vec!["b1", "b2"]);
    assert_eq!(rb.current, 1);
    assert_eq!(rb.push(1, "b3"), vec!["b3"]);
    assert_eq!(rb.finish(1), vec!["c1"]);
    assert_eq!(rb.current, 3);
}

#[test]
fn columnar_resume_starts_after_last_row_group() {
    assert_eq!(row_groups_to_read(4, None), vec![0, 1, 2, 3]);
    assert_eq!(row_groups_to_read(4, Some(1)), vec![2, 3]);
    assert_eq!(row_groups_to_read(4, Some(3)), Vec::<usize>::new());
    assert_eq!(row_groups_to_read(4, Some(9)), Vec::<usize>::new());
}
