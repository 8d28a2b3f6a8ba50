use maw::discover::{format_name, input_for_file, order_inputs, stdin_input, DiscoveryConfig, FileFormat, InputFile};

fn input(path: &str, size: u64) -> InputFile {
    InputFile { path: path.to_string(), format: FileFormat::Csv, size }
}

#[test]
fn formats_by_extension() {
    assert_eq!(FileFormat::from_extension("dir/test.csv"), Some(FileFormat::Csv));
    assert_eq!(FileFormat::from_extension("a.b/test.tsv"), Some(FileFormat::Csv));
    assert_eq!(FileFormat::from_extension("test.parquet"), Some(FileFormat::Parquet));
    assert_eq!(FileFormat::from_extension("test.txt"), None);
    assert_eq!(FileFormat::from_extension("csv"), None);
    assert_eq!(FileFormat::from_extension(".csv"), None);
    assert_eq!(FileFormat::from_extension("dir.csv/file"), None);
    assert_eq!(FileFormat::from_extension("x.csv/"), Some(FileFormat::Csv));
    assert_eq!(FileFormat::from_extension("d/x.parquet//."), Some(FileFormat::Parquet));
    assert_eq!(FileFormat::from_extension("a/.."), None);
    assert_eq!(FileFormat::from_extension("/"), None);
    assert_eq!(format_name(&FileFormat::Parquet), "Parquet");
}

#[test]
fn inputs_sorted_and_deduplicated() {
    let found = vec![input("b.csv", 1), input("a.csv", 2), input("b.csv", 3), input("a/x.csv", 4)];
    let ordered = order_inputs(found);
    let paths: Vec<&str> = ordered.iter().map(|f| f.path.as_str()).collect();
    assert_eq!(paths, vec!["a.csv", "a/x.csv", "b.csv"]);
    assert_eq!(ordered[2].size, 1);
    assert!(order_inputs(vec![]).is_empty());
}

#[test]
fn files_and_stdin_become_inputs() {
    let f = input_for_file("d/data.parquet".to_string(), 9).unwrap();
    assert_eq!(f.format, FileFormat::Parquet);
    assert_eq!(f.size, 9);
    assert!(input_for_file("d/notes.md".to_string(), 9).is_none());
    let s = stdin_input();
    assert_eq!(s.path, "-");
    assert_eq!(s.format, FileFormat::Csv);
    let c = DiscoveryConfig::default();
    assert!(c.recursive && !c.follow_symlinks && c.max_depth.is_none());
}
