use maw::progress::{format_eta, GlobalProgress};
use maw::text::decimal_string;

#[test]
fn test_eta_formatting() {
    assert_eq!(format_eta(Some(0)), "0s");
    assert_eq!(format_eta(Some(59)), "59s");
    assert_eq!(format_eta(Some(60)), "1m 0s");
    assert_eq!(format_eta(Some(3661)), "1h 1m 1s");
    assert_eq!(format_eta(None), "Unknown");
}

#[test]
fn test_progress_tracker() {
    let mut stats = GlobalProgress::new(10, 1000);
    stats.update_file_progress(100, 10);
    stats.update_file_progress(200, 20);
    assert_eq!(stats.processed_bytes, 300);
    assert_eq!(stats.processed_rows, 30);
    assert_eq!(stats.progress_percent(), 30);
    assert_eq!(GlobalProgress::new(0, 0).progress_percent(), 0);
}

#[test]
fn eta_from_elapsed_time() {
    let mut p = GlobalProgress::new(1, 1000);
    assert_eq!(p.eta_after(5000), None);
    p.update_file_progress(250, 0);
    // 750 bytes left at 250 bytes per 10 s
    assert_eq!(p.eta_after(10_000), Some(30));
    assert_eq!(p.throughput_after(10_000), 25);
    assert_eq!(p.throughput_after(0), 0);
    p.update_file_progress(750, 0);
    assert_eq!(p.eta_after(10_000), None);
    assert_eq!(p.get_eta_seconds(), None);
}

#[test]
fn completed_files_are_counted() {
    let mut p = GlobalProgress::new(2, 10);
    p.mark_file_complete();
    assert_eq!(p.processed_files, 1);
    assert_eq!(p.total_files, 2);
}

#[test]
fn decimal_text_of_numbers() {
    assert_eq!(decimal_string(0), "0");
    assert_eq!(decimal_string(10), "10");
    assert_eq!(decimal_string(u64::MAX), "18446744073709551615");
    assert_eq!(format_eta(Some(86400)), "24h 0m 0s");
}
