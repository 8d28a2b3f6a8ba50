use maw::state::{ProcessingState, ResumeAction, StateManager};

#[test]
fn test_processing_state() {
    let mut state = ProcessingState::new("output.csv".to_string(), "csv".to_string());

    state.add_file("file1.csv".to_string(), "csv".to_string(), 1000);
    state.add_file("file2.csv".to_string(), "csv".to_string(), 2000);

    assert_eq!(state.total_files, 2);
    assert_eq!(state.total_bytes, 3000);
    assert!(!state.is_complete());

    state.mark_file_processed("file1.csv", 1000, 100);
    assert_eq!(state.processed_files, 1);
    assert_eq!(state.processed_bytes, 1000);

    state.mark_file_processed("file2.csv", 2000, 200);
    assert!(state.is_complete());
    assert_eq!(state.progress_percent(), 100);
}

#[test]
fn repeated_registration_and_marking_count_once() {
    let mut state = ProcessingState::new("o".to_string(), "csv".to_string());
    state.add_file("a.csv".to_string(), "csv".to_string(), 10);
    state.add_file("a.csv".to_string(), "csv".to_string(), 10);
    assert_eq!(state.total_files, 1);
    assert_eq!(state.total_bytes, 10);
    state.mark_file_processed("a.csv", 10, 1);
    state.mark_file_processed("a.csv", 10, 1);
    assert_eq!(state.processed_files, 1);
    assert_eq!(state.processed_bytes, 10);
    state.mark_file_processed("a.csv", 7, 2);
    assert_eq!(state.processed_files, 1);
    assert_eq!(state.processed_bytes, 7);
    assert_eq!(state.get_file_state("a.csv").unwrap().rows_processed, 2);
    state.mark_file_processed("a.csv", 10, 1);
    state.mark_file_processed("missing.csv", 5, 1);
    assert_eq!(state.processed_bytes, 10);
    assert!(state.is_file_processed("a.csv"));
    assert!(!state.is_file_processed("missing.csv"));
}

#[test]
fn progress_and_resume_point() {
    let mut state = ProcessingState::new("o".to_string(), "csv".to_string());
    state.add_file_observed("big.csv".to_string(), "csv".to_string(), 500, 77);
    assert_eq!(state.get_resume_point("big.csv"), Some((0, None)));
    state.update_file_progress("big.csv", 120, None);
    assert_eq!(state.get_resume_point("big.csv"), Some((120, None)));
    assert_eq!(state.get_file_state("big.csv").unwrap().bytes_processed, 120);
    assert_eq!(state.get_resume_point("other.csv"), None);
    assert_eq!(state.progress_percent(), 0);
}

#[test]
fn resume_decisions() {
    let mut state = ProcessingState::new("o".to_string(), "csv".to_string());
    state.add_file_observed("done.csv".to_string(), "csv".to_string(), 10, 1);
    state.add_file_observed("half.csv".to_string(), "csv".to_string(), 10, 1);
    state.add_file_observed("fresh.csv".to_string(), "csv".to_string(), 10, 1);
    state.mark_file_processed("done.csv", 10, 2);
    state.update_file_progress("half.csv", 4, None);
    assert_eq!(state.resume_action("done.csv", 10, 1), ResumeAction::Skip);
    assert_eq!(state.resume_action("half.csv", 10, 1), ResumeAction::Resume { offset: 4, row_group: None });
    assert_eq!(state.resume_action("fresh.csv", 10, 1), ResumeAction::Process);
    assert_eq!(state.resume_action("new.csv", 10, 1), ResumeAction::Process);
    assert_eq!(state.resume_action("done.csv", 11, 1), ResumeAction::Restart);
    assert_eq!(state.resume_action("half.csv", 10, 2), ResumeAction::Restart);
}

#[test]
fn resumed_run_processes_only_the_unfinished_input() {
    // three inputs: the first two completed, the third written up to offset 5
    let mut state = ProcessingState::new("out.csv".to_string(), "csv".to_string());
    for name in ["in1.csv", "in2.csv", "in3.csv"] {
        state.add_file_observed(name.to_string(), "csv".to_string(), 100, 9);
    }
    state.mark_file_processed("in1.csv", 100, 10);
    state.mark_file_processed("in2.csv", 100, 10);
    state.update_file_progress("in3.csv", 5, None);
    let actions: Vec<ResumeAction> =
        ["in1.csv", "in2.csv", "in3.csv"].iter().map(|p| state.resume_action(p, 100, 9)).collect();
    assert_eq!(
        actions,
        vec![ResumeAction::Skip, ResumeAction::Skip, ResumeAction::Resume { offset: 5, row_group: None }]
    );
}

#[test]
fn state_manager_holds_created_state() {
    let mut manager = StateManager::new(Some("state.json".to_string()));
    assert!(manager.get_state().is_none());
    let state = manager.create_state("output.csv".to_string(), "csv".to_string());
    assert_eq!(state.output_path, "output.csv");
    assert_eq!(state.output_format, "csv");
    assert_eq!(state.version, "0.1.0");
    let held = manager.get_state().unwrap();
    assert_eq!(held.output_path, "output.csv");
    assert_eq!(held.output_format, "csv");
}

#[test]
fn registering_again_starts_the_record_afresh() {
    let mut state = ProcessingState::new("o".to_string(), "csv".to_string());
    state.add_file("a.csv".to_string(), "csv".to_string(), 10);
    state.add_file("b.csv".to_string(), "csv".to_string(), 5);
    state.mark_file_processed("a.csv", 10, 4);
    state.update_file_progress("b.csv", 3, None);
    assert_eq!((state.processed_files, state.processed_bytes), (1, 10));
    state.add_file("a.csv".to_string(), "tsv".to_string(), 20);
    assert_eq!(state.total_files, 2);
    assert_eq!(state.total_bytes, 25);
    assert_eq!((state.processed_files, state.processed_bytes), (0, 0));
    let a = state.get_file_state("a.csv").unwrap();
    assert!(!a.processed);
    assert_eq!((a.format.as_str(), a.size, a.bytes_processed, a.rows_processed), ("tsv", 20, 0, 0));
    assert_eq!(state.get_resume_point("a.csv"), Some((0, None)));
    assert_eq!(state.get_resume_point("b.csv"), Some((3, None)));
}
