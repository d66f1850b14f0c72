use fr_engine::logfile::{
    descriptor, LogfileCorrelationInput, LogfileCorrelator, NoopLogfileCorrelator,
};

#[test]
fn noop_correlator_returns_no_hints() {
    let correlator = NoopLogfileCorrelator;
    let input = vec![LogfileCorrelationInput {
        record_number: 42,
        parent_record_number: Some(5),
        name: Some("report.txt".to_string()),
        reconstructed_path: Some(r"Docs\report.txt".to_string()),
    }];

    let hints = correlator.correlate(&input);
    assert!(hints.is_empty());
}

#[test]
fn logfile_descriptor_names_the_module() {
    assert_eq!(descriptor().name, "fr-logfile");
}
