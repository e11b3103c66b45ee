use iwd_filter::policy::RemovalPolicy;
use iwd_filter::rebuild::ArchiveError;
use iwd_filter::rebuild::RebuildOutcome;
use iwd_filter::rebuild::rebuild_container;
use iwd_filter::totals::Totals;
use iwd_filter::totals::aggregate;
use iwd_filter::totals::sum_sizes;
use std::io::Write;

fn outcome(count: usize, bytes: u128) -> RebuildOutcome {
    RebuildOutcome { output: None, removed_count: count, removed_bytes: bytes, dropped: Vec::new() }
}

#[test]
fn aggregate_sums_per_container_results() {
    let reports: Vec<Result<RebuildOutcome, ArchiveError>> = vec![
        Ok(outcome(2, 1100)),
        Ok(outcome(0, 0)),
        Ok(outcome(3, 42)),
    ];
    let t = aggregate(&reports);
    assert_eq!(t.files_removed, 5);
    assert_eq!(t.bytes_removed, 1142);
}

#[test]
fn failed_container_contributes_nothing() {
    let reports: Vec<Result<RebuildOutcome, ArchiveError>> = vec![
        Ok(outcome(2, 1100)),
        Err(ArchiveError::Open),
        Ok(outcome(1, 10)),
    ];
    let t = aggregate(&reports);
    assert_eq!(t.files_removed, 3);
    assert_eq!(t.bytes_removed, 1110);
}

#[test]
fn accumulate_skips_errors_and_adds_successes() {
    let mut t = Totals::new();
    t.accumulate(&Ok(outcome(4, 99)));
    t.accumulate(&Err(ArchiveError::Finalize));
    assert_eq!(t.files_removed, 4);
    assert_eq!(t.bytes_removed, 99);
}

#[test]
fn aggregate_over_real_containers_matches_each_report() {
    let policy = RemovalPolicy::default_rules();
    let good = {
        let mut w = zip::ZipWriter::new(std::io::Cursor::new(Vec::new()));
        let options = zip::write::SimpleFileOptions::default()
            .compression_method(zip::CompressionMethod::Stored);
        w.start_file("images/x.iwi".to_string(), options).unwrap();
        w.write_all(b"0123456789").unwrap();
        w.start_file("a.cfg".to_string(), options).unwrap();
        w.write_all(b"keep").unwrap();
        w.finish().unwrap().into_inner()
    };
    let bad = b"not a container".to_vec();
    let reports = vec![rebuild_container(good, &policy), rebuild_container(bad, &policy)];
    assert!(reports[1].is_err());
    let t = aggregate(&reports);
    assert_eq!(t.files_removed, 1);
    assert_eq!(t.bytes_removed, 10);
}

#[test]
fn sum_sizes_adds_exactly() {
    assert_eq!(sum_sizes(&vec![1, 2, 3, 4]), 10);
    assert_eq!(sum_sizes(&Vec::new()), 0);
    assert_eq!(sum_sizes(&vec![u64::MAX, u64::MAX]), 2 * (u64::MAX as u128));
}

#[test]
fn totals_saturate_instead_of_wrapping() {
    let mut t = Totals::new();
    t.accumulate(&Ok(outcome(1, u128::MAX)));
    t.accumulate(&Ok(outcome(1, 5)));
    assert_eq!(t.bytes_removed, u128::MAX);
    assert_eq!(t.files_removed, 2);
}
