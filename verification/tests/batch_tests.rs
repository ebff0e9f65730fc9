use marker_extract::batch::grid_jobs;
use marker_extract::batch::job_id;
use marker_extract::batch::process_job;
use marker_extract::batch::run_batch;
use marker_extract::batch::source_file_name;
use marker_extract::batch::JobError;
use marker_extract::extract::default_config;

fn make_line(year: u32, month: u32, day: u32) -> String {
    let mut fields = vec!["0".to_string(); 157];
    fields[2] = year.to_string();
    fields[3] = month.to_string();
    fields[4] = day.to_string();
    fields[8] = "2000".to_string();
    fields[16] = "0.5".to_string();
    fields[23] = "50".to_string();
    fields[24] = "100".to_string();
    for i in 0..128 {
        fields[29 + i] = "1.0".to_string();
    }
    fields.join("\t")
}

fn complete_source() -> Vec<u8> {
    let mut lines = Vec::new();
    for year in 2022..=2027u32 {
        lines.push(make_line(year, 1, 1));
    }
    lines.join("\n").into_bytes()
}

#[test]
fn job_id_packs_param_and_replicate() {
    assert_eq!(job_id(3, 7), 3007);
    assert_eq!(job_id(0, 0), 0);
    assert_eq!(job_id(12, 999), 12999);
}

#[test]
fn grid_order_is_param_then_replicate() {
    let jobs = grid_jobs(0, 2, 3);
    assert_eq!(jobs, vec![(0, 0), (0, 1), (0, 2), (1, 0), (1, 1), (1, 2)]);
}

#[test]
fn grid_respects_parameter_range() {
    let jobs = grid_jobs(5, 7, 2);
    assert_eq!(jobs, vec![(5, 0), (5, 1), (6, 0), (6, 1)]);
    assert!(grid_jobs(4, 4, 10).is_empty());
    assert!(grid_jobs(0, 3, 0).is_empty());
}

#[test]
fn source_file_names_follow_the_convention() {
    assert_eq!(source_file_name(1234), b"monthly_data_1234.txt".to_vec());
    assert_eq!(source_file_name(0), b"monthly_data_0.txt".to_vec());
}

#[test]
fn missing_source_yields_diagnostic_and_no_rows() {
    let cfg = default_config();
    let result = process_job(4, 2, None, &cfg);
    let diag = result.unwrap_err();
    assert_eq!(diag.param_id, 4);
    assert_eq!(diag.run_id, 2);
    assert_eq!(diag.job_id, 4002);
    assert_eq!(diag.error, JobError::SourceUnavailable);
}

#[test]
fn successful_job_tags_every_record() {
    let cfg = default_config();
    let source = complete_source();
    let records = process_job(9, 3, Some(&source), &cfg).unwrap();
    assert_eq!(records.len(), 5);
    for (j, rec) in records.iter().enumerate() {
        assert_eq!(rec.param_id, 9);
        assert_eq!(rec.run_id, 3);
        assert_eq!(rec.snap.year_offset, j as i64);
    }
}

#[test]
fn incomplete_job_reports_its_identity() {
    let cfg = default_config();
    let source = make_line(2022, 1, 1).into_bytes();
    let diag = process_job(1, 2, Some(&source), &cfg).unwrap_err();
    assert_eq!(diag.job_id, 1002);
    assert_eq!(diag.error, JobError::RunIncomplete);
}

#[test]
fn malformed_job_reports_its_identity() {
    let cfg = default_config();
    let source = b"not\ta\tsource".to_vec();
    let diag = process_job(2, 0, Some(&source), &cfg).unwrap_err();
    assert_eq!(diag.job_id, 2000);
    assert_eq!(diag.error, JobError::MalformedRow);
}

#[test]
fn one_missing_source_never_stops_the_batch() {
    let cfg = default_config();
    let jobs = vec![(0u64, 0u64), (0, 1), (1, 0)];
    let sources = vec![Some(complete_source()), None, Some(complete_source())];
    let (records, diags, report) = run_batch(&jobs, &sources, &cfg);
    // the missing job contributes zero rows, the others their full five
    assert_eq!(records.len(), 10);
    assert!(records.iter().all(|r| !(r.param_id == 0 && r.run_id == 1)));
    assert_eq!(records[0].param_id, 0);
    assert_eq!(records[0].run_id, 0);
    assert_eq!(records[5].param_id, 1);
    assert_eq!(records[5].run_id, 0);
    assert_eq!(diags.len(), 1);
    assert_eq!(diags[0].param_id, 0);
    assert_eq!(diags[0].run_id, 1);
    assert_eq!(diags[0].error, JobError::SourceUnavailable);
    assert_eq!(report.total, 3);
    assert_eq!(report.succeeded, 2);
    assert_eq!(report.failed, 1);
}

#[test]
fn batch_report_counts_every_outcome() {
    let cfg = default_config();
    let jobs = vec![(0u64, 0u64), (0, 1), (0, 2)];
    let sources = vec![None, Some(b"bad".to_vec()), Some(complete_source())];
    let (records, diags, report) = run_batch(&jobs, &sources, &cfg);
    assert_eq!(records.len(), 5);
    assert_eq!(diags.len(), 2);
    assert_eq!(diags[0].error, JobError::SourceUnavailable);
    assert_eq!(diags[1].error, JobError::MalformedRow);
    assert_eq!(report.total, 3);
    assert_eq!(report.succeeded, 1);
    assert_eq!(report.failed, 2);
}
