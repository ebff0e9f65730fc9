use marker_extract::extract::default_config;
use marker_extract::extract::extract_run;
use marker_extract::extract::ExtractError;
use marker_extract::numeric::SCALE;

// Builds one source line in the default schema: 157 tab-separated
// fields with the date at positions 2..4, population at 8, prevalence
// at 16, cumulative failure counts at 23 and 24, and all 128 genotype
// frequencies (each set to `geno`) from position 29.
fn make_line(
    year: u32,
    month: u32,
    day: u32,
    pop: &str,
    pfpr: &str,
    ntf: &str,
    tf: &str,
    geno: &str,
) -> String {
    let mut fields = vec!["0".to_string(); 157];
    fields[2] = year.to_string();
    fields[3] = month.to_string();
    fields[4] = day.to_string();
    fields[8] = pop.to_string();
    fields[16] = pfpr.to_string();
    fields[23] = ntf.to_string();
    fields[24] = tf.to_string();
    for i in 0..128 {
        fields[29 + i] = geno.to_string();
    }
    fields.join("\t")
}

fn standard_line(year: u32, month: u32, day: u32) -> String {
    make_line(year, month, day, "2000", "0.5", "50", "100", "1.0")
}

#[test]
fn complete_run_emits_one_snapshot_per_year() {
    // epoch 2022, terminal 2027-01-01; uniform genotype vector of 128
    // equal values 1.0, so every marker frequency is 64/128 = 0.5
    let mut lines = Vec::new();
    for year in 2022..=2027u32 {
        lines.push(standard_line(year, 1, 1));
        if year < 2027 {
            // non-boundary days are scanned but emit nothing
            lines.push(standard_line(year, 6, 15));
        }
    }
    let data = lines.join("\n").into_bytes();
    let cfg = default_config();
    let snaps = extract_run(&data, &cfg).expect("run reaches the terminal date");
    // the terminal record marks completion and is not itself a snapshot
    assert_eq!(snaps.len(), 5);
    for (j, snap) in snaps.iter().enumerate() {
        assert_eq!(snap.year_offset, j as i64);
        assert_eq!(snap.pfpr, 500_000_000);
        assert_eq!(snap.freqs.len(), 4);
        for freq in &snap.freqs {
            // exactly one half
            assert_eq!(freq.num * 2, freq.den);
            assert_eq!(freq.num, 64 * SCALE as u128);
            assert_eq!(freq.den, 128 * SCALE as u128);
        }
        // 50 * 100 / 2000 = 2.5 per 100 population
        assert_eq!(snap.ntf_rate.num * 2, snap.ntf_rate.den * 5);
        // 100 * 100 / 2000 = 5
        assert_eq!(snap.tf_rate.num, snap.tf_rate.den * 5);
    }
}

#[test]
fn rates_scale_cumulative_counts_per_100_population() {
    let lines = vec![standard_line(2022, 1, 1), standard_line(2027, 1, 1)];
    let data = lines.join("\n").into_bytes();
    let snaps = extract_run(&data, &default_config()).unwrap();
    assert_eq!(snaps.len(), 1);
    let rate = &snaps[0].ntf_rate;
    assert_eq!(rate.num, 50 * u128::from(SCALE) * 100);
    assert_eq!(rate.den, 2000 * u128::from(SCALE));
    assert_eq!(rate.num as f64 / rate.den as f64, 2.5);
}

#[test]
fn incomplete_run_yields_no_snapshots() {
    // boundaries matched for 2022..2026, but the stream ends before the
    // terminal date: all of them are discarded
    let mut lines = Vec::new();
    for year in 2022..=2026u32 {
        lines.push(standard_line(year, 1, 1));
    }
    let data = lines.join("\n").into_bytes();
    let result = extract_run(&data, &default_config());
    assert_eq!(result.unwrap_err(), ExtractError::RunIncomplete);
}

#[test]
fn empty_source_is_incomplete() {
    let data = Vec::new();
    let result = extract_run(&data, &default_config());
    assert_eq!(result.unwrap_err(), ExtractError::RunIncomplete);
}

#[test]
fn malformed_field_fails_the_run() {
    let lines = vec![
        standard_line(2022, 1, 1),
        make_line(2022, 3, 1, "2000", "0.5", "50", "100", "oops"),
        standard_line(2027, 1, 1),
    ];
    let data = lines.join("\n").into_bytes();
    let result = extract_run(&data, &default_config());
    assert_eq!(result.unwrap_err(), ExtractError::MalformedRow);
}

#[test]
fn short_row_fails_the_run() {
    let data = b"2022\t1\t1".to_vec();
    let result = extract_run(&data, &default_config());
    assert_eq!(result.unwrap_err(), ExtractError::MalformedRow);
}

#[test]
fn zero_total_mass_is_surfaced_not_masked() {
    let lines = vec![
        make_line(2022, 1, 1, "2000", "0.5", "50", "100", "0"),
        standard_line(2027, 1, 1),
    ];
    let data = lines.join("\n").into_bytes();
    let result = extract_run(&data, &default_config());
    assert_eq!(result.unwrap_err(), ExtractError::DivisionByZero);
}

#[test]
fn zero_population_is_surfaced_not_masked() {
    let lines = vec![
        make_line(2022, 1, 1, "0", "0.5", "50", "100", "1.0"),
        standard_line(2027, 1, 1),
    ];
    let data = lines.join("\n").into_bytes();
    let result = extract_run(&data, &default_config());
    assert_eq!(result.unwrap_err(), ExtractError::DivisionByZero);
}

#[test]
fn crlf_and_trailing_newline_read_the_same() {
    let lines = vec![standard_line(2022, 1, 1), standard_line(2027, 1, 1)];
    let unix = lines.join("\n").into_bytes();
    let dos = (lines.join("\r\n") + "\r\n").into_bytes();
    let cfg = default_config();
    let a = extract_run(&unix, &cfg).unwrap();
    let b = extract_run(&dos, &cfg).unwrap();
    assert_eq!(a.len(), 1);
    assert_eq!(b.len(), 1);
    assert_eq!(a[0].pfpr, b[0].pfpr);
    assert_eq!(a[0].year_offset, b[0].year_offset);
}

#[test]
fn scanning_stops_at_the_terminal_date() {
    // a malformed line after the terminal record is never reached
    let lines = vec![
        standard_line(2022, 1, 1),
        standard_line(2027, 1, 1),
        "garbage".to_string(),
    ];
    let data = lines.join("\n").into_bytes();
    let snaps = extract_run(&data, &default_config()).unwrap();
    assert_eq!(snaps.len(), 1);
    assert_eq!(snaps[0].year_offset, 0);
}

#[test]
fn frequencies_stay_within_the_unit_interval() {
    // a skewed vector: genotype index 0 (no marker bit set) carries
    // extra mass, so every marker frequency is strictly below one half,
    // yet always within [0, 1]
    let mut fields = vec!["0".to_string(); 157];
    fields[2] = "2022".to_string();
    fields[3] = "1".to_string();
    fields[4] = "1".to_string();
    fields[8] = "2000".to_string();
    fields[16] = "0.5".to_string();
    fields[23] = "50".to_string();
    fields[24] = "100".to_string();
    for i in 0..128 {
        fields[29 + i] = "1.0".to_string();
    }
    fields[29] = "3".to_string();
    let lines = vec![fields.join("\t"), standard_line(2027, 1, 1)];
    let data = lines.join("\n").into_bytes();
    let snaps = extract_run(&data, &default_config()).unwrap();
    for freq in &snaps[0].freqs {
        assert!(freq.den > 0);
        assert!(freq.num <= freq.den);
        // index 0 contributes to no marker, so strictly below one half
        assert_eq!(freq.num, 64 * u128::from(SCALE));
        assert_eq!(freq.den, 130 * u128::from(SCALE));
    }
}

#[test]
fn normalisation_divides_by_actual_mass() {
    // genotype values of 0.25 each: total mass 32, marker mass 16,
    // frequency still exactly one half
    let lines = vec![
        make_line(2022, 1, 1, "2000", "0.5", "50", "100", "0.25"),
        standard_line(2027, 1, 1),
    ];
    let data = lines.join("\n").into_bytes();
    let snaps = extract_run(&data, &default_config()).unwrap();
    let freq = &snaps[0].freqs[0];
    assert_eq!(freq.num, 64 * u128::from(SCALE) / 4);
    assert_eq!(freq.den, 128 * u128::from(SCALE) / 4);
    assert_eq!(freq.num * 2, freq.den);
}
