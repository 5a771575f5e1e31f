use bench_harness::benchmark::Report;
use bench_harness::csv::{encode_record, parse_record, record_of, CsvRecord};
use bench_harness::error::HarnessError;
use bench_harness::stats::Statistics;

fn sample_record() -> CsvRecord {
    CsvRecord {
        benchmark: b"Rank".to_vec(),
        measurement: b"Vers".to_vec(),
        size: 128,
        central: 12_345,
        min: 1_000,
        max: 99_999,
        deviation: 5,
    }
}

#[test]
fn record_line_exact_bytes() {
    let line = encode_record(&sample_record());
    assert_eq!(line, b"Rank,Vers,128,12.345,1.000,99.999,0.005".to_vec());
}

#[test]
fn record_round_trip() {
    let r = sample_record();
    let line = encode_record(&r);
    let back = parse_record(&line).unwrap();
    assert_eq!(back.benchmark, r.benchmark);
    assert_eq!(back.measurement, r.measurement);
    assert_eq!(back.size, r.size);
    assert_eq!(back.central, r.central);
    assert_eq!(back.min, r.min);
    assert_eq!(back.max, r.max);
    assert_eq!(back.deviation, r.deviation);
}

#[test]
fn record_round_trip_extremes() {
    let r = CsvRecord {
        benchmark: Vec::new(),
        measurement: b"a b".to_vec(),
        size: u64::MAX,
        central: 0,
        min: u64::MAX,
        max: 999,
        deviation: 1000,
    };
    let line = encode_record(&r);
    assert_eq!(
        line,
        b",a b,18446744073709551615,0.000,18446744073709551.615,0.999,1.000".to_vec()
    );
    let back = parse_record(&line).unwrap();
    assert_eq!(back.benchmark, r.benchmark);
    assert_eq!(back.measurement, r.measurement);
    assert_eq!(back.size, u64::MAX);
    assert_eq!(back.min, u64::MAX);
    assert_eq!(back.max, 999);
    assert_eq!(back.deviation, 1000);
}

#[test]
fn parse_rejects_malformed_lines() {
    assert!(parse_record(&b"Rank,Vers,128,12.345,1.000,99.999".to_vec()).is_none());
    assert!(parse_record(&b"Rank,Vers,12x,12.345,1.000,99.999,0.005".to_vec()).is_none());
    assert!(parse_record(&b"Rank,Vers,128,12.34,1.000,99.999,0.005".to_vec()).is_none());
    assert!(parse_record(&b"Rank,Vers,128,12.345,1.000,99.999,0.005,".to_vec()).is_none());
    assert!(parse_record(&b"Rank,Vers,,12.345,1.000,99.999,0.005".to_vec()).is_none());
    assert!(parse_record(&b"Rank,Vers,18446744073709551616,1.000,1.000,1.000,1.000".to_vec()).is_none());
    assert!(parse_record(&b"Rank,Vers,1,18446744073709551.616,1.000,1.000,1.000".to_vec()).is_none());
    assert!(parse_record(&Vec::new()).is_none());
}

#[test]
fn parse_accepts_leading_zeros() {
    let r = parse_record(&b"B,M,007,01.500,0.000,2.000,0.250".to_vec()).unwrap();
    assert_eq!(r.size, 7);
    assert_eq!(r.central, 1500);
    assert_eq!(r.deviation, 250);
}

#[test]
fn record_of_report_with_statistics() {
    let report = Report {
        benchmark: "Select".to_string(),
        measurement: "SuxR9".to_string(),
        size: 4096,
        calibration: Ok(1000),
        outcome: Ok(Statistics {
            central: 2_500,
            deviation: 40,
            relative_ppm: Some(16_000),
            min: 2_000,
            max: 3_000,
        }),
    };
    let rec = record_of(&report).unwrap();
    assert_eq!(
        encode_record(&rec),
        b"Select,SuxR9,4096,2.500,2.000,3.000,0.040".to_vec()
    );
}

#[test]
fn record_of_report_with_error_is_none() {
    let report = Report {
        benchmark: "Select".to_string(),
        measurement: "SuxR9".to_string(),
        size: 4096,
        calibration: Err(HarnessError::NoParams),
        outcome: Err(HarnessError::NotCalibrated),
    };
    assert!(record_of(&report).is_none());
}
