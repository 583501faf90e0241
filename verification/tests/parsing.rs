use quake_alert::numeric::parse_micro;
use quake_alert::process::process_quake_data;
use quake_alert::process::QuakeData;
use quake_alert::text::extract_quake_text;

#[test]
fn micro_parse_round_trips_exactly() {
    assert_eq!(parse_micro("4.5"), Some(4_500_000));
    assert_eq!(parse_micro("38.1905"), Some(38_190_500));
    assert_eq!(parse_micro("-3.5"), Some(-3_500_000));
    assert_eq!(parse_micro("+2.25"), Some(2_250_000));
    assert_eq!(parse_micro("0.000001"), Some(1));
    assert_eq!(parse_micro("12."), Some(12_000_000));
    assert_eq!(parse_micro(".25"), Some(250_000));
    assert_eq!(parse_micro("7"), Some(7_000_000));
    assert_eq!(parse_micro("0"), Some(0));
}

#[test]
fn micro_parse_truncates_beyond_six_fraction_digits() {
    assert_eq!(parse_micro("1.2345678"), Some(1_234_567));
    assert_eq!(parse_micro("-1.2345678"), Some(-1_234_567));
}

#[test]
fn micro_parse_rejects_non_numerals() {
    assert_eq!(parse_micro(""), None);
    assert_eq!(parse_micro("."), None);
    assert_eq!(parse_micro("-"), None);
    assert_eq!(parse_micro("_._"), None);
    assert_eq!(parse_micro("abc"), None);
    assert_eq!(parse_micro("1.2.3"), None);
    assert_eq!(parse_micro("1e5"), None);
    assert_eq!(parse_micro("4.5x"), None);
    assert_eq!(parse_micro("1234567890123"), None);
}

#[test]
fn valid_line_parses_with_exact_fields() {
    let line = "2024.01.15 12:30:45 38.1905 26.7805 7.1 _._ 4.5 3.9 SOMEWHERE";
    let q = QuakeData::from_str(line).ok().expect("line should parse");
    assert_eq!(q.date.as_str(), "2024.01.15");
    assert_eq!(q.time.as_str(), "12:30:45");
    assert_eq!(q.coord.latitude, 38_190_500);
    assert_eq!(q.coord.longitude, 26_780_500);
    assert_eq!(q.depth, Some(7_100_000));
    assert_eq!(q.magnitude.md, None);
    assert_eq!(q.magnitude.ml, 4_500_000);
    assert_eq!(q.magnitude.get_main(), 4_500_000);
    assert_eq!(q.magnitude.mw, Some(3_900_000));
    assert_eq!(q.location.as_str(), "SOMEWHERE");
    assert_eq!(q.metadata.as_str(), "");
}

#[test]
fn optional_fields_fall_back_silently() {
    // Unparseable depth and sentinel magnitudes are absent, not errors.
    let line = "2024.01.15 12:30:45 38.0 27.0 xx _._ 4.5 _._";
    let q = QuakeData::from_str(line).ok().expect("line should parse");
    assert_eq!(q.depth, None);
    assert_eq!(q.magnitude.md, None);
    assert_eq!(q.magnitude.mw, None);
    assert_eq!(q.location.as_str(), "Unknown");
    assert_eq!(q.metadata.as_str(), "");
}

#[test]
fn duration_magnitude_kept_when_numeric() {
    let line = "2024.01.15 12:30:45 38.0 27.0 5.0 3.2 4.5 _._ PLACE";
    let q = QuakeData::from_str(line).ok().expect("line should parse");
    assert_eq!(q.magnitude.md, Some(3_200_000));
}

#[test]
fn location_and_metadata_split_by_token_count() {
    let base = "2024.01.15 12:30:45 38.0 27.0 5.0 _._ 4.5 _._";
    // No trailing token: the fallback label.
    let q = QuakeData::from_str(base).ok().unwrap();
    assert_eq!(q.location.as_str(), "Unknown");
    assert_eq!(q.metadata.as_str(), "");
    // One: it is the label.
    let q = QuakeData::from_str(&format!("{} ALPHA", base)).ok().unwrap();
    assert_eq!(q.location.as_str(), "ALPHA");
    assert_eq!(q.metadata.as_str(), "");
    // Exactly two: the second is metadata.
    let q = QuakeData::from_str(&format!("{} ALPHA BETA", base)).ok().unwrap();
    assert_eq!(q.location.as_str(), "ALPHA");
    assert_eq!(q.metadata.as_str(), "BETA");
    // Three or more: two-token label, the rest joined.
    let q = QuakeData::from_str(&format!("{} ALPHA BETA GAMMA", base)).ok().unwrap();
    assert_eq!(q.location.as_str(), "ALPHA BETA");
    assert_eq!(q.metadata.as_str(), "GAMMA");
    let q = QuakeData::from_str(&format!("{} ALPHA BETA GAMMA DELTA", base)).ok().unwrap();
    assert_eq!(q.location.as_str(), "ALPHA BETA");
    assert_eq!(q.metadata.as_str(), "GAMMADELTA ");
}

#[test]
fn missing_local_magnitude_is_the_uniform_error() {
    // Six tokens: the local magnitude token is missing entirely.
    assert!(QuakeData::from_str("2024.01.15 12:30:45 38.0 27.0 5.0 _._").is_err());
    // Present but not numeric.
    assert!(QuakeData::from_str("2024.01.15 12:30:45 38.0 27.0 5.0 _._ bad").is_err());
    // Sentinel in the mandatory slot is also a failure.
    assert!(QuakeData::from_str("2024.01.15 12:30:45 38.0 27.0 5.0 _._ _._").is_err());
}

#[test]
fn missing_required_fields_fail() {
    assert!(QuakeData::from_str("").is_err());
    assert!(QuakeData::from_str("2024.01.15").is_err());
    assert!(QuakeData::from_str("2024.01.15 12:30:45 bad 27.0 5.0 _._ 4.5").is_err());
    assert!(QuakeData::from_str("2024.01.15 12:30:45 38.0 bad 5.0 _._ 4.5").is_err());
}

#[test]
fn table_processor_skips_preamble_and_bad_lines() {
    let text = "Bogazici University\nKandilli Observatory\n\nTarih Saat Enlem Boylam\n----------\n2024.01.02 10:00:00 38.0 27.0 5.0 _._ 4.1 _._ PLACE\nnot a data line\n2024.01.01 09:00:00 37.5 26.5 10.0 _._ 3.2 _._ ELSEWHERE\n";
    let records = process_quake_data(text.to_string());
    assert_eq!(records.len(), 2);
    assert_eq!(records[0].date.as_str(), "2024.01.02");
    assert_eq!(records[0].magnitude.ml, 4_100_000);
    assert_eq!(records[1].date.as_str(), "2024.01.01");
    assert_eq!(records[1].magnitude.ml, 3_200_000);
}

#[test]
fn table_processor_handles_crlf_lines() {
    let text = "Tarih Saat\r\n----\r\n2024.01.02 10:00:00 38.0 27.0 5.0 _._ 4.1 _._ PLACE\r\n";
    let records = process_quake_data(text.to_string());
    assert_eq!(records.len(), 1);
    assert_eq!(records[0].time.as_str(), "10:00:00");
}

#[test]
fn table_processor_without_header_yields_nothing() {
    let text = "2024.01.02 10:00:00 38.0 27.0 5.0 _._ 4.1 _._ PLACE\n";
    assert_eq!(process_quake_data(text.to_string()).len(), 0);
    // A dash line before any header does not open the table either.
    let text = "----\n2024.01.02 10:00:00 38.0 27.0 5.0 _._ 4.1 _._ PLACE\n";
    assert_eq!(process_quake_data(text.to_string()).len(), 0);
}

#[test]
fn pre_block_extraction() {
    let html = "<html>\n<body>\n  <pre>\nTarih Saat\n----\n2024.01.02 10:00:00 38.0 27.0 5.0 _._ 4.1 _._ PLACE\n  </pre>\n</body>\n";
    let text = extract_quake_text(html);
    assert_eq!(
        text.as_str(),
        "Tarih Saat\n----\n2024.01.02 10:00:00 38.0 27.0 5.0 _._ 4.1 _._ PLACE\n"
    );
    let records = process_quake_data(text);
    assert_eq!(records.len(), 1);
}

#[test]
fn pre_block_absent_yields_nothing() {
    assert_eq!(extract_quake_text("<html>\nno block here\n").as_str(), "");
}
