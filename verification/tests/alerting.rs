use quake_alert::alert::alert_contents;
use quake_alert::alert::filter_alerts;
use quake_alert::alert::matches_alert_rule;
use quake_alert::config::AlertRule;
use quake_alert::config::RunMode;
use quake_alert::pipeline::next_checkpoint;
use quake_alert::pipeline::take_new_quakes;
use quake_alert::process::process_quake_data;
use quake_alert::process::Coord;
use quake_alert::process::QuakeData;
use quake_alert::process::QuakeMag;
use quake_alert::util::interpolate;

fn record(date: &str, time: &str, lat: i64, lon: i64, ml: i64) -> QuakeData {
    QuakeData {
        date: date.to_string(),
        time: time.to_string(),
        coord: Coord { latitude: lat, longitude: lon },
        depth: None,
        magnitude: QuakeMag { md: None, ml, mw: None },
        location: "SOMEWHERE".to_string(),
        metadata: String::new(),
    }
}

// Origin (0,0); inner radius 100 km with threshold 4.0; outer radius
// 300 km with threshold 5.0.  Distances and radii in micro-km,
// magnitudes in micro-magnitudes.
fn example_rule() -> AlertRule {
    AlertRule {
        origin: Coord { latitude: 0, longitude: 0 },
        search_radius_km_1: 100_000_000,
        min_magnitude_1: 4_000_000,
        search_radius_km_2: 300_000_000,
        min_magnitude_2: 5_000_000,
    }
}

#[test]
fn identity_is_reflexive_and_symmetric() {
    let a = record("2024.01.02", "10:00:00", 38_000_000, 27_000_000, 4_100_000);
    let mut b = record("2024.01.02", "10:00:00", 38_000_000, 27_000_000, 5_500_000);
    b.location = "REVISED".to_string();
    let c = record("2024.01.01", "10:00:00", 38_000_000, 27_000_000, 4_100_000);
    assert!(a.same_instance(&a));
    // Magnitude and label differences do not affect identity.
    assert!(a.same_instance(&b));
    assert_eq!(a.same_instance(&b), b.same_instance(&a));
    assert!(!a.same_instance(&c));
    assert_eq!(a.same_instance(&c), c.same_instance(&a));
}

#[test]
fn dedup_checkpoint_in_front_yields_nothing() {
    let c = record("2024.01.03", "10:00:00", 38_000_000, 27_000_000, 4_000_000);
    let x = record("2024.01.02", "09:00:00", 37_000_000, 26_000_000, 3_000_000);
    let y = record("2024.01.01", "08:00:00", 36_000_000, 25_000_000, 2_000_000);
    let fresh = vec![c.clone(), x, y];
    let out = take_new_quakes(&fresh, &Some(c));
    assert_eq!(out.len(), 0);
}

#[test]
fn dedup_checkpoint_at_back_yields_the_prefix() {
    let c = record("2024.01.01", "08:00:00", 36_000_000, 25_000_000, 2_000_000);
    let x = record("2024.01.03", "10:00:00", 38_000_000, 27_000_000, 4_000_000);
    let y = record("2024.01.02", "09:00:00", 37_000_000, 26_000_000, 3_000_000);
    let fresh = vec![x, y, c.clone()];
    let out = take_new_quakes(&fresh, &Some(c));
    assert_eq!(out.len(), 2);
    assert_eq!(out[0].date.as_str(), "2024.01.03");
    assert_eq!(out[1].date.as_str(), "2024.01.02");
}

#[test]
fn dedup_checkpoint_in_the_middle_yields_the_records_before_it() {
    let c = record("2024.01.02", "09:00:00", 37_000_000, 26_000_000, 3_000_000);
    let x = record("2024.01.03", "10:00:00", 38_000_000, 27_000_000, 4_000_000);
    let y = record("2024.01.01", "08:00:00", 36_000_000, 25_000_000, 2_000_000);
    let fresh = vec![x, c.clone(), y];
    let out = take_new_quakes(&fresh, &Some(c));
    assert_eq!(out.len(), 1);
    assert_eq!(out[0].date.as_str(), "2024.01.03");
}

#[test]
fn dedup_without_checkpoint_returns_everything() {
    let x = record("2024.01.03", "10:00:00", 38_000_000, 27_000_000, 4_000_000);
    let y = record("2024.01.02", "09:00:00", 37_000_000, 26_000_000, 3_000_000);
    let fresh = vec![x, y];
    let out = take_new_quakes(&fresh, &None);
    assert_eq!(out.len(), 2);
    assert_eq!(out[0].date.as_str(), "2024.01.03");
}

#[test]
fn dedup_checkpoint_scrolled_away_returns_everything() {
    let c = record("2023.12.31", "07:00:00", 35_000_000, 24_000_000, 1_000_000);
    let x = record("2024.01.03", "10:00:00", 38_000_000, 27_000_000, 4_000_000);
    let y = record("2024.01.02", "09:00:00", 37_000_000, 26_000_000, 3_000_000);
    let fresh = vec![x, y];
    let out = take_new_quakes(&fresh, &Some(c));
    assert_eq!(out.len(), 2);
}

#[test]
fn matcher_inner_boundary_is_inclusive() {
    let rule = example_rule();
    let at_threshold = record("d", "t", 1_000_000, 1_000_000, 4_000_000);
    let below = record("d", "t", 1_000_000, 1_000_000, 3_999_999);
    // Distance exactly at the inner radius uses the inner threshold.
    assert!(matches_alert_rule(&rule, &at_threshold, 100_000_000));
    assert!(!matches_alert_rule(&rule, &below, 100_000_000));
}

#[test]
fn matcher_outer_boundary_uses_the_outer_threshold() {
    let rule = example_rule();
    let at_threshold = record("d", "t", 1_000_000, 1_000_000, 5_000_000);
    let below = record("d", "t", 1_000_000, 1_000_000, 4_999_999);
    // Distance exactly at the outer radius interpolates with factor
    // one, which is the outer threshold exactly.
    assert!(matches_alert_rule(&rule, &at_threshold, 300_000_000));
    assert!(!matches_alert_rule(&rule, &below, 300_000_000));
}

#[test]
fn matcher_beyond_outer_radius_never_matches() {
    let rule = example_rule();
    let huge = record("d", "t", 1_000_000, 1_000_000, 9_000_000);
    assert!(!matches_alert_rule(&rule, &huge, 300_000_001));
    assert!(!matches_alert_rule(&rule, &huge, 40_000_000_000));
}

#[test]
fn matcher_midpoint_requires_the_interpolated_threshold() {
    let rule = example_rule();
    // At 200 km the required magnitude interpolates to 4.5.
    let low = record("d", "t", 1_000_000, 1_000_000, 4_400_000);
    let high = record("d", "t", 1_000_000, 1_000_000, 4_600_000);
    assert!(!matches_alert_rule(&rule, &low, 200_000_000));
    assert!(matches_alert_rule(&rule, &high, 200_000_000));
}

#[test]
fn interpolate_is_exact_at_simple_points() {
    assert_eq!(interpolate(4_000_000, 5_000_000, 100_000_000, 200_000_000), 4_500_000);
    assert_eq!(interpolate(4_000_000, 5_000_000, 0, 200_000_000), 4_000_000);
    assert_eq!(interpolate(4_000_000, 5_000_000, 200_000_000, 200_000_000), 5_000_000);
    // No clamping: a factor above one extrapolates on the same line.
    assert_eq!(interpolate(0, 10, 3, 2), 15);
    // A decreasing span interpolates downward.
    assert_eq!(interpolate(10, 0, 1, 2), 5);
    // Rounding is toward zero.
    assert_eq!(interpolate(0, -10, 1, 3), -3);
}

#[test]
fn filter_and_contents_reduce_matching_records() {
    let rule = example_rule();
    let a = record("2024.01.03", "10:00:00", 1_000_000, 1_000_000, 4_200_000);
    let b = record("2024.01.02", "09:00:00", 2_000_000, 2_000_000, 4_200_000);
    let quakes = vec![a, b];
    // The first is inside the inner radius, the second is past the
    // outer radius.
    let dists = vec![50_000_000, 301_000_000];
    let hits = filter_alerts(&rule, &quakes, &dists);
    assert_eq!(hits.len(), 1);
    assert_eq!(hits[0].date.as_str(), "2024.01.03");
    let contents = alert_contents(&hits);
    assert_eq!(contents.len(), 1);
    assert_eq!(contents[0].date.as_str(), "2024.01.03");
    assert_eq!(contents[0].time.as_str(), "10:00:00");
    assert_eq!(contents[0].location.as_str(), "SOMEWHERE");
    assert_eq!(contents[0].magnitude, 4_200_000);
}

#[test]
fn end_to_end_first_run_returns_all_and_advances_checkpoint() {
    let text = "Tarih Saat Enlem Boylam\n----------\n2024.01.02 10:00:00 38.0 27.0 5.0 _._ 4.1 _._ PLACE\n2024.01.01 09:00:00 37.5 26.5 10.0 _._ 3.2 _._ ELSEWHERE\n";
    let records = process_quake_data(text.to_string());
    assert_eq!(records.len(), 2);
    let fresh = take_new_quakes(&records, &None);
    assert_eq!(fresh.len(), 2);
    let checkpoint = next_checkpoint(&records, None);
    let c = checkpoint.expect("checkpoint should advance to the newest record");
    assert_eq!(c.date.as_str(), "2024.01.02");
    assert_eq!(c.time.as_str(), "10:00:00");
}

#[test]
fn empty_fetch_keeps_the_old_checkpoint() {
    let old = record("2024.01.01", "08:00:00", 36_000_000, 25_000_000, 2_000_000);
    let kept = next_checkpoint(&Vec::new(), Some(old));
    assert_eq!(kept.expect("kept").date.as_str(), "2024.01.01");
    assert!(next_checkpoint(&Vec::new(), None).is_none());
}

#[test]
fn run_modes_answer_for_their_own_variant() {
    assert!(RunMode::Debug.is_debug());
    assert!(!RunMode::Debug.is_dev());
    assert!(RunMode::Dev.is_dev());
    assert!(!RunMode::Dev.is_release());
    assert!(RunMode::Release.is_release());
    assert!(!RunMode::Release.is_debug());
    assert!(RunMode::default().is_dev());
}
