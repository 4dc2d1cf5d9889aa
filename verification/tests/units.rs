use dawn_project::model::time::{parse_time_nanoseconds, TimeError, NANOS_PER_SECOND};
use dawn_project::model::units::{
    whole_meters, Distance, DistanceError, DistanceSpan, Time, TimeSpan,
};

fn parse_time(text: &str) -> Result<Time, TimeError> {
    Time::parse(text)
}

#[test]
fn parses_exact_time_units() {
    assert_eq!(parse_time("1ns").unwrap().as_nanoseconds(), 1);
    assert_eq!(parse_time("1us").unwrap().as_nanoseconds(), 1_000);
    assert_eq!(parse_time("1ms").unwrap().as_nanoseconds(), 1_000_000);
    assert_eq!(parse_time("1s").unwrap().as_nanoseconds(), NANOS_PER_SECOND);
    assert_eq!(parse_time("1m").unwrap().as_nanoseconds(), 60 * NANOS_PER_SECOND);
    assert_eq!(parse_time("1m1.5s").unwrap().as_nanoseconds(), 61_500_000_000);
}

#[test]
fn parses_decimal_seconds_without_float_rounding() {
    assert_eq!(parse_time("0.016666667s").unwrap().as_nanoseconds(), 16_666_667);
    assert_eq!(parse_time("1.5s").unwrap().as_nanoseconds(), 1_500_000_000);
    assert_eq!(parse_time("0.001ms").unwrap().as_nanoseconds(), 1_000);
}

#[test]
fn serializes_canonical_decimal_seconds() {
    assert_eq!(Time::zero().to_text(), "0s");
    assert_eq!(Time::from_nanoseconds(1_500_000_000).to_text(), "1.5s");
    assert_eq!(TimeSpan::from_nanoseconds(16_666_667).to_text(), "0.016666667s");
}

#[test]
fn rejects_sub_nanosecond_precision_and_overflow() {
    assert!(parse_time("0.1ns").is_err());
    assert!(parse_time("18446744073709551616ns").is_err());
    assert!(parse_time("1xs").is_err());
}

#[test]
fn parses_metric_distances_and_spans() {
    assert_eq!(Distance::parse("1").unwrap().as_micrometers(), 1_000_000);
    assert_eq!(Distance::parse("1.25m").unwrap().as_micrometers(), 1_250_000);
    assert_eq!(Distance::parse("12.3cm").unwrap().as_micrometers(), 123_000);
    assert_eq!(Distance::parse("2.5mm").unwrap().as_micrometers(), 2_500);
    assert_eq!(Distance::parse("7um").unwrap().as_micrometers(), 7);
    assert_eq!(DistanceSpan::parse("0.001").unwrap().as_micrometers(), 1_000);
}

#[test]
fn serializes_canonical_decimal_meters() {
    // Whole meters are written as an integer; other lengths as a float of meters.
    let whole = Distance::from_micrometers(1_000_000).as_micrometers();
    assert_eq!(whole_meters(whole), Some(1));
    assert_eq!(format!("{}", whole_meters(whole).unwrap()), "1");
    let fractional = Distance::from_micrometers(1_200_000).as_micrometers();
    assert_eq!(whole_meters(fractional), None);
    assert_eq!(
        serde_yaml::to_string(&(fractional as f64 / 1_000_000.0)).unwrap().trim(),
        "1.2"
    );
    let tiny = DistanceSpan::from_micrometers(1).as_micrometers() as i64;
    assert_eq!(whole_meters(tiny), None);
    assert_eq!(
        serde_yaml::to_string(&(tiny as f64 / 1_000_000.0)).unwrap().trim(),
        "1e-6"
    );
}

#[test]
fn signed_distances_allow_negatives_but_spans_reject_them() {
    assert_eq!(Distance::parse("-0.5").unwrap().as_micrometers(), -500_000);
    assert!(DistanceSpan::parse("-0.5").is_err());
}

#[test]
fn time_text_round_trips_through_parse() {
    for n in [0u64, 1, 999, 1_000_000_000, 61_500_000_000, 16_666_667, u64::MAX] {
        let text = Time::from_nanoseconds(n).to_text();
        assert_eq!(Time::parse(&text).unwrap().as_nanoseconds(), n, "{text}");
    }
}

#[test]
fn time_error_variants_have_their_messages() {
    assert_eq!(parse_time_nanoseconds(""), Err(TimeError::Empty));
    assert_eq!(parse_time_nanoseconds("s"), Err(TimeError::SegmentStart));
    assert_eq!(parse_time_nanoseconds("1xs"), Err(TimeError::Suffix));
    assert_eq!(parse_time_nanoseconds("1.2.3s"), Err(TimeError::NotNumber));
    assert_eq!(parse_time_nanoseconds("18446744073709551616ns"), Err(TimeError::NotNumber));
    assert_eq!(parse_time_nanoseconds("18446744073709551615s"), Err(TimeError::TooLarge));
    assert_eq!(parse_time_nanoseconds("0.00000000000000000001s"), Err(TimeError::TooFine));
    assert_eq!(parse_time_nanoseconds("0.1ns"), Err(TimeError::SubNanosecond));
    assert_eq!(TimeError::Empty.message(), "time must not be empty");
    assert_eq!(TimeError::TooLarge.message(), "time is too large");
}

#[test]
fn distance_errors_and_spans() {
    assert_eq!(Distance::parse("").unwrap_err(), DistanceError::Empty);
    assert_eq!(Distance::parse("abc").unwrap_err(), DistanceError::NotNumber);
    // Sub-micrometer digits are dropped, not refused.
    assert_eq!(Distance::parse("0.0000001").unwrap().as_micrometers(), 0);
    assert_eq!(Distance::parse("0.0000000000000000001").unwrap_err(), DistanceError::TooFine);
    assert_eq!(Distance::parse("9223372036854775807").unwrap_err(), DistanceError::TooLarge);
    assert_eq!(DistanceSpan::parse("-1").unwrap_err(), DistanceError::NegativeSpan);
    assert_eq!(DistanceSpan::try_from_signed_micrometers(-3).unwrap_err(), DistanceError::NegativeSpan);
    assert_eq!(DistanceSpan::try_from_signed_micrometers(3).unwrap().as_micrometers(), 3);
    assert_eq!(
        DistanceError::NegativeSpan.message(),
        "distance span meters must be non-negative"
    );
}

#[test]
fn units_compare_by_their_counts() {
    assert!(Time::from_nanoseconds(1) < Time::from_nanoseconds(2));
    assert!(Time::from_nanoseconds(2) <= Time::from_nanoseconds(2));
    assert!(!(Time::from_nanoseconds(3) <= Time::from_nanoseconds(2)));
    assert!(TimeSpan::from_nanoseconds(10) > TimeSpan::from_nanoseconds(9));
    assert!(Distance::from_micrometers(-5) < Distance::from_micrometers(0));
    assert!(Distance::from_micrometers(7) >= Distance::from_micrometers(-7));
    assert!(DistanceSpan::from_micrometers(10_000) > DistanceSpan::from_micrometers(1_000));
    let mut times = vec![Time::from_nanoseconds(5), Time::zero(), Time::from_nanoseconds(3)];
    times.sort();
    assert_eq!(times, vec![Time::zero(), Time::from_nanoseconds(3), Time::from_nanoseconds(5)]);
    assert_eq!(Time::zero().as_nanoseconds(), 0);
}
