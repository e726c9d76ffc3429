use wrowalk::Config;
use wrowalk::feed::{MpkPosition, filter_sane};

fn record(line: &str, lat_udeg: i64, lon_udeg: i64) -> MpkPosition {
    MpkPosition {
        id: "V1".to_string(),
        fleet_number: "1".to_string(),
        registration_number: "1".to_string(),
        brigade: "1".to_string(),
        line_name: line.to_string(),
        latitude_udeg: lat_udeg,
        longitude_udeg: lon_udeg,
        last_update: "now".to_string(),
    }
}

#[test]
fn unknown_label_is_rejected_whatever_the_coordinates() {
    let cfg = Config::default();
    assert!(!record("None", 52_000_000, 16_000_000).sane(&cfg));
    assert!(!record("", 52_000_000, 16_000_000).sane(&cfg));
    let lenient = Config { max_history: 10, check_coordinates: false };
    assert!(!record("None", 52_000_000, 16_000_000).sane(&lenient));
    assert!(!record("", 52_000_000, 16_000_000).sane(&lenient));
}

#[test]
fn far_coordinates_are_rejected_despite_a_valid_label() {
    let cfg = Config::default();
    // exactly ten degrees off is already out: the tolerance is strict
    assert!(!record("A", 62_000_000, 16_000_000).sane(&cfg));
    assert!(!record("A", 52_000_000, 26_000_000).sane(&cfg));
    assert!(!record("A", 42_000_000, 16_000_000).sane(&cfg));
    assert!(!record("A", 52_000_000, 6_000_000).sane(&cfg));
    // just inside the tolerance is accepted
    assert!(record("A", 61_999_999, 16_000_000).sane(&cfg));
    assert!(record("A", 52_000_000, 25_999_999).sane(&cfg));
}

#[test]
fn label_only_configuration_ignores_coordinates() {
    let lenient = Config { max_history: 10, check_coordinates: false };
    assert!(record("A", 0, 0).sane(&lenient));
    assert!(record("A", 89_000_000, 179_000_000).sane(&lenient));
}

#[test]
fn filter_keeps_exactly_the_sane_records_in_order() {
    let cfg = Config::default();
    let batch = vec![
        record("A", 51_100_000, 17_000_000),
        record("None", 51_100_000, 17_000_000),
        record("B", 51_200_000, 17_100_000),
        record("C", 80_000_000, 17_000_000),
        record("", 51_100_000, 17_000_000),
    ];
    let kept = filter_sane(&batch, &cfg);
    assert_eq!(kept.len(), 2);
    assert_eq!(kept[0].line_name, "A");
    assert_eq!(kept[1].line_name, "B");
}
