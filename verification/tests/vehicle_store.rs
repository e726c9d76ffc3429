use wrowalk::Config;
use wrowalk::feed::MpkPosition;
use wrowalk::store::{MpkWroclaw, latest_positions};
use wrowalk::vehicle::{Position, Vehicle};

fn record(id: &str, line: &str, lat_udeg: i64, lon_udeg: i64) -> MpkPosition {
    MpkPosition {
        id: id.to_string(),
        fleet_number: "1".to_string(),
        registration_number: "1".to_string(),
        brigade: "1".to_string(),
        line_name: line.to_string(),
        latitude_udeg: lat_udeg,
        longitude_udeg: lon_udeg,
        last_update: "now".to_string(),
    }
}

#[test]
fn history_never_exceeds_the_bound() {
    let mut v = Vehicle::new("A".to_string());
    for i in 0..25i64 {
        v.update(Position::new(51_000_000 + i, 17_000_000), 10);
        assert!(v.positions().len() <= 10);
    }
    let h = v.positions();
    assert_eq!(h.len(), 10);
    // the oldest entries were evicted from the front
    assert_eq!(h[0], Position::new(51_000_015, 17_000_000));
    assert_eq!(h[9], Position::new(51_000_024, 17_000_000));
}

#[test]
fn duplicate_observation_leaves_history_unchanged() {
    let mut v = Vehicle::new("A".to_string());
    v.update(Position::new(51_100_000, 17_000_000), 10);
    v.update(Position::new(51_200_000, 17_100_000), 10);
    let before = v.positions();
    v.update(Position::new(51_200_000, 17_100_000), 10);
    assert_eq!(v.positions(), before);
}

#[test]
fn latest_position_is_last_of_history() {
    let mut v = Vehicle::new("A".to_string());
    v.update(Position::new(51_100_000, 17_000_000), 10);
    v.update(Position::new(51_200_000, 17_100_000), 10);
    let h = v.positions();
    assert!(!h.is_empty());
    assert_eq!(v.position(), h[h.len() - 1]);
}

#[test]
fn batch_merge_dedups_and_keeps_latest_label() {
    // the scenario: three records for one vehicle, the middle a duplicate
    let mut store = MpkWroclaw::new(Config::default());
    let batch = vec![
        record("V1", "A", 51_100_000, 17_000_000),
        record("V1", "A", 51_100_000, 17_000_000),
        record("V1", "A", 51_200_000, 17_100_000),
    ];
    store.merge(&batch);
    let snap = store.vehicles();
    assert_eq!(snap.len(), 1);
    assert_eq!(snap[0].id, "V1");
    assert_eq!(snap[0].vehicle.line, "A");
    assert_eq!(
        snap[0].vehicle.positions(),
        vec![
            Position::new(51_100_000, 17_000_000),
            Position::new(51_200_000, 17_100_000),
        ]
    );
}

#[test]
fn merge_updates_label_and_tracks_many_vehicles() {
    let mut store = MpkWroclaw::new(Config::default());
    store.merge(&vec![
        record("V1", "A", 51_100_000, 17_000_000),
        record("V2", "B", 51_050_000, 16_900_000),
    ]);
    // V1 is later observed on another route
    store.merge(&vec![record("V1", "C", 51_150_000, 17_050_000)]);
    assert_eq!(store.len(), 2);
    let snap = store.vehicles();
    let v1 = snap.iter().find(|e| e.id == "V1").unwrap();
    assert_eq!(v1.vehicle.line, "C");
    assert_eq!(v1.vehicle.positions().len(), 2);
    let v2 = snap.iter().find(|e| e.id == "V2").unwrap();
    assert_eq!(v2.vehicle.line, "B");
    assert_eq!(v2.vehicle.position(), Position::new(51_050_000, 16_900_000));
}

#[test]
fn retention_bound_is_configuration() {
    let cfg = Config { max_history: 2, check_coordinates: true };
    let mut store = MpkWroclaw::new(cfg);
    store.merge(&vec![
        record("V1", "A", 51_100_000, 17_000_000),
        record("V1", "A", 51_200_000, 17_000_000),
        record("V1", "A", 51_300_000, 17_000_000),
    ]);
    let snap = store.vehicles();
    assert_eq!(
        snap[0].vehicle.positions(),
        vec![
            Position::new(51_200_000, 17_000_000),
            Position::new(51_300_000, 17_000_000),
        ]
    );
}

#[test]
fn snapshot_is_a_deep_copy() {
    let mut store = MpkWroclaw::new(Config::default());
    store.merge(&vec![record("V1", "A", 51_100_000, 17_000_000)]);
    let mut snap = store.vehicles();
    // mutating the snapshot cannot reach the live store
    snap[0].vehicle.update(Position::new(50_000_000, 16_000_000), 10);
    snap[0].vehicle.line = "Z".to_string();
    let fresh = store.vehicles();
    assert_eq!(fresh[0].vehicle.line, "A");
    assert_eq!(fresh[0].vehicle.positions().len(), 1);
}

#[test]
fn clear_empties_the_store() {
    let mut store = MpkWroclaw::new(Config::default());
    store.merge(&vec![record("V1", "A", 51_100_000, 17_000_000)]);
    store.clear();
    assert_eq!(store.len(), 0);
    assert!(store.vehicles().is_empty());
}

#[test]
fn latest_projection_round_trips() {
    let mut store = MpkWroclaw::new(Config::default());
    store.merge(&vec![
        record("V1", "A", 51_100_000, 17_000_000),
        record("V2", "B", 51_050_000, 16_900_000),
        record("V1", "A", 51_200_000, 17_100_000),
    ]);
    let snap = store.vehicles();
    let latest = latest_positions(&snap);
    assert_eq!(latest.len(), snap.len());
    for (id, pos) in &latest {
        let entry = snap.iter().find(|e| &e.id == id).unwrap();
        assert_eq!(*pos, entry.vehicle.position());
    }
}
