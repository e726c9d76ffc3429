use wrowalk::feed::{FeedError, MpkPosition, decode_feed};
use wrowalk::scheduler::{TickPlan, plan_tick, tick_active, tick_hidden};
use wrowalk::store::{MpkWroclaw, VehicleEntry};
use wrowalk::vehicle::Position;
use wrowalk::{Config, VisibilityFlag, is_app_in_background, set_app_in_background};

fn record(id: &str, line: &str, lat_udeg: i64, lon_udeg: i64) -> MpkPosition {
    MpkPosition {
        id: id.to_string(),
        fleet_number: "1".to_string(),
        registration_number: "1".to_string(),
        brigade: "1".to_string(),
        line_name: line.to_string(),
        latitude_udeg: lat_udeg,
        longitude_udeg: lon_udeg,
        last_update: "now".to_string(),
    }
}

fn same_snapshot(a: &[VehicleEntry], b: &[VehicleEntry]) -> bool {
    a.len() == b.len()
        && a.iter().zip(b.iter()).all(|(x, y)| {
            x.id == y.id && x.vehicle.line == y.vehicle.line
                && x.vehicle.positions() == y.vehicle.positions()
        })
}

#[test]
fn visibility_flag_starts_visible_and_follows_the_setter() {
    let mut flag = VisibilityFlag::new();
    assert!(!is_app_in_background(&flag));
    set_app_in_background(&mut flag, true);
    assert!(is_app_in_background(&flag));
    set_app_in_background(&mut flag, false);
    assert!(!is_app_in_background(&flag));
}

#[test]
fn hidden_tick_clears_and_plans_no_fetch() {
    let mut store = MpkWroclaw::new(Config::default());
    assert_eq!(store.last_successful_fetch(), None);
    let ok = tick_active(
        &mut store,
        Ok(vec![record("V1", "A", 51_100_000, 17_000_000)]),
        1_000,
    );
    assert!(ok);
    assert_eq!(store.len(), 1);
    assert_eq!(store.last_successful_fetch(), Some(1_000));
    // the flag flips to hidden: the next tick makes no network request...
    assert_eq!(plan_tick(true), TickPlan::ClearAndRest);
    // ...and clears the store; a snapshot right after is empty
    tick_hidden(&mut store);
    assert!(store.vehicles().is_empty());
    // the staleness metric survives the purge
    assert_eq!(store.last_successful_fetch(), Some(1_000));
    // visible again: the plan calls for a fetch
    assert_eq!(plan_tick(false), TickPlan::FetchAndMerge);
}

#[test]
fn failed_fetch_leaves_the_store_untouched() {
    let mut store = MpkWroclaw::new(Config::default());
    tick_active(
        &mut store,
        Ok(vec![
            record("V1", "A", 51_100_000, 17_000_000),
            record("V2", "B", 51_050_000, 16_900_000),
        ]),
        1_000,
    );
    let before = store.vehicles();
    let redraw = tick_active(&mut store, Err(FeedError::Network), 2_000);
    assert!(!redraw);
    assert!(same_snapshot(&before, &store.vehicles()));
    // a failed tick is not a successful fetch
    assert_eq!(store.last_successful_fetch(), Some(1_000));
    let redraw = tick_active(&mut store, Err(FeedError::Decode), 3_000);
    assert!(!redraw);
    assert!(same_snapshot(&before, &store.vehicles()));
    // the loop goes on: the next successful tick still merges
    let redraw = tick_active(
        &mut store,
        Ok(vec![record("V3", "C", 51_000_000, 17_000_000)]),
        4_000,
    );
    assert!(redraw);
    assert_eq!(store.len(), 3);
    assert_eq!(store.last_successful_fetch(), Some(4_000));
}

#[test]
fn active_tick_validates_before_merging() {
    let mut store = MpkWroclaw::new(Config::default());
    let redraw = tick_active(
        &mut store,
        Ok(vec![
            record("V1", "A", 51_100_000, 17_000_000),
            record("V2", "None", 51_100_000, 17_000_000),
            record("V3", "B", 80_000_000, 17_000_000),
        ]),
        1_000,
    );
    assert!(redraw);
    let snap = store.vehicles();
    assert_eq!(snap.len(), 1);
    assert_eq!(snap[0].id, "V1");
}

#[test]
fn whole_pipeline_from_body_to_snapshot() {
    let body = "_id,Nr_Boczny,Nr_Rej,Brygada,Nazwa_Linii,Ostatnia_Pozycja_Szerokosc,Ostatnia_Pozycja_Dlugosc,Data_Aktualizacji\n\
V1,1001,DW1,5,A,51.1,17.0,t1\n\
V1,1001,DW1,5,A,51.1,17.0,t2\n\
V1,1001,DW1,5,A,51.2,17.1,t3\n\
V2,1002,DW2,6,None,51.1,17.0,t4\n";
    let mut store = MpkWroclaw::new(Config::default());
    let redraw = tick_active(&mut store, decode_feed(body), 1_000);
    assert!(redraw);
    let snap = store.vehicles();
    assert_eq!(snap.len(), 1);
    assert_eq!(snap[0].id, "V1");
    assert_eq!(snap[0].vehicle.line, "A");
    assert_eq!(
        snap[0].vehicle.positions(),
        vec![
            Position::new(51_100_000, 17_000_000),
            Position::new(51_200_000, 17_100_000),
        ]
    );
}

#[test]
fn map_home_position_is_the_main_station() {
    let p = wrowalk::places::wroclaw_glowny();
    assert_eq!(p.lat_udeg, 51_099_160);
    assert_eq!(p.lon_udeg, 17_036_640);
}
