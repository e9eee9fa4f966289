use geofence_audit::extract::{LocationConfig, RawPair, RawValue};
use geofence_audit::reconcile::{reconcile_all, reconcile_user, Finding, LocationKind, UserRecord};
use geofence_audit::registry::{RegionRegistry, RegionSource};

fn source(id: u16, name: &str, ring: &[u8]) -> RegionSource {
    RegionSource { id, name: String::from(name), ring_text: ring.to_vec() }
}

fn empty_pair() -> RawPair {
    RawPair { x: RawValue::Other, y: RawValue::Other }
}

fn text_pair(x: &str, y: &str) -> RawPair {
    RawPair {
        x: RawValue::Text(x.as_bytes().to_vec()),
        y: RawValue::Text(y.as_bytes().to_vec()),
    }
}

fn config_with_home(home: RawPair) -> LocationConfig {
    LocationConfig {
        home,
        pokemon: empty_pair(),
        raid: empty_pair(),
        invasion: empty_pair(),
    }
}

fn two_squares() -> RegionRegistry {
    // A covers x,y in 0..10; B covers x in 20..30, y in 0..10.
    let sources = vec![
        source(1, "Alpha", b"(0,0),(0,10),(10,10),(10,0)"),
        source(2, "Beta", b"(20,0),(20,10),(30,10),(30,0)"),
    ];
    RegionRegistry::build(&sources).expect("registry should build")
}

fn user(assigned: u16, home: RawPair) -> UserRecord {
    UserRecord {
        user_id: 7,
        username: String::from("alice"),
        assigned_region_id: assigned,
        config: config_with_home(home),
    }
}

#[test]
fn square_contains_inner_point() {
    let reg = two_squares();
    assert_eq!(reg.contains(1, b"5.0", b"5.0"), Ok(true));
}

#[test]
fn square_does_not_contain_outer_point() {
    let reg = two_squares();
    assert_eq!(reg.contains(1, b"15.0", b"15.0"), Ok(false));
}

#[test]
fn contains_unknown_region_fails() {
    let reg = two_squares();
    assert!(reg.contains(9, b"5.0", b"5.0").is_err());
}

#[test]
fn point_in_other_region_names_it() {
    let reg = two_squares();
    let findings = reconcile_user(&reg, &user(1, text_pair("25.0", "5.0")));
    assert_eq!(findings.len(), 1);
    match &findings[0] {
        Finding::WrongRegion {
            user_id,
            username,
            kind,
            actual_id,
            actual_name,
            assigned_id,
            assigned_name,
        } => {
            assert_eq!(*user_id, 7);
            assert_eq!(username, "alice");
            assert_eq!(*kind, LocationKind::Home);
            assert_eq!(*actual_id, 2);
            assert_eq!(actual_name, "Beta");
            assert_eq!(*assigned_id, 1);
            assert_eq!(assigned_name, "Alpha");
        },
        other => panic!("unexpected finding: {:?}", other),
    }
}

#[test]
fn point_in_no_region_reports_outside_every() {
    let reg = two_squares();
    let findings = reconcile_user(&reg, &user(1, text_pair("50.0", "50.0")));
    assert_eq!(findings.len(), 1);
    match &findings[0] {
        Finding::OutsideEvery { user_id, username, kind, assigned_id, assigned_name } => {
            assert_eq!(*user_id, 7);
            assert_eq!(username, "alice");
            assert_eq!(*kind, LocationKind::Home);
            assert_eq!(*assigned_id, 1);
            assert_eq!(assigned_name, "Alpha");
        },
        other => panic!("unexpected finding: {:?}", other),
    }
}

#[test]
fn contained_point_is_silent() {
    let reg = two_squares();
    let findings = reconcile_user(&reg, &user(1, text_pair("5.0", "5.0")));
    assert_eq!(findings.len(), 0);
}

#[test]
fn empty_string_coordinate_is_silent() {
    let reg = two_squares();
    let findings = reconcile_user(&reg, &user(1, text_pair("", "5.0")));
    assert_eq!(findings.len(), 0);
}

#[test]
fn malformed_coordinate_is_silent_for_that_path() {
    let reg = two_squares();
    let findings = reconcile_user(&reg, &user(1, text_pair("abc", "5.0")));
    assert_eq!(findings.len(), 0);
}

#[test]
fn unknown_assignment_yields_exactly_one_finding() {
    let reg = two_squares();
    // Every pointer holds a valid point, yet none is checked.
    let config = LocationConfig {
        home: text_pair("5.0", "5.0"),
        pokemon: text_pair("25.0", "5.0"),
        raid: text_pair("50.0", "50.0"),
        invasion: text_pair("5.0", "5.0"),
    };
    let u = UserRecord {
        user_id: 9,
        username: String::from("bob"),
        assigned_region_id: 99,
        config,
    };
    let findings = reconcile_user(&reg, &u);
    assert_eq!(findings.len(), 1);
    match &findings[0] {
        Finding::DisabledRegion { user_id, username, region_id } => {
            assert_eq!(*user_id, 9);
            assert_eq!(username, "bob");
            assert_eq!(*region_id, 99);
        },
        other => panic!("unexpected finding: {:?}", other),
    }
}

#[test]
fn second_run_repeats_the_first() {
    let reg = two_squares();
    let users = vec![
        user(1, text_pair("25.0", "5.0")),
        user(2, text_pair("50.0", "50.0")),
        user(9, text_pair("5.0", "5.0")),
        user(1, text_pair("", "")),
    ];
    let first = reconcile_all(&reg, &users);
    let second = reconcile_all(&reg, &users);
    assert_eq!(first, second);
}

#[test]
fn run_reports_users_in_order() {
    let reg = two_squares();
    let users = vec![
        user(9, text_pair("5.0", "5.0")),
        user(1, text_pair("25.0", "5.0")),
    ];
    let findings = reconcile_all(&reg, &users);
    assert_eq!(findings.len(), 2);
    assert!(matches!(findings[0], Finding::DisabledRegion { .. }));
    assert!(matches!(findings[1], Finding::WrongRegion { .. }));
}

#[test]
fn each_pointer_is_checked_independently() {
    let reg = two_squares();
    let config = LocationConfig {
        home: text_pair("25.0", "5.0"),
        pokemon: text_pair("5.0", "5.0"),
        raid: text_pair("50.0", "50.0"),
        invasion: empty_pair(),
    };
    let u = UserRecord {
        user_id: 7,
        username: String::from("alice"),
        assigned_region_id: 1,
        config,
    };
    let findings = reconcile_user(&reg, &u);
    assert_eq!(findings.len(), 2);
    assert!(matches!(
        findings[0],
        Finding::WrongRegion { kind: LocationKind::Home, actual_id: 2, .. }
    ));
    assert!(matches!(
        findings[1],
        Finding::OutsideEvery { kind: LocationKind::Raid, .. }
    ));
}
