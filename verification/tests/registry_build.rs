use geofence_audit::registry::{RegionRegistry, RegionSource};

fn source(id: u16, name: &str, ring: &[u8]) -> RegionSource {
    RegionSource { id, name: String::from(name), ring_text: ring.to_vec() }
}

#[test]
fn build_keeps_construction_order() {
    let sources = vec![
        source(5, "Five", b"(0,0),(0,1),(1,1),(1,0)"),
        source(3, "Three", b"(2,2),(2,3),(3,3),(3,2)"),
    ];
    let reg = RegionRegistry::build(&sources).expect("registry should build");
    assert_eq!(reg.len(), 2);
    assert_eq!(reg.region_at(0).id, 5);
    assert_eq!(reg.region_at(0).name, "Five");
    assert_eq!(reg.region_at(1).id, 3);
    assert_eq!(reg.region_at(1).name, "Three");
}

#[test]
fn one_malformed_ring_aborts_the_build() {
    let sources = vec![
        source(1, "Good", b"(0,0),(0,1),(1,1),(1,0)"),
        source(2, "Bad", b"(0,0),(x,1)"),
    ];
    assert!(RegionRegistry::build(&sources).is_err());
}

#[test]
fn duplicate_id_replaces_earlier_region() {
    let sources = vec![
        source(1, "First", b"(0,0),(0,1),(1,1),(1,0)"),
        source(1, "Second", b"(10,10),(10,20),(20,20),(20,10)"),
    ];
    let reg = RegionRegistry::build(&sources).expect("registry should build");
    assert_eq!(reg.len(), 1);
    assert_eq!(reg.region_at(0).name, "Second");
    assert_eq!(reg.contains(1, b"15", b"15"), Ok(true));
    assert_eq!(reg.contains(1, b"0.5", b"0.5"), Ok(false));
}

#[test]
fn index_of_finds_regions_by_id() {
    let sources = vec![
        source(5, "Five", b"(0,0),(0,1),(1,1),(1,0)"),
        source(3, "Three", b"(2,2),(2,3),(3,3),(3,2)"),
    ];
    let reg = RegionRegistry::build(&sources).expect("registry should build");
    assert_eq!(reg.index_of(3), Some(1));
    assert_eq!(reg.index_of(4), None);
}

#[test]
fn find_any_containing_finds_the_holder() {
    let sources = vec![
        source(5, "Five", b"(0,0),(0,1),(1,1),(1,0)"),
        source(3, "Three", b"(2,2),(2,3),(3,3),(3,2)"),
    ];
    let reg = RegionRegistry::build(&sources).expect("registry should build");
    let i = reg.find_any_containing(b"2.5", b"2.5").expect("a region contains the point");
    assert_eq!(reg.region_at(i).id, 3);
    assert!(reg.find_any_containing(b"9", b"9").is_none());
}
