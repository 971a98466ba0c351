use categorize_poi::places::resolve_open;
use categorize_poi::places::GeoPoint;
use categorize_poi::places::RawPlace;
use categorize_poi::places::ResultSet;

fn gp(lat: i64, lng: i64) -> GeoPoint {
    GeoPoint { lat_udeg: lat, lng_udeg: lng }
}

fn raw(id: &str, hours: Option<bool>, lat: i64, lng: i64) -> RawPlace {
    RawPlace { identity: String::from(id), opening_hours: hours, location: gp(lat, lng) }
}

#[test]
fn dedup_last_write_wins() {
    let mut rs = ResultSet::new(gp(0, 0));
    rs.merge_page(&vec![
        raw("a", Some(true), 1, 1),
        raw("b", None, 2, 2),
        raw("a", Some(false), 3, 3),
    ]);
    rs.merge_page(&vec![raw("b", Some(true), 4, 4)]);
    assert_eq!(rs.count(), 2);
    assert_eq!(rs.lookup(&String::from("a")), Some((false, gp(3, 3))));
    assert_eq!(rs.lookup(&String::from("b")), Some((true, gp(4, 4))));
    assert_eq!(rs.lookup(&String::from("c")), None);
}

#[test]
fn default_closed_when_hours_absent() {
    let mut rs = ResultSet::new(gp(0, 0));
    rs.merge_page(&vec![
        raw("no-hours", None, 1, 1),
        raw("open-now", Some(true), 2, 2),
        raw("closed-now", Some(false), 3, 3),
    ]);
    assert_eq!(rs.lookup(&String::from("no-hours")).unwrap().0, false);
    assert_eq!(rs.lookup(&String::from("open-now")).unwrap().0, true);
    assert_eq!(rs.lookup(&String::from("closed-now")).unwrap().0, false);
}

#[test]
fn resolve_open_defaults_closed() {
    assert_eq!(resolve_open(None), false);
    assert_eq!(resolve_open(Some(true)), true);
    assert_eq!(resolve_open(Some(false)), false);
}

#[test]
fn insert_overwrites_in_place() {
    let mut rs = ResultSet::new(gp(0, 0));
    rs.insert(String::from("x"), true, gp(1, 1));
    rs.insert(String::from("y"), false, gp(2, 2));
    rs.insert(String::from("x"), false, gp(9, 9));
    assert_eq!(rs.count(), 2);
    assert_eq!(rs.lookup(&String::from("x")), Some((false, gp(9, 9))));
    assert_eq!(rs.lookup(&String::from("y")), Some((false, gp(2, 2))));
}
