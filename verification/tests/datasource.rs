use chargebot::config::{Chat, Location, Park, Station};
use chargebot::datasource::Datasource;
use chargebot::whatever::WhateverSync;

fn station(id: &str, alias: &str) -> Station {
    Station { id: id.to_string(), alias: alias.to_string() }
}

fn park(id: &str, stations: Vec<Station>) -> Park {
    Park { id: id.to_string(), stations }
}

fn location(id: &str, name: &str, parks: Vec<Park>) -> Location {
    Location { id: id.to_string(), name: name.to_string(), parks }
}

fn chat(id: i64, locations: &[&str]) -> Chat {
    Chat { id, locations: locations.iter().map(|l| l.to_string()).collect() }
}

fn error_text(r: Result<Datasource, WhateverSync>) -> String {
    match r {
        Ok(_) => panic!("expected an error"),
        Err(e) => {
            assert!(matches!(e, WhateverSync::Stringly { .. }));
            e.to_string()
        }
    }
}

#[test]
fn empty() {
    let ds = Datasource::new(vec![], vec![]).unwrap();
    assert!(ds.get_location_by_station("x").is_none());
    assert_eq!(ds.get_locations_by_chat(123).len(), 0);
}

#[test]
fn datasource_basic() {
    let locations = vec![
        location(
            "l1",
            "L1",
            vec![
                park("l1p1", vec![station("l1s1", "l1S1"), station("l1s2", "l1S2")]),
                park("l1p2", vec![station("l1s3", "l1S3"), station("l1s4", "l1S4")]),
            ],
        ),
        location("l2", "L2", vec![park("l2p1", vec![station("l2s1", "l2S1")])]),
    ];

    let chats = vec![chat(1, &["l1"]), chat(2, &["l2"]), chat(3, &["l1", "l2"])];

    let ds = Datasource::new(locations, chats).unwrap();

    assert!(ds.get_location_by_station("l3").is_none()); // location is not defined

    assert_eq!(ds.get_location_by_station("l1s4").unwrap().name, "L1");
    assert_eq!(ds.get_location_by_station("l2s1").unwrap().name, "L2");

    assert_eq!(ds.get_locations_by_chat(10).len(), 0); // chat is not defined

    let result = ds.get_locations_by_chat(2);
    assert_eq!(result.len(), 1);
    assert_eq!(result[0].name, "L2");

    let result = ds.get_locations_by_chat(3);
    assert_eq!(result.len(), 2);
    assert_eq!(result[0].name, "L1");
    assert_eq!(result[1].name, "L2");
}

#[test]
fn datasource_duplicate_location() {
    let r = Datasource::new(
        vec![
            location("l1", "L1", vec![park("p1", vec![station("s1", "S1")])]),
            location("l1", "Other", vec![park("p2", vec![station("s2", "S2")])]),
        ],
        vec![],
    );
    assert_eq!(error_text(r), "found duplicate location id: l1");
}

#[test]
fn datasource_duplicate_park() {
    let r = Datasource::new(
        vec![
            location("l1", "L1", vec![park("p1", vec![station("s1", "S1")])]),
            location("l2", "L2", vec![park("p1", vec![station("s2", "S2")])]),
        ],
        vec![],
    );
    assert_eq!(error_text(r), "found duplicate park id: p1");
}

#[test]
fn datasource_duplicate_station_names_its_park() {
    let r = Datasource::new(
        vec![
            location("l1", "L1", vec![park("p1", vec![station("s1", "S1")])]),
            location("l2", "L2", vec![park("p2", vec![station("s1", "S1 again")])]),
        ],
        vec![],
    );
    assert_eq!(error_text(r), "found duplicate station id: p2");
}

#[test]
fn datasource_unknown_location() {
    let r = Datasource::new(
        vec![location("l1", "L1", vec![park("p1", vec![station("s1", "S1")])])],
        vec![chat(-42, &["l1", "nowhere", "elsewhere"])],
    );
    assert_eq!(error_text(r), "chat -42 references unknown location id: nowhere");
}

#[test]
fn datasource_duplicate_chat() {
    let r = Datasource::new(
        vec![location("l1", "L1", vec![park("p1", vec![station("s1", "S1")])])],
        vec![chat(7, &["l1"]), chat(8, &["l1"]), chat(7, &["l1"])],
    );
    assert_eq!(error_text(r), "found duplicate chat id: 7");
}

#[test]
fn datasource_first_problem_wins() {
    // the duplicate park comes before the unknown location of a chat
    let r = Datasource::new(
        vec![location("l1", "L1", vec![park("p1", vec![station("s1", "S1")]), park("p1", vec![])])],
        vec![chat(1, &["x"])],
    );
    assert_eq!(error_text(r), "found duplicate park id: p1");
}
