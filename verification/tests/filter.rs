use transit_feed::filter::{entity_serves_route, filter_by_route};
use transit_feed::model::{FeedEntity, FeedMessage, TripDescriptor, VehiclePosition};
use transit_feed::text::{chars_of, text_ends_with};

fn on_route(id: &str, route: Option<&str>) -> FeedEntity {
    FeedEntity {
        id: id.to_string(),
        vehicle: Some(VehiclePosition {
            trip: Some(TripDescriptor {
                start_time: None,
                start_date: None,
                route_id: route.map(|r| r.to_string()),
            }),
            position: None,
            congestion_level: None,
        }),
    }
}

fn sample() -> FeedMessage {
    FeedMessage {
        entity: vec![
            on_route("a", Some("2436_601")),
            on_route("b", Some("2436_602")),
            FeedEntity { id: "c".to_string(), vehicle: None },
            on_route("d", Some("601")),
            FeedEntity {
                id: "e".to_string(),
                vehicle: Some(VehiclePosition {
                    trip: None,
                    position: None,
                    congestion_level: None,
                }),
            },
            on_route("f", None),
            on_route("g", Some("6010")),
            on_route("h", Some("N601")),
            on_route("a", Some("2436_601")),
        ],
    }
}

#[test]
fn suffix_test_on_text() {
    assert!(text_ends_with("2436_601", "601"));
    assert!(text_ends_with("601", "601"));
    assert!(text_ends_with("601", ""));
    assert!(text_ends_with("", ""));
    assert!(!text_ends_with("01", "601"));
    assert!(!text_ends_with("6010", "601"));
    assert!(!text_ends_with("", "601"));
    assert!(text_ends_with("stra\u{df}e", "\u{df}e"));
    assert!(!text_ends_with("stra\u{df}e", "se"));
}

#[test]
fn characters_of_a_text() {
    assert_eq!(chars_of(""), Vec::<char>::new());
    assert_eq!(chars_of("a\u{e9}\u{4e2d}\u{1f68c}"), vec!['a', '\u{e9}', '\u{4e2d}', '\u{1f68c}']);
}

#[test]
fn entity_with_a_matching_route() {
    assert!(entity_serves_route(&on_route("a", Some("2436_601")), "601"));
    assert!(!entity_serves_route(&on_route("a", Some("2436_602")), "601"));
}

#[test]
fn entity_without_a_route_serves_none() {
    let bare = FeedEntity { id: "601".to_string(), vehicle: None };
    assert!(!entity_serves_route(&bare, "601"));
    assert!(!entity_serves_route(&bare, ""));
    assert!(!entity_serves_route(&on_route("601", None), ""));
}

#[test]
fn filter_keeps_the_matching_entities_in_order() {
    let feed = sample();
    let found = filter_by_route(&feed, "601");
    let ids: Vec<&str> = found.iter().map(|e| e.id.as_str()).collect();
    assert_eq!(ids, vec!["a", "d", "h", "a"]);
    assert!(std::ptr::eq(found[0], &feed.entity[0]));
    assert!(std::ptr::eq(found[1], &feed.entity[3]));
    assert!(std::ptr::eq(found[2], &feed.entity[7]));
    assert!(std::ptr::eq(found[3], &feed.entity[8]));
}

#[test]
fn filter_holds_exactly_what_matches() {
    let feed = sample();
    for suffix in ["601", "602", "", "2436_601", "0", "x", "436_601"] {
        let found = filter_by_route(&feed, suffix);
        let expected: Vec<&FeedEntity> = feed
            .entity
            .iter()
            .filter(|e| {
                e.vehicle
                    .as_ref()
                    .and_then(|v| v.trip.as_ref())
                    .and_then(|t| t.route_id.as_ref())
                    .map(|r| r.ends_with(suffix))
                    .unwrap_or(false)
            })
            .collect();
        assert_eq!(found, expected);
    }
}

#[test]
fn filter_with_an_empty_suffix_takes_every_route() {
    let feed = sample();
    let found = filter_by_route(&feed, "");
    let ids: Vec<&str> = found.iter().map(|e| e.id.as_str()).collect();
    assert_eq!(ids, vec!["a", "b", "d", "g", "h", "a"]);
}

#[test]
fn filter_without_a_match_is_empty() {
    let feed = sample();
    assert!(filter_by_route(&feed, "999").is_empty());
    assert!(filter_by_route(&FeedMessage { entity: vec![] }, "601").is_empty());
}
