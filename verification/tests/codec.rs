use transit_feed::codec::{
    decode, merge_entity, merge_position, merge_trip, merge_vehicle,
};
use transit_feed::encode::{
    congestion_number, encode, encode_entity, encode_position, encode_trip, encode_vehicle,
    reencode,
};
use transit_feed::model::{
    CongestionLevel, FeedEntity, FeedMessage, Position, TripDescriptor, VehiclePosition,
};
use transit_feed::wire::DecodeError;

fn bus(id: &str, route: &str) -> FeedEntity {
    FeedEntity {
        id: id.to_string(),
        vehicle: Some(VehiclePosition {
            trip: Some(TripDescriptor {
                start_time: Some("14:30:00".to_string()),
                start_date: Some("20230615".to_string()),
                route_id: Some(route.to_string()),
            }),
            position: Some(Position {
                latitude: (-33.8688f32).to_bits(),
                longitude: 151.2093f32.to_bits(),
                bearing: Some(90.0f32.to_bits()),
                speed: Some(12.5f32.to_bits()),
            }),
            congestion_level: Some(CongestionLevel::StopAndGo),
        }),
    }
}

fn empty_trip() -> TripDescriptor {
    TripDescriptor { start_time: None, start_date: None, route_id: None }
}

fn empty_position() -> Position {
    Position { latitude: 0, longitude: 0, bearing: None, speed: None }
}

fn empty_vehicle() -> VehiclePosition {
    VehiclePosition { trip: None, position: None, congestion_level: None }
}

fn empty_entity() -> FeedEntity {
    FeedEntity { id: String::new(), vehicle: None }
}

#[test]
fn empty_buffer_is_an_empty_feed() {
    assert_eq!(decode(&[]), Ok(FeedMessage { entity: vec![] }));
}

#[test]
fn feed_of_one_entity_by_hand() {
    // entity { id: "A" }
    let buf = [0x12u8, 0x03, 0x0a, 0x01, 0x41];
    let feed = decode(&buf).unwrap();
    assert_eq!(feed.entity, vec![FeedEntity { id: "A".to_string(), vehicle: None }]);
}

#[test]
fn feed_with_every_field_by_hand() {
    let buf: Vec<u8> = vec![
        0x12, 0x3c, // entity, 60 bytes
        0x0a, 0x02, 0x76, 0x31, // id "v1"
        0x22, 0x36, // vehicle, 54 bytes
        0x0a, 0x1c, // trip, 28 bytes
        0x12, 0x08, 0x31, 0x34, 0x3a, 0x33, 0x30, 0x3a, 0x30, 0x30, // start_time "14:30:00"
        0x1a, 0x08, 0x32, 0x30, 0x32, 0x33, 0x30, 0x36, 0x31, 0x35, // start_date "20230615"
        0x2a, 0x06, 0x31, 0x32, 0x5f, 0x36, 0x30, 0x31, // route_id "12_601"
        0x12, 0x14, // position, 20 bytes
        0x0d, 0x00, 0x00, 0x80, 0x3f, // latitude 1.0
        0x15, 0x00, 0x00, 0x00, 0x40, // longitude 2.0
        0x1d, 0x00, 0x00, 0xb4, 0x41, // bearing 22.5
        0x2d, 0x00, 0x00, 0x48, 0x41, // speed 12.5
        0x30, 0x02, // congestion level STOP_AND_GO
    ];
    let feed = decode(&buf).unwrap();
    assert_eq!(
        feed.entity,
        vec![FeedEntity {
            id: "v1".to_string(),
            vehicle: Some(VehiclePosition {
                trip: Some(TripDescriptor {
                    start_time: Some("14:30:00".to_string()),
                    start_date: Some("20230615".to_string()),
                    route_id: Some("12_601".to_string()),
                }),
                position: Some(Position {
                    latitude: 1.0f32.to_bits(),
                    longitude: 2.0f32.to_bits(),
                    bearing: Some(22.5f32.to_bits()),
                    speed: Some(12.5f32.to_bits()),
                }),
                congestion_level: Some(CongestionLevel::StopAndGo),
            }),
        }]
    );
    assert_eq!(encode(&feed), buf);
}

#[test]
fn entities_keep_the_order_of_the_buffer() {
    let buf = [
        0x12u8, 0x03, 0x0a, 0x01, 0x62, // "b"
        0x12, 0x03, 0x0a, 0x01, 0x61, // "a"
        0x12, 0x03, 0x0a, 0x01, 0x63, // "c"
    ];
    let feed = decode(&buf).unwrap();
    let ids: Vec<&str> = feed.entity.iter().map(|e| e.id.as_str()).collect();
    assert_eq!(ids, vec!["b", "a", "c"]);
}

#[test]
fn fields_outside_the_record_are_passed_over() {
    let buf: Vec<u8> = vec![
        0x0a, 0x05, 0x0a, 0x03, 0x32, 0x2e, 0x30, // header { version "2.0" }
        0x12, 0x20, // entity, 32 bytes
        0x0a, 0x01, 0x41, // id "A"
        0x10, 0x01, // is_deleted
        0x22, 0x06, // vehicle
        0x28, 0xe8, 0x07, // timestamp 1000
        0x3a, 0x01, 0x73, // stop_id "s"
        0x98, 0x01, 0x05, // field 19, varint
        0xa1, 0x01, 1, 2, 3, 4, 5, 6, 7, 8, // field 20, 64 bits
        0xad, 0x01, 1, 2, 3, 4, // field 21, 32 bits
    ];
    let feed = decode(&buf).unwrap();
    assert_eq!(
        feed.entity,
        vec![FeedEntity { id: "A".to_string(), vehicle: Some(empty_vehicle()) }]
    );
}

#[test]
fn later_value_replaces_earlier() {
    // route_id "1", then route_id "22"
    let trip = merge_trip(&[0x2a, 0x01, 0x31, 0x2a, 0x02, 0x32, 0x32], empty_trip()).unwrap();
    assert_eq!(trip.route_id.as_deref(), Some("22"));
    assert_eq!(trip.start_date, None);
}

#[test]
fn merge_keeps_what_the_buffer_does_not_set() {
    let base = TripDescriptor {
        start_time: Some("01:02:03".to_string()),
        start_date: None,
        route_id: Some("old".to_string()),
    };
    let trip = merge_trip(&[0x2a, 0x03, 0x6e, 0x65, 0x77], base).unwrap();
    assert_eq!(
        trip,
        TripDescriptor {
            start_time: Some("01:02:03".to_string()),
            start_date: None,
            route_id: Some("new".to_string()),
        }
    );
}

#[test]
fn embedded_message_given_twice_is_merged() {
    // vehicle { trip { route_id "7" } trip { start_date "20230615" } }
    let buf: Vec<u8> = vec![
        0x0a, 0x03, 0x2a, 0x01, 0x37, //
        0x0a, 0x0a, 0x1a, 0x08, 0x32, 0x30, 0x32, 0x33, 0x30, 0x36, 0x31, 0x35,
    ];
    let vehicle = merge_vehicle(&buf, empty_vehicle()).unwrap();
    assert_eq!(
        vehicle.trip,
        Some(TripDescriptor {
            start_time: None,
            start_date: Some("20230615".to_string()),
            route_id: Some("7".to_string()),
        })
    );
}

#[test]
fn position_without_fields_is_at_the_origin() {
    // vehicle { position {} }
    let vehicle = merge_vehicle(&[0x12, 0x00], empty_vehicle()).unwrap();
    assert_eq!(vehicle.position, Some(empty_position()));
}

#[test]
fn position_fields_by_number() {
    let buf = [
        0x0du8, 1, 0, 0, 0, // latitude
        0x15, 2, 0, 0, 0, // longitude
        0x1d, 3, 0, 0, 0, // bearing
        0x21, 9, 9, 9, 9, 9, 9, 9, 9, // odometer, passed over
        0x2d, 5, 0, 0, 0, // speed
    ];
    assert_eq!(
        merge_position(&buf, empty_position()),
        Ok(Position { latitude: 1, longitude: 2, bearing: Some(3), speed: Some(5) })
    );
}

#[test]
fn entity_fields_by_number() {
    let entity = merge_entity(&[0x0a, 0x02, 0x78, 0x79, 0x22, 0x00], empty_entity()).unwrap();
    assert_eq!(entity, FeedEntity { id: "xy".to_string(), vehicle: Some(empty_vehicle()) });
}

#[test]
fn every_congestion_level_is_read() {
    let levels = [
        CongestionLevel::UnknownCongestionLevel,
        CongestionLevel::RunningSmoothly,
        CongestionLevel::StopAndGo,
        CongestionLevel::Congestion,
        CongestionLevel::SevereCongestion,
    ];
    for (number, level) in levels.iter().enumerate() {
        assert_eq!(congestion_number(*level), number as u64);
        let vehicle = merge_vehicle(&[0x30, number as u8], empty_vehicle()).unwrap();
        assert_eq!(vehicle.congestion_level, Some(*level));
    }
}

#[test]
fn congestion_level_goes_by_its_low_32_bits() {
    // 2^32 + 2
    let vehicle = merge_vehicle(&[0x30, 0x82, 0x80, 0x80, 0x80, 0x10], empty_vehicle()).unwrap();
    assert_eq!(vehicle.congestion_level, Some(CongestionLevel::StopAndGo));
}

#[test]
fn unknown_congestion_level_is_refused() {
    assert_eq!(merge_vehicle(&[0x30, 0x05], empty_vehicle()), Err(DecodeError::Congestion));
    assert_eq!(
        decode(&[0x12, 0x04, 0x22, 0x02, 0x30, 0x09]),
        Err(DecodeError::Congestion)
    );
    // -1 as a ten-byte varint
    let minus_one = [0x30u8, 0xff, 0xff, 0xff, 0xff, 0xff, 0xff, 0xff, 0xff, 0xff, 0x01];
    assert_eq!(merge_vehicle(&minus_one, empty_vehicle()), Err(DecodeError::Congestion));
}

#[test]
fn malformed_buffer_is_refused_whole() {
    // a sound entity, then an entity that ends early
    let buf = [0x12u8, 0x03, 0x0a, 0x01, 0x41, 0x12, 0x05, 0x0a];
    assert_eq!(decode(&buf), Err(DecodeError::Truncated));
}

#[test]
fn buffer_without_its_last_byte_is_refused() {
    let feed = FeedMessage {
        entity: vec![bus("a", "2436_601"), bus("b", "602"), FeedEntity { id: "c".to_string(), vehicle: None }],
    };
    let mut buf = encode(&feed);
    buf.extend_from_slice(&[0x08, 0x81, 0x00]);
    buf.extend_from_slice(&[0x1d, 1, 2, 3, 4]);
    buf.extend_from_slice(&[0x21, 1, 2, 3, 4, 5, 6, 7, 8]);
    buf.extend_from_slice(&[0x12, 0x00]);
    let mut sound = 0;
    for end in 1..=buf.len() {
        if decode(&buf[..end]).is_ok() {
            sound += 1;
            assert!(decode(&buf[..end - 1]).is_err());
        }
    }
    assert_eq!(sound, 7);
}

#[test]
fn each_decode_error() {
    assert_eq!(decode(&[0x00]), Err(DecodeError::Key));
    assert_eq!(decode(&[0x17]), Err(DecodeError::Key));
    assert_eq!(decode(&[0x13]), Err(DecodeError::Group));
    assert_eq!(decode(&[0x08, 0x80]), Err(DecodeError::Varint));
    assert_eq!(decode(&[0x12, 0x80]), Err(DecodeError::Varint));
    assert_eq!(decode(&[0x12, 0x05, 0x0a]), Err(DecodeError::Truncated));
    assert_eq!(decode(&[0x10, 0x01]), Err(DecodeError::WireType));
    assert_eq!(decode(&[0x12, 0x03, 0x0a, 0x01, 0xff]), Err(DecodeError::Utf8));
    assert_eq!(decode(&[0x12, 0x04, 0x22, 0x02, 0x30, 0x07]), Err(DecodeError::Congestion));
}

#[test]
fn field_with_another_wire_type_is_refused() {
    // id as a varint
    assert_eq!(merge_entity(&[0x08, 0x01], empty_entity()), Err(DecodeError::WireType));
    // vehicle as 32 bits
    assert_eq!(merge_entity(&[0x25, 0, 0, 0, 0], empty_entity()), Err(DecodeError::WireType));
    // trip as a varint, position as a varint, congestion level as bytes
    assert_eq!(merge_vehicle(&[0x08, 0x01], empty_vehicle()), Err(DecodeError::WireType));
    assert_eq!(merge_vehicle(&[0x10, 0x01], empty_vehicle()), Err(DecodeError::WireType));
    assert_eq!(merge_vehicle(&[0x32, 0x00], empty_vehicle()), Err(DecodeError::WireType));
    // route_id as a varint
    assert_eq!(merge_trip(&[0x28, 0x01], empty_trip()), Err(DecodeError::WireType));
    // latitude as a varint, speed as bytes
    assert_eq!(merge_position(&[0x08, 0x01], empty_position()), Err(DecodeError::WireType));
    assert_eq!(merge_position(&[0x2a, 0x00], empty_position()), Err(DecodeError::WireType));
}

#[test]
fn text_must_be_utf8() {
    assert_eq!(merge_trip(&[0x2a, 0x02, 0xc3, 0x28], empty_trip()), Err(DecodeError::Utf8));
    // an encoding longer than needed, a surrogate, a code point past the last one
    assert_eq!(merge_trip(&[0x2a, 0x02, 0xc0, 0x80], empty_trip()), Err(DecodeError::Utf8));
    assert_eq!(merge_trip(&[0x2a, 0x03, 0xed, 0xa0, 0x80], empty_trip()), Err(DecodeError::Utf8));
    assert_eq!(
        merge_trip(&[0x2a, 0x04, 0xf4, 0x90, 0x80, 0x80], empty_trip()),
        Err(DecodeError::Utf8)
    );
    // a character cut short
    assert_eq!(merge_trip(&[0x2a, 0x01, 0xe4], empty_trip()), Err(DecodeError::Utf8));
    let trip = merge_trip(&[0x2a, 0x04, 0xf0, 0x9f, 0x9a, 0x8c], empty_trip()).unwrap();
    assert_eq!(trip.route_id.as_deref(), Some("\u{1f68c}"));
    let trip = merge_trip(&[0x2a, 0x02, 0xc3, 0xa9], empty_trip()).unwrap();
    assert_eq!(trip.route_id.as_deref(), Some("\u{e9}"));
}

#[test]
fn error_inside_an_embedded_message_is_the_feed_s_error() {
    // entity { vehicle { trip { route_id: bytes that end early } } }
    let buf = [0x12u8, 0x06, 0x22, 0x04, 0x0a, 0x02, 0x2a, 0x05];
    assert_eq!(decode(&buf), Err(DecodeError::Truncated));
}

#[test]
fn written_trip_by_hand() {
    let trip = TripDescriptor {
        start_time: None,
        start_date: Some("20230615".to_string()),
        route_id: Some("601".to_string()),
    };
    assert_eq!(
        encode_trip(&trip),
        vec![
            0x1a, 0x08, 0x32, 0x30, 0x32, 0x33, 0x30, 0x36, 0x31, 0x35, //
            0x2a, 0x03, 0x36, 0x30, 0x31,
        ]
    );
    assert_eq!(encode_trip(&empty_trip()), Vec::<u8>::new());
}

#[test]
fn written_position_by_hand() {
    let position = Position {
        latitude: 0x1234_5678,
        longitude: 0,
        bearing: None,
        speed: Some(0x4148_0000),
    };
    assert_eq!(
        encode_position(&position),
        vec![
            0x0d, 0x78, 0x56, 0x34, 0x12, //
            0x15, 0x00, 0x00, 0x00, 0x00, //
            0x2d, 0x00, 0x00, 0x48, 0x41,
        ]
    );
}

#[test]
fn written_vehicle_and_entity_by_hand() {
    let vehicle = VehiclePosition {
        trip: Some(empty_trip()),
        position: None,
        congestion_level: Some(CongestionLevel::SevereCongestion),
    };
    assert_eq!(encode_vehicle(&vehicle), vec![0x0a, 0x00, 0x30, 0x04]);
    let entity = FeedEntity { id: "e".to_string(), vehicle: Some(vehicle) };
    assert_eq!(encode_entity(&entity), vec![0x0a, 0x01, 0x65, 0x22, 0x04, 0x0a, 0x00, 0x30, 0x04]);
}

#[test]
fn length_of_two_bytes_is_written_and_read() {
    let long = "x".repeat(300);
    let entity = FeedEntity { id: long.clone(), vehicle: None };
    let bytes = encode_entity(&entity);
    assert_eq!(&bytes[..3], &[0x0a, 0xac, 0x02]);
    assert_eq!(bytes.len(), 303);
    assert_eq!(merge_entity(&bytes, empty_entity()), Ok(entity));
}

#[test]
fn decoding_what_was_written_gives_the_feed() {
    let feed = FeedMessage {
        entity: vec![
            bus("a", "2436_601"),
            FeedEntity { id: String::new(), vehicle: None },
            FeedEntity { id: "b\u{fc}s".to_string(), vehicle: Some(empty_vehicle()) },
            FeedEntity {
                id: "c".to_string(),
                vehicle: Some(VehiclePosition {
                    trip: Some(empty_trip()),
                    position: Some(empty_position()),
                    congestion_level: Some(CongestionLevel::UnknownCongestionLevel),
                }),
            },
            bus("d", ""),
        ],
    };
    assert_eq!(decode(&encode(&feed)), Ok(feed));
}

#[test]
fn writing_again_loses_nothing() {
    // a header, and an entity whose vehicle comes twice, its id in between
    let buf: Vec<u8> = vec![
        0x0a, 0x00, // header
        0x12, 0x11, // entity, 17 bytes
        0x22, 0x05, 0x30, 0x81, 0x00, 0x12, 0x00, // vehicle: padded level 1, empty position
        0x0a, 0x01, 0x41, // id "A"
        0x22, 0x05, 0x0a, 0x03, 0x2a, 0x01, 0x37, // vehicle again: trip { route_id "7" }
    ];
    let first = decode(&buf).unwrap();
    assert_eq!(
        first.entity,
        vec![FeedEntity {
            id: "A".to_string(),
            vehicle: Some(VehiclePosition {
                trip: Some(TripDescriptor {
                    start_time: None,
                    start_date: None,
                    route_id: Some("7".to_string()),
                }),
                position: Some(empty_position()),
                congestion_level: Some(CongestionLevel::RunningSmoothly),
            }),
        }]
    );
    let again = encode(&first);
    assert_ne!(again, buf);
    assert_eq!(decode(&again), Ok(first));
}

#[test]
fn buffer_written_anew_holds_what_the_records_hold() {
    let buf: Vec<u8> = vec![
        0x0a, 0x00, // header
        0x12, 0x07, // entity
        0x10, 0x01, // is_deleted
        0x0a, 0x03, 0x62, 0x75, 0x73, // id "bus"
        0x12, 0x00, // entity without fields
    ];
    let written = reencode(&buf).unwrap();
    assert_eq!(
        written,
        vec![
            0x12, 0x05, 0x0a, 0x03, 0x62, 0x75, 0x73, // entity { id "bus" }
            0x12, 0x02, 0x0a, 0x00, // entity { id "" }
        ]
    );
    assert_eq!(decode(&written), decode(&buf));
    assert_eq!(reencode(&written), Ok(written));
    assert_eq!(reencode(&[]), Ok(vec![]));
    assert_eq!(reencode(&[0x12]), Err(DecodeError::Varint));
}

#[test]
fn message_written_with_prost_is_read() {
    let mut trip: Vec<u8> = Vec::new();
    prost::encoding::string::encode(2, &"23:59:59".to_string(), &mut trip);
    prost::encoding::string::encode(3, &"20240229".to_string(), &mut trip);
    prost::encoding::string::encode(5, &"N_601".to_string(), &mut trip);
    let mut position: Vec<u8> = Vec::new();
    prost::encoding::fixed32::encode(1, &7, &mut position);
    prost::encoding::fixed32::encode(2, &8, &mut position);
    prost::encoding::fixed32::encode(3, &0x4334_0000, &mut position);
    prost::encoding::fixed32::encode(5, &9, &mut position);
    let mut vehicle: Vec<u8> = Vec::new();
    prost::encoding::bytes::encode(1, &trip, &mut vehicle);
    prost::encoding::bytes::encode(2, &position, &mut vehicle);
    prost::encoding::int32::encode(6, &3, &mut vehicle);
    prost::encoding::uint64::encode(5, &1_700_000_000, &mut vehicle);
    let mut entity: Vec<u8> = Vec::new();
    prost::encoding::string::encode(1, &"bus 12".to_string(), &mut entity);
    prost::encoding::bytes::encode(4, &vehicle, &mut entity);
    let mut buf: Vec<u8> = Vec::new();
    prost::encoding::bytes::encode(2, &entity, &mut buf);

    let feed = decode(&buf).unwrap();
    assert_eq!(
        feed.entity,
        vec![FeedEntity {
            id: "bus 12".to_string(),
            vehicle: Some(VehiclePosition {
                trip: Some(TripDescriptor {
                    start_time: Some("23:59:59".to_string()),
                    start_date: Some("20240229".to_string()),
                    route_id: Some("N_601".to_string()),
                }),
                position: Some(Position {
                    latitude: 7,
                    longitude: 8,
                    bearing: Some(0x4334_0000),
                    speed: Some(9),
                }),
                congestion_level: Some(CongestionLevel::Congestion),
            }),
        }]
    );
}
