//! The feed's schema over the wire format.
//!
//! A message is a run of fields. Decoding starts from a record and lets each
//! field in turn update it: a text or a number replaces what the record
//! held, an embedded message is merged into what it held, an entity is added
//! to the feed. Fields that the record does not have are passed over.

use crate::model::{
    empty_entity, empty_position, empty_trip, empty_vehicle, entity_views, CongestionLevel,
    EntityView, FeedEntity, FeedMessage, FeedView, Position, TripDescriptor, TripView,
    VehiclePosition, VehicleView,
};
use crate::text::string_from_utf8;
use crate::wire::{
    lemma_parse_field_cut, lemma_parse_field_len, parse_field, read_field, DecodeError,
    FieldView, Payload, WireValue,
};
use vstd::prelude::*;
use vstd::slice::slice_to_vec;
use vstd::utf8::{decode_utf8, valid_utf8};

verus! {

/// The text that a field value holds.
pub open spec fn text_of(payload: Payload) -> Result<Seq<char>, DecodeError> {
    match payload {
        Payload::Bytes(b) => if valid_utf8(b) {
            Ok(decode_utf8(b))
        } else {
            Err(DecodeError::Utf8)
        },
        _ => Err(DecodeError::WireType),
    }
}

/// The single-precision bit pattern that a field value holds.
pub open spec fn bits_of(payload: Payload) -> Result<u32, DecodeError> {
    match payload {
        Payload::Fixed32(bits) => Ok(bits),
        _ => Err(DecodeError::WireType),
    }
}

/// The congestion level of a number of the schema.
pub open spec fn level_of(number: int) -> Option<CongestionLevel> {
    if number == 0 {
        Some(CongestionLevel::UnknownCongestionLevel)
    } else if number == 1 {
        Some(CongestionLevel::RunningSmoothly)
    } else if number == 2 {
        Some(CongestionLevel::StopAndGo)
    } else if number == 3 {
        Some(CongestionLevel::Congestion)
    } else if number == 4 {
        Some(CongestionLevel::SevereCongestion)
    } else {
        None
    }
}

/// The congestion level that a field value holds: the level whose number
/// the low 32 bits of the varint give.
pub open spec fn congestion_of(payload: Payload) -> Result<CongestionLevel, DecodeError> {
    match payload {
        Payload::Varint(v) => match level_of(v as int % 0x1_0000_0000) {
            Some(level) => Ok(level),
            None => Err(DecodeError::Congestion),
        },
        _ => Err(DecodeError::WireType),
    }
}

/// A trip after one field.
pub open spec fn trip_apply(trip: TripView, field: FieldView) -> Result<TripView, DecodeError> {
    if field.number == 2 {
        match text_of(field.payload) {
            Ok(t) => Ok(TripView { start_time: Some(t), ..trip }),
            Err(e) => Err(e),
        }
    } else if field.number == 3 {
        match text_of(field.payload) {
            Ok(t) => Ok(TripView { start_date: Some(t), ..trip }),
            Err(e) => Err(e),
        }
    } else if field.number == 5 {
        match text_of(field.payload) {
            Ok(t) => Ok(TripView { route_id: Some(t), ..trip }),
            Err(e) => Err(e),
        }
    } else {
        Ok(trip)
    }
}

/// A trip after the fields of `s`.
pub open spec fn trip_merge(s: Seq<u8>, trip: TripView) -> Result<TripView, DecodeError>
    decreases s.len(),
    via trip_merge_decreases
{
    if s.len() == 0 {
        Ok(trip)
    } else {
        match parse_field(s) {
            Err(e) => Err(e),
            Ok((field, len)) => match trip_apply(trip, field) {
                Err(e) => Err(e),
                Ok(next) => trip_merge(s.skip(len), next),
            },
        }
    }
}

#[via_fn]
proof fn trip_merge_decreases(s: Seq<u8>, trip: TripView) {
    if parse_field(s) is Ok {
        lemma_parse_field_len(s);
    }
}

/// A position after one field.
pub open spec fn position_apply(position: Position, field: FieldView) -> Result<
    Position,
    DecodeError,
> {
    if field.number == 1 {
        match bits_of(field.payload) {
            Ok(bits) => Ok(Position { latitude: bits, ..position }),
            Err(e) => Err(e),
        }
    } else if field.number == 2 {
        match bits_of(field.payload) {
            Ok(bits) => Ok(Position { longitude: bits, ..position }),
            Err(e) => Err(e),
        }
    } else if field.number == 3 {
        match bits_of(field.payload) {
            Ok(bits) => Ok(Position { bearing: Some(bits), ..position }),
            Err(e) => Err(e),
        }
    } else if field.number == 5 {
        match bits_of(field.payload) {
            Ok(bits) => Ok(Position { speed: Some(bits), ..position }),
            Err(e) => Err(e),
        }
    } else {
        Ok(position)
    }
}

/// A position after the fields of `s`.
pub open spec fn position_merge(s: Seq<u8>, position: Position) -> Result<Position, DecodeError>
    decreases s.len(),
    via position_merge_decreases
{
    if s.len() == 0 {
        Ok(position)
    } else {
        match parse_field(s) {
            Err(e) => Err(e),
            Ok((field, len)) => match position_apply(position, field) {
                Err(e) => Err(e),
                Ok(next) => position_merge(s.skip(len), next),
            },
        }
    }
}

#[via_fn]
proof fn position_merge_decreases(s: Seq<u8>, position: Position) {
    if parse_field(s) is Ok {
        lemma_parse_field_len(s);
    }
}

/// The trip that an embedded trip message is merged into.
pub open spec fn trip_or_empty(trip: Option<TripView>) -> TripView {
    match trip {
        Some(t) => t,
        None => empty_trip(),
    }
}

/// The position that an embedded position message is merged into.
pub open spec fn position_or_empty(position: Option<Position>) -> Position {
    match position {
        Some(p) => p,
        None => empty_position(),
    }
}

/// The vehicle report that an embedded vehicle message is merged into.
pub open spec fn vehicle_or_empty(vehicle: Option<VehicleView>) -> VehicleView {
    match vehicle {
        Some(v) => v,
        None => empty_vehicle(),
    }
}

/// A vehicle report after one field.
pub open spec fn vehicle_apply(vehicle: VehicleView, field: FieldView) -> Result<
    VehicleView,
    DecodeError,
> {
    if field.number == 1 {
        match field.payload {
            Payload::Bytes(b) => match trip_merge(b, trip_or_empty(vehicle.trip)) {
                Ok(t) => Ok(VehicleView { trip: Some(t), ..vehicle }),
                Err(e) => Err(e),
            },
            _ => Err(DecodeError::WireType),
        }
    } else if field.number == 2 {
        match field.payload {
            Payload::Bytes(b) => match position_merge(b, position_or_empty(vehicle.position)) {
                Ok(p) => Ok(VehicleView { position: Some(p), ..vehicle }),
                Err(e) => Err(e),
            },
            _ => Err(DecodeError::WireType),
        }
    } else if field.number == 6 {
        match congestion_of(field.payload) {
            Ok(level) => Ok(VehicleView { congestion_level: Some(level), ..vehicle }),
            Err(e) => Err(e),
        }
    } else {
        Ok(vehicle)
    }
}

/// A vehicle report after the fields of `s`.
pub open spec fn vehicle_merge(s: Seq<u8>, vehicle: VehicleView) -> Result<
    VehicleView,
    DecodeError,
>
    decreases s.len(),
    via vehicle_merge_decreases
{
    if s.len() == 0 {
        Ok(vehicle)
    } else {
        match parse_field(s) {
            Err(e) => Err(e),
            Ok((field, len)) => match vehicle_apply(vehicle, field) {
                Err(e) => Err(e),
                Ok(next) => vehicle_merge(s.skip(len), next),
            },
        }
    }
}

#[via_fn]
proof fn vehicle_merge_decreases(s: Seq<u8>, vehicle: VehicleView) {
    if parse_field(s) is Ok {
        lemma_parse_field_len(s);
    }
}

/// An entity after one field.
pub open spec fn entity_apply(entity: EntityView, field: FieldView) -> Result<
    EntityView,
    DecodeError,
> {
    if field.number == 1 {
        match text_of(field.payload) {
            Ok(t) => Ok(EntityView { id: t, ..entity }),
            Err(e) => Err(e),
        }
    } else if field.number == 4 {
        match field.payload {
            Payload::Bytes(b) => match vehicle_merge(b, vehicle_or_empty(entity.vehicle)) {
                Ok(v) => Ok(EntityView { vehicle: Some(v), ..entity }),
                Err(e) => Err(e),
            },
            _ => Err(DecodeError::WireType),
        }
    } else {
        Ok(entity)
    }
}

/// An entity after the fields of `s`.
pub open spec fn entity_merge(s: Seq<u8>, entity: EntityView) -> Result<EntityView, DecodeError>
    decreases s.len(),
    via entity_merge_decreases
{
    if s.len() == 0 {
        Ok(entity)
    } else {
        match parse_field(s) {
            Err(e) => Err(e),
            Ok((field, len)) => match entity_apply(entity, field) {
                Err(e) => Err(e),
                Ok(next) => entity_merge(s.skip(len), next),
            },
        }
    }
}

#[via_fn]
proof fn entity_merge_decreases(s: Seq<u8>, entity: EntityView) {
    if parse_field(s) is Ok {
        lemma_parse_field_len(s);
    }
}

/// A feed after one field: an entity is decoded on its own and added at the
/// end.
pub open spec fn feed_apply(feed: FeedView, field: FieldView) -> Result<FeedView, DecodeError> {
    if field.number == 2 {
        match field.payload {
            Payload::Bytes(b) => match entity_merge(b, empty_entity()) {
                Ok(e) => Ok(FeedView { entity: feed.entity.push(e) }),
                Err(e) => Err(e),
            },
            _ => Err(DecodeError::WireType),
        }
    } else {
        Ok(feed)
    }
}

/// A feed after the fields of `s`.
pub open spec fn feed_merge(s: Seq<u8>, feed: FeedView) -> Result<FeedView, DecodeError>
    decreases s.len(),
    via feed_merge_decreases
{
    if s.len() == 0 {
        Ok(feed)
    } else {
        match parse_field(s) {
            Err(e) => Err(e),
            Ok((field, len)) => match feed_apply(feed, field) {
                Err(e) => Err(e),
                Ok(next) => feed_merge(s.skip(len), next),
            },
        }
    }
}

#[via_fn]
proof fn feed_merge_decreases(s: Seq<u8>, feed: FeedView) {
    if parse_field(s) is Ok {
        lemma_parse_field_len(s);
    }
}

/// The feed that the buffer `s` encodes, or why it encodes none.
pub open spec fn decode_feed(s: Seq<u8>) -> Result<FeedView, DecodeError> {
    feed_merge(s, FeedView { entity: Seq::empty() })
}

proof fn lemma_cut_short(s: Seq<u8>, feed: FeedView)
    requires
        s.len() > 0,
        feed_merge(s, feed) is Ok,
    ensures
        feed_merge(s.drop_last(), feed) is Err,
    decreases s.len(),
{
    let (field, len) = parse_field(s).unwrap();
    let cut = s.drop_last();
    lemma_parse_field_len(s);
    lemma_parse_field_cut(s, s.len() - 1);
    assert(cut =~= s.take(s.len() - 1));
    if len < s.len() {
        let next = feed_apply(feed, field).unwrap();
        assert(cut.skip(len) =~= s.skip(len).drop_last());
        lemma_cut_short(s.skip(len), next);
    }
}

/// A feed's buffer that has lost its last byte is no feed: the field that
/// the byte belonged to is cut short.
pub proof fn lemma_cut_short_is_refused(buf: Seq<u8>)
    requires
        buf.len() > 0,
        decode_feed(buf) is Ok,
    ensures
        decode_feed(buf.drop_last()) is Err,
{
    lemma_cut_short(buf, FeedView { entity: Seq::empty() });
}

/// View of an optional trip.
pub open spec fn trip_view(trip: Option<TripDescriptor>) -> Option<TripView> {
    match trip {
        Some(t) => Some(t@),
        None => None,
    }
}

/// View of an optional vehicle report.
pub open spec fn vehicle_view(vehicle: Option<VehiclePosition>) -> Option<VehicleView> {
    match vehicle {
        Some(v) => Some(v@),
        None => None,
    }
}

fn read_text(value: WireValue<'_>) -> (r: Result<String, DecodeError>)
    ensures
        match r {
            Ok(t) => text_of(value@) == Ok::<Seq<char>, DecodeError>(t@),
            Err(e) => text_of(value@) == Err::<Seq<char>, DecodeError>(e),
        },
{
    match value {
        WireValue::Bytes(b) => match string_from_utf8(slice_to_vec(b)) {
            Some(t) => Ok(t),
            None => Err(DecodeError::Utf8),
        },
        _ => Err(DecodeError::WireType),
    }
}

fn read_bits(value: WireValue<'_>) -> (r: Result<u32, DecodeError>)
    ensures
        r == bits_of(value@),
{
    match value {
        WireValue::Fixed32(bits) => Ok(bits),
        _ => Err(DecodeError::WireType),
    }
}

fn read_congestion(value: WireValue<'_>) -> (r: Result<CongestionLevel, DecodeError>)
    ensures
        r == congestion_of(value@),
{
    match value {
        WireValue::Varint(v) => {
            let number: u64 = v % 0x1_0000_0000;
            if number == 0 {
                Ok(CongestionLevel::UnknownCongestionLevel)
            } else if number == 1 {
                Ok(CongestionLevel::RunningSmoothly)
            } else if number == 2 {
                Ok(CongestionLevel::StopAndGo)
            } else if number == 3 {
                Ok(CongestionLevel::Congestion)
            } else if number == 4 {
                Ok(CongestionLevel::SevereCongestion)
            } else {
                Err(DecodeError::Congestion)
            }
        },
        _ => Err(DecodeError::WireType),
    }
}

/// Lets the fields of `buf` update `trip`, one after the other.
pub fn merge_trip(buf: &[u8], trip: TripDescriptor) -> (r: Result<TripDescriptor, DecodeError>)
    ensures
        match r {
            Ok(t) => trip_merge(buf@, trip@) == Ok::<TripView, DecodeError>(t@),
            Err(e) => trip_merge(buf@, trip@) == Err::<TripView, DecodeError>(e),
        },
{
    let mut current = trip;
    let mut rest = buf;
    while rest.len() > 0
        invariant
            trip_merge(buf@, trip@) == trip_merge(rest@, current@),
        decreases rest@.len(),
    {
        let (field, tail) = match read_field(rest) {
            Ok(found) => found,
            Err(e) => { return Err(e); },
        };
        if field.number == 2 {
            match read_text(field.value) {
                Ok(t) => { current.start_time = Some(t); },
                Err(e) => { return Err(e); },
            }
        } else if field.number == 3 {
            match read_text(field.value) {
                Ok(t) => { current.start_date = Some(t); },
                Err(e) => { return Err(e); },
            }
        } else if field.number == 5 {
            match read_text(field.value) {
                Ok(t) => { current.route_id = Some(t); },
                Err(e) => { return Err(e); },
            }
        }
        rest = tail;
    }
    Ok(current)
}

/// Lets the fields of `buf` update `position`, one after the other.
pub fn merge_position(buf: &[u8], position: Position) -> (r: Result<Position, DecodeError>)
    ensures
        r == position_merge(buf@, position),
{
    let mut current = position;
    let mut rest = buf;
    while rest.len() > 0
        invariant
            position_merge(buf@, position) == position_merge(rest@, current),
        decreases rest@.len(),
    {
        let (field, tail) = match read_field(rest) {
            Ok(found) => found,
            Err(e) => { return Err(e); },
        };
        if field.number == 1 {
            match read_bits(field.value) {
                Ok(bits) => { current.latitude = bits; },
                Err(e) => { return Err(e); },
            }
        } else if field.number == 2 {
            match read_bits(field.value) {
                Ok(bits) => { current.longitude = bits; },
                Err(e) => { return Err(e); },
            }
        } else if field.number == 3 {
            match read_bits(field.value) {
                Ok(bits) => { current.bearing = Some(bits); },
                Err(e) => { return Err(e); },
            }
        } else if field.number == 5 {
            match read_bits(field.value) {
                Ok(bits) => { current.speed = Some(bits); },
                Err(e) => { return Err(e); },
            }
        }
        rest = tail;
    }
    Ok(current)
}

/// Lets the fields of `buf` update `vehicle`, one after the other.
pub fn merge_vehicle(buf: &[u8], vehicle: VehiclePosition) -> (r: Result<
    VehiclePosition,
    DecodeError,
>)
    ensures
        match r {
            Ok(v) => vehicle_merge(buf@, vehicle@) == Ok::<VehicleView, DecodeError>(v@),
            Err(e) => vehicle_merge(buf@, vehicle@) == Err::<VehicleView, DecodeError>(e),
        },
{
    let ghost start = vehicle@;
    let VehiclePosition { trip, position, congestion_level } = vehicle;
    let mut trip = trip;
    let mut position = position;
    let mut congestion_level = congestion_level;
    assert(start == VehicleView { trip: trip_view(trip), position, congestion_level });
    let mut rest = buf;
    while rest.len() > 0
        invariant
            start == vehicle@,
            vehicle_merge(buf@, start) == vehicle_merge(
                rest@,
                VehicleView { trip: trip_view(trip), position, congestion_level },
            ),
        decreases rest@.len(),
    {
        let (field, tail) = match read_field(rest) {
            Ok(found) => found,
            Err(e) => { return Err(e); },
        };
        if field.number == 1 {
            match field.value {
                WireValue::Bytes(b) => {
                    let base = match trip {
                        Some(t) => t,
                        None => TripDescriptor { start_time: None, start_date: None, route_id: None },
                    };
                    match merge_trip(b, base) {
                        Ok(t) => { trip = Some(t); },
                        Err(e) => { return Err(e); },
                    }
                },
                _ => { return Err(DecodeError::WireType); },
            }
        } else if field.number == 2 {
            match field.value {
                WireValue::Bytes(b) => {
                    let base = match position {
                        Some(p) => p,
                        None => Position { latitude: 0, longitude: 0, bearing: None, speed: None },
                    };
                    match merge_position(b, base) {
                        Ok(p) => { position = Some(p); },
                        Err(e) => { return Err(e); },
                    }
                },
                _ => { return Err(DecodeError::WireType); },
            }
        } else if field.number == 6 {
            match read_congestion(field.value) {
                Ok(level) => { congestion_level = Some(level); },
                Err(e) => { return Err(e); },
            }
        }
        rest = tail;
    }
    Ok(VehiclePosition { trip, position, congestion_level })
}

/// Lets the fields of `buf` update `entity`, one after the other.
pub fn merge_entity(buf: &[u8], entity: FeedEntity) -> (r: Result<FeedEntity, DecodeError>)
    ensures
        match r {
            Ok(e) => entity_merge(buf@, entity@) == Ok::<EntityView, DecodeError>(e@),
            Err(e) => entity_merge(buf@, entity@) == Err::<EntityView, DecodeError>(e),
        },
{
    let ghost start = entity@;
    let FeedEntity { id, vehicle } = entity;
    let mut id = id;
    let mut vehicle = vehicle;
    let mut rest = buf;
    while rest.len() > 0
        invariant
            start == entity@,
            entity_merge(buf@, start) == entity_merge(
                rest@,
                EntityView { id: id@, vehicle: vehicle_view(vehicle) },
            ),
        decreases rest@.len(),
    {
        let (field, tail) = match read_field(rest) {
            Ok(found) => found,
            Err(e) => { return Err(e); },
        };
        if field.number == 1 {
            match read_text(field.value) {
                Ok(t) => { id = t; },
                Err(e) => { return Err(e); },
            }
        } else if field.number == 4 {
            match field.value {
                WireValue::Bytes(b) => {
                    let base = match vehicle {
                        Some(v) => v,
                        None => VehiclePosition { trip: None, position: None, congestion_level: None },
                    };
                    match merge_vehicle(b, base) {
                        Ok(v) => { vehicle = Some(v); },
                        Err(e) => { return Err(e); },
                    }
                },
                _ => { return Err(DecodeError::WireType); },
            }
        }
        rest = tail;
    }
    Ok(FeedEntity { id, vehicle })
}

/// Decodes a feed. The buffer is taken whole: either every field of it is
/// well formed and the feed holds every entity, in the buffer's order, or
/// there is no feed.
pub fn decode(buf: &[u8]) -> (r: Result<FeedMessage, DecodeError>)
    ensures
        match r {
            Ok(feed) => decode_feed(buf@) == Ok::<FeedView, DecodeError>(feed@),
            Err(e) => decode_feed(buf@) == Err::<FeedView, DecodeError>(e),
        },
{
    let mut entities: Vec<FeedEntity> = Vec::new();
    let mut rest = buf;
    assert(entity_views(entities@) =~= Seq::empty());
    while rest.len() > 0
        invariant
            decode_feed(buf@) == feed_merge(rest@, FeedView { entity: entity_views(entities@) }),
        decreases rest@.len(),
    {
        let (field, tail) = match read_field(rest) {
            Ok(found) => found,
            Err(e) => { return Err(e); },
        };
        if field.number == 2 {
            match field.value {
                WireValue::Bytes(b) => {
                    let base = FeedEntity { id: String::new(), vehicle: None };
                    assert(base@ == empty_entity());
                    match merge_entity(b, base) {
                        Ok(e) => {
                            let ghost before = entities@;
                            entities.push(e);
                            assert(entity_views(entities@) =~= entity_views(before).push(e@));
                        },
                        Err(e) => { return Err(e); },
                    }
                },
                _ => { return Err(DecodeError::WireType); },
            }
        }
        rest = tail;
    }
    Ok(FeedMessage { entity: entities })
}

} // verus!
