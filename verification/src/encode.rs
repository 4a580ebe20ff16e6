//! Writing a feed in the wire format.
//!
//! Every field that a record holds is written once, in the order of the
//! field numbers, each varint in its shortest form. What was written
//! decodes to the feed that was written, which [`crate::roundtrip`] proves.

use crate::codec::{decode, decode_feed};
use crate::model::{
    text_view, CongestionLevel, EntityView, FeedEntity, FeedMessage, FeedView, Position,
    TripDescriptor, TripView, VehiclePosition, VehicleView,
};
use crate::roundtrip::lemma_decode_encoded;
use crate::wire::DecodeError;
use vstd::prelude::*;
use vstd::slice::slice_to_vec;
use vstd::utf8::encode_utf8;

verus! {

/// The shortest varint of `value`: seven bits to a byte, the lowest first,
/// every byte but the last with its top bit set.
pub open spec fn varint_bytes(value: nat) -> Seq<u8>
    decreases value,
{
    if value < 128 {
        seq![value as u8]
    } else {
        seq![(128 + value % 128) as u8] + varint_bytes(value / 128)
    }
}

/// The four bytes of `value`, lowest byte first.
pub open spec fn le32_bytes(value: u32) -> Seq<u8> {
    seq![
        (value % 0x100) as u8,
        (value / 0x100 % 0x100) as u8,
        (value / 0x1_0000 % 0x100) as u8,
        (value / 0x100_0000) as u8,
    ]
}

/// The key of field `number` with wire type `wire`.
pub open spec fn key_bytes(number: u32, wire: int) -> Seq<u8> {
    varint_bytes((number * 8 + wire) as nat)
}

/// A field that holds `body` behind its length.
pub open spec fn bytes_field(number: u32, body: Seq<u8>) -> Seq<u8> {
    key_bytes(number, 2) + varint_bytes(body.len()) + body
}

/// A field that holds a single-precision bit pattern.
pub open spec fn bits_field(number: u32, bits: u32) -> Seq<u8> {
    key_bytes(number, 5) + le32_bytes(bits)
}

/// A field that holds a varint.
pub open spec fn varint_field(number: u32, value: u64) -> Seq<u8> {
    key_bytes(number, 0) + varint_bytes(value as nat)
}

/// A text field where there is a text, nothing where there is none.
pub open spec fn optional_text(number: u32, text: Option<Seq<char>>) -> Seq<u8> {
    match text {
        Some(t) => bytes_field(number, encode_utf8(t)),
        None => Seq::empty(),
    }
}

/// A bit-pattern field where there is a pattern, nothing where there is none.
pub open spec fn optional_bits(number: u32, bits: Option<u32>) -> Seq<u8> {
    match bits {
        Some(b) => bits_field(number, b),
        None => Seq::empty(),
    }
}

/// The number of a congestion level in the schema.
pub open spec fn number_of(level: CongestionLevel) -> u64 {
    match level {
        CongestionLevel::UnknownCongestionLevel => 0,
        CongestionLevel::RunningSmoothly => 1,
        CongestionLevel::StopAndGo => 2,
        CongestionLevel::Congestion => 3,
        CongestionLevel::SevereCongestion => 4,
    }
}

/// A trip on the wire.
pub open spec fn trip_bytes(trip: TripView) -> Seq<u8> {
    optional_text(2, trip.start_time) + (optional_text(3, trip.start_date) + optional_text(
        5,
        trip.route_id,
    ))
}

/// A position on the wire.
pub open spec fn position_bytes(position: Position) -> Seq<u8> {
    bits_field(1, position.latitude) + (bits_field(2, position.longitude) + (optional_bits(
        3,
        position.bearing,
    ) + optional_bits(5, position.speed)))
}

/// The trip field of a vehicle report.
pub open spec fn optional_trip(trip: Option<TripView>) -> Seq<u8> {
    match trip {
        Some(t) => bytes_field(1, trip_bytes(t)),
        None => Seq::empty(),
    }
}

/// The position field of a vehicle report.
pub open spec fn optional_position(position: Option<Position>) -> Seq<u8> {
    match position {
        Some(p) => bytes_field(2, position_bytes(p)),
        None => Seq::empty(),
    }
}

/// The congestion field of a vehicle report.
pub open spec fn optional_congestion(level: Option<CongestionLevel>) -> Seq<u8> {
    match level {
        Some(l) => varint_field(6, number_of(l)),
        None => Seq::empty(),
    }
}

/// A vehicle report on the wire.
pub open spec fn vehicle_bytes(vehicle: VehicleView) -> Seq<u8> {
    optional_trip(vehicle.trip) + (optional_position(vehicle.position) + optional_congestion(
        vehicle.congestion_level,
    ))
}

/// The vehicle field of an entity.
pub open spec fn optional_vehicle(vehicle: Option<VehicleView>) -> Seq<u8> {
    match vehicle {
        Some(v) => bytes_field(4, vehicle_bytes(v)),
        None => Seq::empty(),
    }
}

/// An entity on the wire.
pub open spec fn entity_bytes(entity: EntityView) -> Seq<u8> {
    bytes_field(1, encode_utf8(entity.id)) + optional_vehicle(entity.vehicle)
}

/// Entities on the wire, one field each.
pub open spec fn entities_bytes(entities: Seq<EntityView>) -> Seq<u8>
    decreases entities.len(),
{
    if entities.len() == 0 {
        Seq::empty()
    } else {
        bytes_field(2, entity_bytes(entities.first())) + entities_bytes(entities.drop_first())
    }
}

/// A feed on the wire.
pub open spec fn feed_bytes(feed: FeedView) -> Seq<u8> {
    entities_bytes(feed.entity)
}

/// The length of `body` can stand in front of it: it fits in 64 bits.
pub open spec fn fits(body: Seq<u8>) -> bool {
    body.len() <= u64::MAX
}

/// Every length that the trip's encoding holds fits in 64 bits.
pub open spec fn trip_fits(trip: TripView) -> bool {
    &&& trip.start_time matches Some(t) ==> fits(encode_utf8(t))
    &&& trip.start_date matches Some(t) ==> fits(encode_utf8(t))
    &&& trip.route_id matches Some(t) ==> fits(encode_utf8(t))
}

/// Every length that the vehicle report's encoding holds fits in 64 bits.
pub open spec fn vehicle_fits(vehicle: VehicleView) -> bool {
    vehicle.trip matches Some(t) ==> trip_fits(t) && fits(trip_bytes(t))
}

/// Every length that the entity's encoding holds fits in 64 bits.
pub open spec fn entity_fits(entity: EntityView) -> bool {
    &&& fits(encode_utf8(entity.id))
    &&& entity.vehicle matches Some(v) ==> vehicle_fits(v) && fits(vehicle_bytes(v))
}

/// The entity can stand in a feed: every length that its encoding holds,
/// and the length of the encoding itself, fits in 64 bits.
#[verifier::opaque]
pub open spec fn entity_embeds(entity: EntityView) -> bool {
    entity_fits(entity) && fits(entity_bytes(entity))
}

/// Every length that the feed's encoding holds fits in 64 bits.
pub open spec fn feed_fits(feed: FeedView) -> bool {
    forall|i: int| 0 <= i < feed.entity.len() ==> entity_embeds(#[trigger] feed.entity[i])
}

/// Written entities follow one another: one more entity is one more field
/// at the end.
pub proof fn lemma_entities_bytes_push(entities: Seq<EntityView>, entity: EntityView)
    ensures
        entities_bytes(entities.push(entity)) == entities_bytes(entities) + bytes_field(
            2,
            entity_bytes(entity),
        ),
    decreases entities.len(),
{
    let field = bytes_field(2, entity_bytes(entity));
    if entities.len() == 0 {
        assert(entities.push(entity).drop_first() =~= entities);
        assert(entities_bytes(entities.push(entity)) =~= entities_bytes(entities) + field);
    } else {
        let others = entities.drop_first();
        assert(entities.push(entity).drop_first() =~= others.push(entity));
        lemma_entities_bytes_push(others, entity);
        assert(entities_bytes(entities.push(entity)) =~= entities_bytes(entities) + field);
    }
}

fn write_varint(out: &mut Vec<u8>, value: u64)
    ensures
        final(out)@ == old(out)@ + varint_bytes(value as nat),
{
    let ghost start = out@;
    let mut rest: u64 = value;
    assert(out@ + varint_bytes(rest as nat) =~= start + varint_bytes(value as nat));
    while rest >= 128
        invariant
            out@ + varint_bytes(rest as nat) == start + varint_bytes(value as nat),
        decreases rest,
    {
        let ghost before = out@;
        out.push((128 + rest % 128) as u8);
        assert(out@ + varint_bytes((rest / 128) as nat) =~= before + varint_bytes(rest as nat));
        rest = rest / 128;
    }
    let ghost before = out@;
    out.push(rest as u8);
    assert(out@ =~= before + varint_bytes(rest as nat));
}

fn write_key(out: &mut Vec<u8>, number: u32, wire: u8)
    requires
        number < 0x2000_0000,
        wire < 8,
    ensures
        final(out)@ == old(out)@ + key_bytes(number, wire as int),
{
    write_varint(out, number as u64 * 8 + wire as u64);
}

fn write_bits(out: &mut Vec<u8>, number: u32, bits: u32)
    requires
        number < 0x2000_0000,
    ensures
        final(out)@ == old(out)@ + bits_field(number, bits),
{
    let ghost start = out@;
    write_key(out, number, 5);
    out.push((bits % 0x100) as u8);
    out.push((bits / 0x100 % 0x100) as u8);
    out.push((bits / 0x1_0000 % 0x100) as u8);
    out.push((bits / 0x100_0000) as u8);
    assert(out@ =~= start + bits_field(number, bits));
}

fn write_body(out: &mut Vec<u8>, number: u32, body: Vec<u8>)
    requires
        number < 0x2000_0000,
    ensures
        final(out)@ == old(out)@ + bytes_field(number, body@),
        fits(body@),
{
    let ghost start = out@;
    let mut body = body;
    let ghost held = body@;
    write_key(out, number, 2);
    write_varint(out, body.len() as u64);
    out.append(&mut body);
    assert(out@ =~= start + bytes_field(number, held));
}

fn write_text(out: &mut Vec<u8>, number: u32, text: &str)
    requires
        number < 0x2000_0000,
    ensures
        final(out)@ == old(out)@ + bytes_field(number, encode_utf8(text@)),
        fits(encode_utf8(text@)),
{
    write_body(out, number, slice_to_vec(text.as_bytes()));
}

fn write_optional_text(out: &mut Vec<u8>, number: u32, text: &Option<String>)
    requires
        number < 0x2000_0000,
    ensures
        final(out)@ == old(out)@ + optional_text(number, text_view(*text)),
        text_view(*text) matches Some(t) ==> fits(encode_utf8(t)),
{
    let ghost start = out@;
    match text {
        Some(t) => write_text(out, number, t.as_str()),
        None => {
            assert(out@ =~= start + optional_text(number, text_view(*text)));
        },
    }
}

fn write_optional_bits(out: &mut Vec<u8>, number: u32, bits: Option<u32>)
    requires
        number < 0x2000_0000,
    ensures
        final(out)@ == old(out)@ + optional_bits(number, bits),
{
    let ghost start = out@;
    match bits {
        Some(b) => write_bits(out, number, b),
        None => {
            assert(out@ =~= start + optional_bits(number, bits));
        },
    }
}

/// Writes a trip.
pub fn encode_trip(trip: &TripDescriptor) -> (bytes: Vec<u8>)
    ensures
        bytes@ == trip_bytes(trip@),
        trip_fits(trip@),
{
    let mut out: Vec<u8> = Vec::new();
    write_optional_text(&mut out, 2, &trip.start_time);
    write_optional_text(&mut out, 3, &trip.start_date);
    write_optional_text(&mut out, 5, &trip.route_id);
    assert(out@ =~= trip_bytes(trip@));
    out
}

/// Writes a position.
pub fn encode_position(position: &Position) -> (bytes: Vec<u8>)
    ensures
        bytes@ == position_bytes(*position),
{
    let mut out: Vec<u8> = Vec::new();
    write_bits(&mut out, 1, position.latitude);
    write_bits(&mut out, 2, position.longitude);
    write_optional_bits(&mut out, 3, position.bearing);
    write_optional_bits(&mut out, 5, position.speed);
    assert(out@ =~= position_bytes(*position));
    out
}

/// The number of a congestion level in the schema.
pub fn congestion_number(level: CongestionLevel) -> (number: u64)
    ensures
        number == number_of(level),
{
    match level {
        CongestionLevel::UnknownCongestionLevel => 0,
        CongestionLevel::RunningSmoothly => 1,
        CongestionLevel::StopAndGo => 2,
        CongestionLevel::Congestion => 3,
        CongestionLevel::SevereCongestion => 4,
    }
}

/// Writes a vehicle report.
pub fn encode_vehicle(vehicle: &VehiclePosition) -> (bytes: Vec<u8>)
    ensures
        bytes@ == vehicle_bytes(vehicle@),
        vehicle_fits(vehicle@),
{
    let mut out: Vec<u8> = Vec::new();
    match &vehicle.trip {
        Some(trip) => write_body(&mut out, 1, encode_trip(trip)),
        None => {},
    }
    assert(out@ =~= optional_trip(vehicle@.trip));
    let ghost after_trip = out@;
    match &vehicle.position {
        Some(position) => write_body(&mut out, 2, encode_position(position)),
        None => {},
    }
    assert(out@ =~= after_trip + optional_position(vehicle@.position));
    let ghost after_position = out@;
    match vehicle.congestion_level {
        Some(level) => {
            write_key(&mut out, 6, 0);
            write_varint(&mut out, congestion_number(level));
        },
        None => {},
    }
    assert(out@ =~= after_position + optional_congestion(vehicle@.congestion_level));
    assert(out@ =~= vehicle_bytes(vehicle@));
    out
}

/// Writes an entity.
pub fn encode_entity(entity: &FeedEntity) -> (bytes: Vec<u8>)
    ensures
        bytes@ == entity_bytes(entity@),
        entity_fits(entity@),
{
    let mut out: Vec<u8> = Vec::new();
    write_text(&mut out, 1, entity.id.as_str());
    let ghost after_id = out@;
    match &entity.vehicle {
        Some(vehicle) => write_body(&mut out, 4, encode_vehicle(vehicle)),
        None => {},
    }
    assert(out@ =~= after_id + optional_vehicle(entity@.vehicle));
    assert(out@ =~= entity_bytes(entity@));
    out
}

/// Writes a feed. Decoding what was written gives the feed back.
pub fn encode(feed: &FeedMessage) -> (bytes: Vec<u8>)
    ensures
        bytes@ == feed_bytes(feed@),
        feed_fits(feed@),
        decode_feed(bytes@) == Ok::<FeedView, DecodeError>(feed@),
{
    let mut out: Vec<u8> = Vec::new();
    let mut i: usize = 0;
    let ghost views = feed@.entity;
    assert(views.take(0) =~= Seq::empty());
    while i < feed.entity.len()
        invariant
            i <= feed.entity.len(),
            views == feed@.entity,
            views.len() == feed.entity.len(),
            out@ == entities_bytes(views.take(i as int)),
            forall|j: int| 0 <= j < i ==> entity_embeds(#[trigger] views[j]),
        decreases feed.entity.len() - i,
    {
        let body = encode_entity(&feed.entity[i]);
        proof {
            lemma_entities_bytes_push(views.take(i as int), views[i as int]);
            assert(views.take(i as int).push(views[i as int]) =~= views.take(i + 1));
        }
        write_body(&mut out, 2, body);
        proof {
            reveal(entity_embeds);
        }
        i += 1;
    }
    proof {
        assert(views.take(i as int) =~= views);
        lemma_decode_encoded(feed@);
    }
    out
}

/// Writes the feed of `buf` anew: what the records hold, each field once and
/// in order, and nothing of what the records do not hold. The new buffer
/// decodes to the same feed as `buf`; a buffer that is no feed is refused
/// as [`decode`] refuses it.
pub fn reencode(buf: &[u8]) -> (written: Result<Vec<u8>, DecodeError>)
    ensures
        match written {
            Ok(bytes) => decode_feed(buf@) matches Ok(feed) && bytes@ == feed_bytes(feed)
                && decode_feed(bytes@) == decode_feed(buf@),
            Err(e) => decode_feed(buf@) == Err::<FeedView, DecodeError>(e),
        },
{
    match decode(buf) {
        Ok(feed) => Ok(encode(&feed)),
        Err(e) => Err(e),
    }
}

} // verus!
