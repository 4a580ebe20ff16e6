//! Decoding gives back what was written.
//!
//! The proofs go field by field: a field that was written is read back,
//! whatever follows it, and leaves the record as the field says. A record's
//! fields in a row then give the record.

use crate::codec::{
    decode_feed, entity_apply, entity_merge, feed_apply, feed_merge, position_apply,
    position_merge, text_of, trip_apply, trip_merge, vehicle_apply, vehicle_merge,
};
use crate::encode::{
    bits_field, bytes_field, entities_bytes, entity_bytes, entity_embeds, entity_fits, feed_bytes,
    feed_fits, fits, key_bytes, le32_bytes, number_of, optional_bits, optional_congestion,
    optional_position, optional_text, optional_trip, optional_vehicle, position_bytes,
    trip_bytes, trip_fits, varint_bytes, varint_field, vehicle_bytes, vehicle_fits,
};
use crate::model::{
    empty_entity, empty_position, empty_trip, empty_vehicle, CongestionLevel, EntityView,
    FeedView, Position, TripView, VehicleView,
};
use crate::wire::{
    group_limit, kind_of, le32, lemma_parse_field_len, parse_field, parse_key, parse_varint,
    varint_from, DecodeError, FieldView, Key, Payload,
};
use vstd::prelude::*;
use vstd::utf8::{encode_utf8, encode_utf8_decode_utf8, encode_utf8_valid_utf8};

verus! {

/// Where the bytes of `s` from `i` on start with the shortest varint of
/// `value`, and `value` fits in the groups from `i` on, `s` read from `i`
/// gives `value`.
pub proof fn lemma_varint_from_bytes(s: Seq<u8>, i: int, value: nat)
    requires
        0 <= i <= 9,
        value < group_limit(i),
        i + varint_bytes(value).len() <= s.len(),
        s.subrange(i, i + varint_bytes(value).len()) == varint_bytes(value),
    ensures
        varint_from(s, i) == Some((value, i + varint_bytes(value).len())),
    decreases value,
{
    let written = varint_bytes(value);
    assert(s[i] == s.subrange(i, i + written.len())[0]);
    if value >= 128 {
        let rest = varint_bytes(value / 128);
        assert(written =~= seq![(128 + value % 128) as u8] + rest);
        assert(s.subrange(i + 1, i + 1 + rest.len()) =~= s.subrange(
            i,
            i + written.len(),
        ).subrange(1, 1 + rest.len() as int));
        assert(written.subrange(1, 1 + rest.len() as int) =~= rest);
        assert(group_limit(i) == 128 * group_limit(i + 1));
        lemma_varint_from_bytes(s, i + 1, value / 128);
    }
}

/// A varint that was written is read back, whatever follows it.
pub proof fn lemma_parse_varint_bytes(value: nat, rest: Seq<u8>)
    requires
        value <= u64::MAX,
    ensures
        parse_varint(varint_bytes(value) + rest) == Some((value, varint_bytes(value).len() as int)),
        (varint_bytes(value) + rest).skip(varint_bytes(value).len() as int) == rest,
{
    let s = varint_bytes(value) + rest;
    assert(s.subrange(0, varint_bytes(value).len() as int) =~= varint_bytes(value));
    lemma_varint_from_bytes(s, 0, value);
    assert(s.skip(varint_bytes(value).len() as int) =~= rest);
}

/// A key that was written is read back, whatever follows it.
pub proof fn lemma_parse_key_bytes(number: u32, wire: int, rest: Seq<u8>)
    requires
        0 < number < 0x2000_0000,
        wire == 0 || wire == 1 || wire == 2 || wire == 5,
    ensures
        parse_key(key_bytes(number, wire) + rest) == Ok::<(Key, int), DecodeError>(
            (Key { number, kind: kind_of(wire) }, key_bytes(number, wire).len() as int),
        ),
        (key_bytes(number, wire) + rest).skip(key_bytes(number, wire).len() as int) == rest,
{
    lemma_parse_varint_bytes((number * 8 + wire) as nat, rest);
}

/// Four bytes that were written are read back as the same number.
pub proof fn lemma_le32_bytes(value: u32, rest: Seq<u8>)
    ensures
        le32(le32_bytes(value) + rest) == value,
        (le32_bytes(value) + rest).skip(4) == rest,
{
    assert((le32_bytes(value) + rest).skip(4) =~= rest);
}

/// A length-delimited field that was written is read back, whatever follows.
pub proof fn lemma_parse_bytes_field(number: u32, body: Seq<u8>, rest: Seq<u8>)
    requires
        0 < number < 0x2000_0000,
        fits(body),
    ensures
        parse_field(bytes_field(number, body) + rest) == Ok::<(FieldView, int), DecodeError>(
            (
                FieldView { number, payload: Payload::Bytes(body) },
                bytes_field(number, body).len() as int,
            ),
        ),
        (bytes_field(number, body) + rest).skip(bytes_field(number, body).len() as int) == rest,
{
    let key = key_bytes(number, 2);
    let count = varint_bytes(body.len());
    let s = bytes_field(number, body) + rest;
    assert(s =~= key + (count + body + rest));
    lemma_parse_key_bytes(number, 2, count + body + rest);
    assert(count + body + rest =~= count + (body + rest));
    lemma_parse_varint_bytes(body.len(), body + rest);
    let after = count + (body + rest);
    assert(after.subrange(count.len() as int, (count.len() + body.len()) as int) =~= body);
    assert(s.skip(bytes_field(number, body).len() as int) =~= rest);
}

/// A bit-pattern field that was written is read back, whatever follows.
pub proof fn lemma_parse_bits_field(number: u32, bits: u32, rest: Seq<u8>)
    requires
        0 < number < 0x2000_0000,
    ensures
        parse_field(bits_field(number, bits) + rest) == Ok::<(FieldView, int), DecodeError>(
            (
                FieldView { number, payload: Payload::Fixed32(bits) },
                bits_field(number, bits).len() as int,
            ),
        ),
        (bits_field(number, bits) + rest).skip(bits_field(number, bits).len() as int) == rest,
{
    let key = key_bytes(number, 5);
    let s = bits_field(number, bits) + rest;
    assert(s =~= key + (le32_bytes(bits) + rest));
    lemma_parse_key_bytes(number, 5, le32_bytes(bits) + rest);
    lemma_le32_bytes(bits, rest);
    assert(s.skip(bits_field(number, bits).len() as int) =~= rest);
}

/// A varint field that was written is read back, whatever follows.
pub proof fn lemma_parse_varint_field(number: u32, value: u64, rest: Seq<u8>)
    requires
        0 < number < 0x2000_0000,
    ensures
        parse_field(varint_field(number, value) + rest) == Ok::<(FieldView, int), DecodeError>(
            (
                FieldView { number, payload: Payload::Varint(value) },
                varint_field(number, value).len() as int,
            ),
        ),
        (varint_field(number, value) + rest).skip(varint_field(number, value).len() as int)
            == rest,
{
    let key = key_bytes(number, 0);
    let s = varint_field(number, value) + rest;
    assert(s =~= key + (varint_bytes(value as nat) + rest));
    lemma_parse_key_bytes(number, 0, varint_bytes(value as nat) + rest);
    lemma_parse_varint_bytes(value as nat, rest);
    assert(s.skip(varint_field(number, value).len() as int) =~= rest);
}

/// A written text is read back as the same text.
pub proof fn lemma_text_of_encoded(text: Seq<char>)
    ensures
        text_of(Payload::Bytes(encode_utf8(text))) == Ok::<Seq<char>, DecodeError>(text),
{
    encode_utf8_valid_utf8(text);
    encode_utf8_decode_utf8(text);
}

/// What a trip's fields leave of the record that they update.
pub open spec fn trip_over(base: TripView, trip: TripView) -> TripView {
    TripView {
        start_time: if trip.start_time is Some {
            trip.start_time
        } else {
            base.start_time
        },
        start_date: if trip.start_date is Some {
            trip.start_date
        } else {
            base.start_date
        },
        route_id: if trip.route_id is Some {
            trip.route_id
        } else {
            base.route_id
        },
    }
}

/// What a position's fields leave of the record that they update.
pub open spec fn position_over(base: Position, position: Position) -> Position {
    Position {
        latitude: position.latitude,
        longitude: position.longitude,
        bearing: if position.bearing is Some {
            position.bearing
        } else {
            base.bearing
        },
        speed: if position.speed is Some {
            position.speed
        } else {
            base.speed
        },
    }
}

proof fn lemma_trip_step(written: Seq<u8>, field: FieldView, rest: Seq<u8>, base: TripView)
    requires
        written.len() > 0,
        parse_field(written + rest) == Ok::<(FieldView, int), DecodeError>(
            (field, written.len() as int),
        ),
        (written + rest).skip(written.len() as int) == rest,
    ensures
        trip_merge(written + rest, base) == match trip_apply(base, field) {
            Ok(next) => trip_merge(rest, next),
            Err(e) => Err(e),
        },
{
}

/// A trip after a text field, where there is one.
pub open spec fn trip_with(base: TripView, number: u32, text: Option<Seq<char>>) -> TripView {
    match text {
        None => base,
        Some(t) => if number == 2 {
            TripView { start_time: Some(t), ..base }
        } else if number == 3 {
            TripView { start_date: Some(t), ..base }
        } else {
            TripView { route_id: Some(t), ..base }
        },
    }
}

proof fn lemma_trip_text(number: u32, text: Option<Seq<char>>, rest: Seq<u8>, base: TripView)
    requires
        number == 2 || number == 3 || number == 5,
        text matches Some(t) ==> fits(encode_utf8(t)),
    ensures
        trip_merge(optional_text(number, text) + rest, base) == trip_merge(
            rest,
            trip_with(base, number, text),
        ),
{
    match text {
        None => {
            assert(optional_text(number, text) + rest =~= rest);
        },
        Some(t) => {
            let body = encode_utf8(t);
            let field = FieldView { number, payload: Payload::Bytes(body) };
            lemma_parse_bytes_field(number, body, rest);
            lemma_text_of_encoded(t);
            lemma_parse_field_len(bytes_field(number, body) + rest);
            lemma_trip_step(bytes_field(number, body), field, rest, base);
            assert(trip_apply(base, field) == Ok::<TripView, DecodeError>(
                trip_with(base, number, text),
            ));
        },
    }
}

/// Decoding a written trip into a record leaves the trip's fields over the
/// record's.
pub proof fn lemma_trip_round_trip(trip: TripView, base: TripView)
    requires
        trip_fits(trip),
    ensures
        trip_merge(trip_bytes(trip), base) == Ok::<TripView, DecodeError>(trip_over(base, trip)),
{
    let date = optional_text(3, trip.start_date);
    let route = optional_text(5, trip.route_id);
    let none = Seq::<u8>::empty();
    let first = trip_with(base, 2, trip.start_time);
    let second = trip_with(first, 3, trip.start_date);
    let third = trip_with(second, 5, trip.route_id);
    lemma_trip_text(2, trip.start_time, date + route, base);
    lemma_trip_text(3, trip.start_date, route, first);
    lemma_trip_text(5, trip.route_id, none, second);
    assert(route + none =~= route);
    assert(trip_merge(none, third) == Ok::<TripView, DecodeError>(third));
    assert(third == trip_over(base, trip));
}

proof fn lemma_position_step(written: Seq<u8>, field: FieldView, rest: Seq<u8>, base: Position)
    requires
        written.len() > 0,
        parse_field(written + rest) == Ok::<(FieldView, int), DecodeError>(
            (field, written.len() as int),
        ),
        (written + rest).skip(written.len() as int) == rest,
    ensures
        position_merge(written + rest, base) == match position_apply(base, field) {
            Ok(next) => position_merge(rest, next),
            Err(e) => Err(e),
        },
{
}

proof fn lemma_position_bits(number: u32, bits: Option<u32>, rest: Seq<u8>, base: Position)
    requires
        number == 1 || number == 2 || number == 3 || number == 5,
    ensures
        position_merge(optional_bits(number, bits) + rest, base) == match bits {
            None => position_merge(rest, base),
            Some(b) => position_merge(
                rest,
                position_apply(base, FieldView { number, payload: Payload::Fixed32(b) }).unwrap(),
            ),
        },
{
    match bits {
        None => {
            assert(optional_bits(number, bits) + rest =~= rest);
        },
        Some(b) => {
            lemma_parse_bits_field(number, b, rest);
            lemma_parse_field_len(bits_field(number, b) + rest);
            lemma_position_step(
                bits_field(number, b),
                FieldView { number, payload: Payload::Fixed32(b) },
                rest,
                base,
            );
        },
    }
}

/// Decoding a written position into a record leaves the position's fields
/// over the record's.
pub proof fn lemma_position_round_trip(position: Position, base: Position)
    ensures
        position_merge(position_bytes(position), base) == Ok::<Position, DecodeError>(
            position_over(base, position),
        ),
{
    let longitude = bits_field(2, position.longitude);
    let bearing = optional_bits(3, position.bearing);
    let speed = optional_bits(5, position.speed);
    lemma_position_bits(1, Some(position.latitude), longitude + (bearing + speed), base);
    let first = Position { latitude: position.latitude, ..base };
    lemma_position_bits(2, Some(position.longitude), bearing + speed, first);
    let second = Position { longitude: position.longitude, ..first };
    lemma_position_bits(3, position.bearing, speed, second);
    let third = match position.bearing {
        Some(b) => Position { bearing: Some(b), ..second },
        None => second,
    };
    assert(speed + Seq::<u8>::empty() =~= speed);
    lemma_position_bits(5, position.speed, Seq::empty(), third);
}

/// A written position takes at most 20 bytes.
pub proof fn lemma_position_bytes_len(position: Position)
    ensures
        position_bytes(position).len() <= 20,
{
    assert(key_bytes(1, 5).len() == 1);
    assert(key_bytes(2, 5).len() == 1);
    assert(key_bytes(3, 5).len() == 1);
    assert(key_bytes(5, 5).len() == 1);
}

proof fn lemma_vehicle_step(written: Seq<u8>, field: FieldView, rest: Seq<u8>, base: VehicleView)
    requires
        written.len() > 0,
        parse_field(written + rest) == Ok::<(FieldView, int), DecodeError>(
            (field, written.len() as int),
        ),
        (written + rest).skip(written.len() as int) == rest,
    ensures
        vehicle_merge(written + rest, base) == match vehicle_apply(base, field) {
            Ok(next) => vehicle_merge(rest, next),
            Err(e) => Err(e),
        },
{
}

proof fn lemma_vehicle_trip_field(trip: Option<TripView>, rest: Seq<u8>, base: VehicleView)
    requires
        base.trip is None,
        trip matches Some(t) ==> trip_fits(t) && fits(trip_bytes(t)),
    ensures
        vehicle_merge(optional_trip(trip) + rest, base) == vehicle_merge(
            rest,
            VehicleView { trip, ..base },
        ),
{
    match trip {
        None => {
            assert(optional_trip(trip) + rest =~= rest);
        },
        Some(t) => {
            let body = trip_bytes(t);
            let field = FieldView { number: 1, payload: Payload::Bytes(body) };
            lemma_parse_bytes_field(1, body, rest);
            lemma_parse_field_len(bytes_field(1, body) + rest);
            lemma_trip_round_trip(t, empty_trip());
            assert(trip_over(empty_trip(), t) == t);
            lemma_vehicle_step(bytes_field(1, body), field, rest, base);
            assert(vehicle_apply(base, field) == Ok::<VehicleView, DecodeError>(
                VehicleView { trip, ..base },
            ));
        },
    }
}

proof fn lemma_vehicle_position_field(
    position: Option<Position>,
    rest: Seq<u8>,
    base: VehicleView,
)
    requires
        base.position is None,
    ensures
        vehicle_merge(optional_position(position) + rest, base) == vehicle_merge(
            rest,
            VehicleView { position, ..base },
        ),
{
    match position {
        None => {
            assert(optional_position(position) + rest =~= rest);
        },
        Some(p) => {
            let body = position_bytes(p);
            let field = FieldView { number: 2, payload: Payload::Bytes(body) };
            lemma_position_bytes_len(p);
            lemma_parse_bytes_field(2, body, rest);
            lemma_parse_field_len(bytes_field(2, body) + rest);
            lemma_position_round_trip(p, empty_position());
            assert(position_over(empty_position(), p) == p);
            lemma_vehicle_step(bytes_field(2, body), field, rest, base);
            assert(vehicle_apply(base, field) == Ok::<VehicleView, DecodeError>(
                VehicleView { position, ..base },
            ));
        },
    }
}

proof fn lemma_vehicle_congestion_field(
    level: Option<CongestionLevel>,
    rest: Seq<u8>,
    base: VehicleView,
)
    ensures
        vehicle_merge(optional_congestion(level) + rest, base) == vehicle_merge(
            rest,
            match level {
                Some(l) => VehicleView { congestion_level: Some(l), ..base },
                None => base,
            },
        ),
{
    match level {
        None => {
            assert(optional_congestion(level) + rest =~= rest);
        },
        Some(l) => {
            let field = FieldView { number: 6, payload: Payload::Varint(number_of(l)) };
            lemma_parse_varint_field(6, number_of(l), rest);
            lemma_parse_field_len(varint_field(6, number_of(l)) + rest);
            lemma_vehicle_step(varint_field(6, number_of(l)), field, rest, base);
            assert(vehicle_apply(base, field) == Ok::<VehicleView, DecodeError>(
                VehicleView { congestion_level: Some(l), ..base },
            ));
        },
    }
}

/// Decoding a written vehicle report gives the report.
pub proof fn lemma_vehicle_round_trip(vehicle: VehicleView)
    requires
        vehicle_fits(vehicle),
    ensures
        vehicle_merge(vehicle_bytes(vehicle), empty_vehicle()) == Ok::<VehicleView, DecodeError>(
            vehicle,
        ),
{
    let position = optional_position(vehicle.position);
    let congestion = optional_congestion(vehicle.congestion_level);
    let none = Seq::<u8>::empty();
    let first = VehicleView { trip: vehicle.trip, ..empty_vehicle() };
    let second = VehicleView { position: vehicle.position, ..first };
    lemma_vehicle_trip_field(vehicle.trip, position + congestion, empty_vehicle());
    lemma_vehicle_position_field(vehicle.position, congestion, first);
    lemma_vehicle_congestion_field(vehicle.congestion_level, none, second);
    assert(congestion + none =~= congestion);
    assert(vehicle_merge(none, vehicle) == Ok::<VehicleView, DecodeError>(vehicle));
}

proof fn lemma_entity_step(written: Seq<u8>, field: FieldView, rest: Seq<u8>, base: EntityView)
    requires
        written.len() > 0,
        parse_field(written + rest) == Ok::<(FieldView, int), DecodeError>(
            (field, written.len() as int),
        ),
        (written + rest).skip(written.len() as int) == rest,
    ensures
        entity_merge(written + rest, base) == match entity_apply(base, field) {
            Ok(next) => entity_merge(rest, next),
            Err(e) => Err(e),
        },
{
}

proof fn lemma_entity_id_field(id: Seq<char>, rest: Seq<u8>, base: EntityView)
    requires
        fits(encode_utf8(id)),
    ensures
        entity_merge(bytes_field(1, encode_utf8(id)) + rest, base) == entity_merge(
            rest,
            EntityView { id, ..base },
        ),
{
    let body = encode_utf8(id);
    let field = FieldView { number: 1, payload: Payload::Bytes(body) };
    lemma_parse_bytes_field(1, body, rest);
    lemma_parse_field_len(bytes_field(1, body) + rest);
    lemma_text_of_encoded(id);
    lemma_entity_step(bytes_field(1, body), field, rest, base);
    assert(entity_apply(base, field) == Ok::<EntityView, DecodeError>(EntityView { id, ..base }));
}

proof fn lemma_entity_vehicle_field(vehicle: Option<VehicleView>, rest: Seq<u8>, base: EntityView)
    requires
        base.vehicle is None,
        vehicle matches Some(v) ==> vehicle_fits(v) && fits(vehicle_bytes(v)),
    ensures
        entity_merge(optional_vehicle(vehicle) + rest, base) == entity_merge(
            rest,
            EntityView { vehicle, ..base },
        ),
{
    match vehicle {
        None => {
            assert(optional_vehicle(vehicle) + rest =~= rest);
        },
        Some(v) => {
            let body = vehicle_bytes(v);
            let field = FieldView { number: 4, payload: Payload::Bytes(body) };
            lemma_parse_bytes_field(4, body, rest);
            lemma_parse_field_len(bytes_field(4, body) + rest);
            lemma_vehicle_round_trip(v);
            lemma_entity_step(bytes_field(4, body), field, rest, base);
            assert(entity_apply(base, field) == Ok::<EntityView, DecodeError>(
                EntityView { vehicle, ..base },
            ));
        },
    }
}

/// Decoding a written entity gives the entity.
pub proof fn lemma_entity_round_trip(entity: EntityView)
    requires
        entity_fits(entity),
    ensures
        entity_merge(entity_bytes(entity), empty_entity()) == Ok::<EntityView, DecodeError>(
            entity,
        ),
{
    let none = Seq::<u8>::empty();
    let first = EntityView { id: entity.id, ..empty_entity() };
    lemma_entity_id_field(entity.id, optional_vehicle(entity.vehicle), empty_entity());
    lemma_entity_vehicle_field(entity.vehicle, none, first);
    assert(optional_vehicle(entity.vehicle) + none =~= optional_vehicle(entity.vehicle));
    assert(entity_merge(none, entity) == Ok::<EntityView, DecodeError>(entity));
}

proof fn lemma_feed_step(written: Seq<u8>, field: FieldView, rest: Seq<u8>, base: FeedView)
    requires
        written.len() > 0,
        parse_field(written + rest) == Ok::<(FieldView, int), DecodeError>(
            (field, written.len() as int),
        ),
        (written + rest).skip(written.len() as int) == rest,
    ensures
        feed_merge(written + rest, base) == match feed_apply(base, field) {
            Ok(next) => feed_merge(rest, next),
            Err(e) => Err(e),
        },
{
}

proof fn lemma_feed_entity_field(entity: EntityView, rest: Seq<u8>, base: Seq<EntityView>)
    requires
        entity_embeds(entity),
    ensures
        feed_merge(bytes_field(2, entity_bytes(entity)) + rest, FeedView { entity: base })
            == feed_merge(rest, FeedView { entity: base.push(entity) }),
{
    reveal(entity_embeds);
    let body = entity_bytes(entity);
    let field = FieldView { number: 2, payload: Payload::Bytes(body) };
    lemma_parse_bytes_field(2, body, rest);
    lemma_parse_field_len(bytes_field(2, body) + rest);
    lemma_entity_round_trip(entity);
    lemma_feed_step(bytes_field(2, body), field, rest, FeedView { entity: base });
    assert(feed_apply(FeedView { entity: base }, field) == Ok::<FeedView, DecodeError>(
        FeedView { entity: base.push(entity) },
    ));
}

/// Decoding written entities into a feed adds them at its end, in order.
pub proof fn lemma_entities_round_trip(entities: Seq<EntityView>, base: Seq<EntityView>)
    requires
        forall|i: int| 0 <= i < entities.len() ==> entity_embeds(#[trigger] entities[i]),
    ensures
        feed_merge(entities_bytes(entities), FeedView { entity: base }) == Ok::<
            FeedView,
            DecodeError,
        >(FeedView { entity: base + entities }),
    decreases entities.len(),
{
    if entities.len() == 0 {
        assert(base + entities =~= base);
    } else {
        let first = entities.first();
        let others = entities.drop_first();
        assert(entity_embeds(entities[0]));
        lemma_feed_entity_field(first, entities_bytes(others), base);
        assert forall|i: int| 0 <= i < others.len() implies entity_embeds(
            #[trigger] others[i],
        ) by {
            assert(others[i] == entities[i + 1]);
        }
        lemma_entities_round_trip(others, base.push(first));
        assert(base.push(first) + others =~= base + entities);
    }
}

/// Decoding a written feed gives the feed: every entity and every field
/// that is set, and nothing else.
pub proof fn lemma_decode_encoded(feed: FeedView)
    requires
        feed_fits(feed),
    ensures
        decode_feed(feed_bytes(feed)) == Ok::<FeedView, DecodeError>(feed),
{
    lemma_entities_round_trip(feed.entity, Seq::empty());
    assert(Seq::<EntityView>::empty() + feed.entity =~= feed.entity);
}

/// Decoding a buffer, writing the feed and decoding again gives the same
/// feed: nothing that the first decoding found is lost on the way.
pub proof fn lemma_reencoding_is_lossless(buf: Seq<u8>)
    requires
        decode_feed(buf) is Ok,
        feed_fits(decode_feed(buf).unwrap()),
    ensures
        decode_feed(feed_bytes(decode_feed(buf).unwrap())) == decode_feed(buf),
{
    lemma_decode_encoded(decode_feed(buf).unwrap());
}

} // verus!
