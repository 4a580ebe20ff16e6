//! The Protocol Buffers wire format: varints, field keys and field values.
//!
//! The `spec` functions read a byte sequence from its head and say
//! what stands there and how many bytes it takes. The executable functions
//! do the same on a slice and hand back the rest of it.

use vstd::prelude::*;

verus! {

/// Why a buffer is not a feed.
#[derive(Clone, Copy, Debug, PartialEq, Eq, Structural)]
pub enum DecodeError {
    /// A field key is no varint, exceeds 32 bits, names wire type 6 or 7, or
    /// names field number 0.
    Key,
    /// A field is a group; the feed has none.
    Group,
    /// A value or a length is no varint: it ends before its last byte, runs
    /// over ten bytes, or exceeds 64 bits.
    Varint,
    /// The buffer ends before the end of a value.
    Truncated,
    /// A field of the feed arrived with a wire type other than its own.
    WireType,
    /// A text is not UTF-8.
    Utf8,
    /// A congestion level is none of the known ones.
    Congestion,
}

/// The wire types that a field of the feed can have.
#[derive(Clone, Copy, Debug, PartialEq, Eq, Structural)]
pub enum WireKind {
    Varint,
    Fixed64,
    Bytes,
    Fixed32,
}

/// A field key: the field's number and the wire type of its value.
#[derive(Clone, Copy, Debug, PartialEq, Eq, Structural)]
pub struct Key {
    pub number: u32,
    pub kind: WireKind,
}

/// A field value as it stands in a buffer.
#[derive(Clone, Copy, Debug, PartialEq, Eq)]
pub enum WireValue<'a> {
    Varint(u64),
    Fixed64(u64),
    Bytes(&'a [u8]),
    Fixed32(u32),
}

/// View of a [`WireValue`].
pub enum Payload {
    Varint(u64),
    Fixed64(u64),
    Bytes(Seq<u8>),
    Fixed32(u32),
}

impl<'a> View for WireValue<'a> {
    type V = Payload;

    open spec fn view(&self) -> Payload {
        match *self {
            WireValue::Varint(v) => Payload::Varint(v),
            WireValue::Fixed64(v) => Payload::Fixed64(v),
            WireValue::Bytes(b) => Payload::Bytes(b@),
            WireValue::Fixed32(v) => Payload::Fixed32(v),
        }
    }
}

/// One field: its number and its value.
#[derive(Clone, Copy, Debug, PartialEq, Eq)]
pub struct Field<'a> {
    pub number: u32,
    pub value: WireValue<'a>,
}

/// View of a [`Field`].
pub struct FieldView {
    pub number: u32,
    pub payload: Payload,
}

impl<'a> View for Field<'a> {
    type V = FieldView;

    open spec fn view(&self) -> FieldView {
        FieldView { number: self.number, payload: self.value@ }
    }
}

/// The varint whose first byte is `s[0]`, read from byte `i` on: the value of
/// the bytes from `i` to the last one, the lowest seven bits first, and the
/// length of the whole varint. A byte under 128 is the last one. There is no
/// varint where the bytes end first, where ten bytes do not hold it, or where
/// the tenth byte is over 1, which would exceed 64 bits.
pub open spec fn varint_from(s: Seq<u8>, i: int) -> Option<(nat, int)>
    decreases 10 - i,
{
    if i < 0 || i >= 10 || i >= s.len() {
        None
    } else if s[i] < 0x80 {
        if i == 9 && s[i] >= 2 {
            None
        } else {
            Some((s[i] as nat, i + 1))
        }
    } else {
        match varint_from(s, i + 1) {
            Some((high, len)) => Some(((s[i] - 0x80 + 128 * high) as nat, len)),
            None => None,
        }
    }
}

/// The varint at the head of `s`: its value and its length in bytes.
pub open spec fn parse_varint(s: Seq<u8>) -> Option<(nat, int)> {
    varint_from(s, 0)
}

/// The bound on a varint's groups from group `k` on: two to the power
/// `64 - 7 * k`.
pub open spec fn group_limit(k: int) -> nat {
    if k <= 0 {
        0x1_0000_0000_0000_0000
    } else if k == 1 {
        0x200_0000_0000_0000
    } else if k == 2 {
        0x4_0000_0000_0000
    } else if k == 3 {
        0x800_0000_0000
    } else if k == 4 {
        0x10_0000_0000
    } else if k == 5 {
        0x2000_0000
    } else if k == 6 {
        0x40_0000
    } else if k == 7 {
        0x8000
    } else if k == 8 {
        0x100
    } else {
        2
    }
}

/// A varint read from byte `i` on is under `2^(64 - 7 i)`, and ends after
/// byte `i` within the buffer.
pub proof fn lemma_varint_from_bounds(s: Seq<u8>, i: int)
    requires
        0 <= i,
        varint_from(s, i) is Some,
    ensures
        varint_from(s, i).unwrap().0 < group_limit(i),
        i < varint_from(s, i).unwrap().1 <= s.len(),
        varint_from(s, i).unwrap().1 <= 10,
    decreases 10 - i,
{
    if s[i] >= 0x80 {
        lemma_varint_from_bounds(s, i + 1);
        assert(group_limit(i) == 128 * group_limit(i + 1));
    }
}

/// A varint fits in 64 bits and takes between one and ten bytes of the buffer.
pub proof fn lemma_parse_varint_bounds(s: Seq<u8>)
    requires
        parse_varint(s) is Some,
    ensures
        parse_varint(s).unwrap().0 <= u64::MAX,
        0 < parse_varint(s).unwrap().1 <= s.len(),
        parse_varint(s).unwrap().1 <= 10,
{
    lemma_varint_from_bounds(s, 0);
}

/// Calls `prost::encoding::decode_varint` on a cursor over `buf`. The call
/// succeeds exactly where a varint stands at the head of `buf`; it then gives
/// the varint's value, and leaves the cursor behind the varint's last byte.
#[verifier::external_body]
fn decode_varint<'a>(buf: &'a [u8]) -> (r: Option<(u64, &'a [u8])>)
    ensures
        match r {
            Some((value, rest)) => parse_varint(buf@) matches Some(found) && found.0 == value
                && rest@ == buf@.skip(found.1),
            None => parse_varint(buf@) is None,
        },
{
    let mut rest = buf;
    let value = prost::encoding::decode_varint(&mut rest).ok()?;
    Some((value, rest))
}

/// Reads the varint at the head of `buf`, and hands back the rest.
pub fn read_varint<'a>(buf: &'a [u8]) -> (r: Result<(u64, &'a [u8]), DecodeError>)
    ensures
        match r {
            Ok((value, rest)) => parse_varint(buf@) matches Some(found) && found.0 == value
                && rest@ == buf@.skip(found.1),
            Err(e) => e == DecodeError::Varint && parse_varint(buf@) is None,
        },
{
    match decode_varint(buf) {
        Some(found) => Ok(found),
        None => Err(DecodeError::Varint),
    }
}

/// The wire type that the low three bits of a key name, for those that a
/// field of the feed can have.
pub open spec fn kind_of(wire: int) -> WireKind {
    if wire == 0 {
        WireKind::Varint
    } else if wire == 1 {
        WireKind::Fixed64
    } else if wire == 2 {
        WireKind::Bytes
    } else {
        WireKind::Fixed32
    }
}

/// The field key at the head of `s`, and its length in bytes. A key is a
/// varint of at most 32 bits: the wire type in its low three bits, the field
/// number, which is not 0, above them.
pub open spec fn parse_key(s: Seq<u8>) -> Result<(Key, int), DecodeError> {
    match parse_varint(s) {
        None => Err(DecodeError::Key),
        Some((raw, len)) => {
            if raw > u32::MAX || raw % 8 >= 6 || raw / 8 == 0 {
                Err(DecodeError::Key)
            } else if raw % 8 == 3 || raw % 8 == 4 {
                Err(DecodeError::Group)
            } else {
                Ok((Key { number: (raw / 8) as u32, kind: kind_of(raw as int % 8) }, len))
            }
        },
    }
}

/// The number that the first four bytes of `s` hold, lowest byte first.
pub open spec fn le32(s: Seq<u8>) -> u32 {
    (s[0] + 0x100 * s[1] + 0x1_0000 * s[2] + 0x100_0000 * s[3]) as u32
}

/// The number that the first eight bytes of `s` hold, lowest byte first.
pub open spec fn le64(s: Seq<u8>) -> u64 {
    (le32(s) + 0x1_0000_0000 * le32(s.skip(4))) as u64
}

/// The value of wire type `kind` at the head of `s`, and its length in bytes.
pub open spec fn parse_value(kind: WireKind, s: Seq<u8>) -> Result<(Payload, int), DecodeError> {
    match kind {
        WireKind::Varint => match parse_varint(s) {
            None => Err(DecodeError::Varint),
            Some((value, len)) => Ok((Payload::Varint(value as u64), len)),
        },
        WireKind::Fixed64 => if s.len() < 8 {
            Err(DecodeError::Truncated)
        } else {
            Ok((Payload::Fixed64(le64(s)), 8))
        },
        WireKind::Fixed32 => if s.len() < 4 {
            Err(DecodeError::Truncated)
        } else {
            Ok((Payload::Fixed32(le32(s)), 4))
        },
        WireKind::Bytes => match parse_varint(s) {
            None => Err(DecodeError::Varint),
            Some((count, len)) => if count > s.len() - len {
                Err(DecodeError::Truncated)
            } else {
                Ok((Payload::Bytes(s.subrange(len, len + count)), len + count))
            },
        },
    }
}

/// The field at the head of `s`, key and value, and its length in bytes.
pub open spec fn parse_field(s: Seq<u8>) -> Result<(FieldView, int), DecodeError> {
    match parse_key(s) {
        Err(e) => Err(e),
        Ok((key, key_len)) => match parse_value(key.kind, s.skip(key_len)) {
            Err(e) => Err(e),
            Ok((payload, len)) => Ok((FieldView { number: key.number, payload }, key_len + len)),
        },
    }
}

/// A key takes at least one byte, and no more than the buffer has.
pub proof fn lemma_parse_key_len(s: Seq<u8>)
    requires
        parse_key(s) is Ok,
    ensures
        0 < parse_key(s).unwrap().1 <= s.len(),
{
    lemma_parse_varint_bounds(s);
}

/// A value takes at least one byte, and no more than the buffer has.
pub proof fn lemma_parse_value_len(kind: WireKind, s: Seq<u8>)
    requires
        parse_value(kind, s) is Ok,
    ensures
        0 < parse_value(kind, s).unwrap().1 <= s.len(),
{
    match kind {
        WireKind::Varint => lemma_parse_varint_bounds(s),
        WireKind::Bytes => lemma_parse_varint_bounds(s),
        _ => {},
    }
}

/// A field takes at least two bytes, and no more than the buffer has.
pub proof fn lemma_parse_field_len(s: Seq<u8>)
    requires
        parse_field(s) is Ok,
    ensures
        1 < parse_field(s).unwrap().1 <= s.len(),
{
    lemma_parse_key_len(s);
    let key = parse_key(s).unwrap().0;
    lemma_parse_value_len(key.kind, s.skip(parse_key(s).unwrap().1));
}

/// What a varint is depends on its own bytes alone: a buffer cut behind the
/// varint holds the same varint, a buffer cut within it holds none.
pub proof fn lemma_varint_from_cut(s: Seq<u8>, i: int, keep: int)
    requires
        0 <= i,
        0 <= keep <= s.len(),
        varint_from(s, i) is Some,
    ensures
        keep >= varint_from(s, i).unwrap().1 ==> varint_from(s.take(keep), i) == varint_from(s, i),
        keep < varint_from(s, i).unwrap().1 ==> varint_from(s.take(keep), i) is None,
    decreases 10 - i,
{
    lemma_varint_from_bounds(s, i);
    if i < keep {
        assert(s.take(keep)[i] == s[i]);
        if s[i] >= 0x80 {
            lemma_varint_from_cut(s, i + 1, keep);
        }
    }
}

/// What a value is depends on its own bytes alone: a buffer cut behind the
/// value holds the same value, a buffer cut within it holds none.
pub proof fn lemma_parse_value_cut(kind: WireKind, s: Seq<u8>, keep: int)
    requires
        0 <= keep <= s.len(),
        parse_value(kind, s) is Ok,
    ensures
        keep >= parse_value(kind, s).unwrap().1 ==> parse_value(kind, s.take(keep)) == parse_value(
            kind,
            s,
        ),
        keep < parse_value(kind, s).unwrap().1 ==> parse_value(kind, s.take(keep)) is Err,
{
    let cut = s.take(keep);
    match kind {
        WireKind::Varint => {
            lemma_varint_from_cut(s, 0, keep);
        },
        WireKind::Bytes => {
            lemma_varint_from_cut(s, 0, keep);
            lemma_parse_varint_bounds(s);
            let (count, len) = parse_varint(s).unwrap();
            if keep >= len + count {
                assert(cut.subrange(len, len + count) =~= s.subrange(len, len + count));
            }
        },
        WireKind::Fixed32 => {
            if keep >= 4 {
                assert(cut[0] == s[0] && cut[1] == s[1] && cut[2] == s[2] && cut[3] == s[3]);
            }
        },
        WireKind::Fixed64 => {
            if keep >= 8 {
                assert(cut[0] == s[0] && cut[1] == s[1] && cut[2] == s[2] && cut[3] == s[3]);
                assert(cut.skip(4)[0] == s.skip(4)[0] && cut.skip(4)[1] == s.skip(4)[1]
                    && cut.skip(4)[2] == s.skip(4)[2] && cut.skip(4)[3] == s.skip(4)[3]);
            }
        },
    }
}

/// What a field is depends on its own bytes alone: a buffer cut behind the
/// field holds the same field, a buffer cut within it holds none.
pub proof fn lemma_parse_field_cut(s: Seq<u8>, keep: int)
    requires
        0 <= keep <= s.len(),
        parse_field(s) is Ok,
    ensures
        keep >= parse_field(s).unwrap().1 ==> parse_field(s.take(keep)) == parse_field(s),
        keep < parse_field(s).unwrap().1 ==> parse_field(s.take(keep)) is Err,
{
    let (key, key_len) = parse_key(s).unwrap();
    let rest = s.skip(key_len);
    lemma_parse_key_len(s);
    lemma_parse_value_len(key.kind, rest);
    lemma_varint_from_cut(s, 0, keep);
    if keep >= key_len {
        assert(s.take(keep).skip(key_len) =~= rest.take(keep - key_len));
        lemma_parse_value_cut(key.kind, rest, keep - key_len);
    }
}

/// Reads the field key at the head of `buf`, and hands back the rest.
pub fn read_key<'a>(buf: &'a [u8]) -> (r: Result<(Key, &'a [u8]), DecodeError>)
    ensures
        match r {
            Ok((key, rest)) => parse_key(buf@) matches Ok(found) && found.0 == key
                && rest@ == buf@.skip(found.1),
            Err(e) => parse_key(buf@) == Err::<(Key, int), DecodeError>(e),
        },
{
    match decode_varint(buf) {
        None => Err(DecodeError::Key),
        Some((raw, rest)) => {
            let wire: u64 = raw % 8;
            if raw > 0xffff_ffff || wire >= 6 || raw / 8 == 0 {
                Err(DecodeError::Key)
            } else if wire == 3 || wire == 4 {
                Err(DecodeError::Group)
            } else {
                let kind = if wire == 0 {
                    WireKind::Varint
                } else if wire == 1 {
                    WireKind::Fixed64
                } else if wire == 2 {
                    WireKind::Bytes
                } else {
                    WireKind::Fixed32
                };
                Ok((Key { number: (raw / 8) as u32, kind }, rest))
            }
        },
    }
}

/// Reads four bytes as a number, lowest byte first.
pub fn read_le32(buf: &[u8]) -> (value: u32)
    requires
        buf@.len() >= 4,
    ensures
        value == le32(buf@),
{
    let b0: u32 = buf[0] as u32;
    let b1: u32 = buf[1] as u32;
    let b2: u32 = buf[2] as u32;
    let b3: u32 = buf[3] as u32;
    b0 + 0x100 * b1 + 0x1_0000 * b2 + 0x100_0000 * b3
}

/// Reads the value of wire type `kind` at the head of `buf`, and hands back
/// the rest.
pub fn read_value<'a>(kind: WireKind, buf: &'a [u8]) -> (r: Result<
    (WireValue<'a>, &'a [u8]),
    DecodeError,
>)
    ensures
        match r {
            Ok((value, rest)) => parse_value(kind, buf@) matches Ok(found) && found.0 == value@
                && rest@ == buf@.skip(found.1),
            Err(e) => parse_value(kind, buf@) == Err::<(Payload, int), DecodeError>(e),
        },
{
    match kind {
        WireKind::Varint => match decode_varint(buf) {
            None => Err(DecodeError::Varint),
            Some((value, rest)) => Ok((WireValue::Varint(value), rest)),
        },
        WireKind::Fixed64 => {
            if buf.len() < 8 {
                Err(DecodeError::Truncated)
            } else {
                let (head, rest) = buf.split_at(8);
                let (low, high) = head.split_at(4);
                assert(high@ =~= buf@.skip(4).take(4));
                assert(low@ =~= buf@.take(4));
                let value: u64 = read_le32(low) as u64 + 0x1_0000_0000 * (read_le32(high) as u64);
                Ok((WireValue::Fixed64(value), rest))
            }
        },
        WireKind::Fixed32 => {
            if buf.len() < 4 {
                Err(DecodeError::Truncated)
            } else {
                let (head, rest) = buf.split_at(4);
                Ok((WireValue::Fixed32(read_le32(head)), rest))
            }
        },
        WireKind::Bytes => match decode_varint(buf) {
            None => Err(DecodeError::Varint),
            Some((count, rest)) => {
                proof {
                    lemma_parse_varint_bounds(buf@);
                }
                if count > rest.len() as u64 {
                    Err(DecodeError::Truncated)
                } else {
                    let (body, tail) = rest.split_at(count as usize);
                    assert(body@ =~= buf@.subrange(buf@.len() - rest@.len(), buf@.len() - rest@.len() + count));
                    assert(tail@ =~= buf@.skip(buf@.len() - rest@.len() + count));
                    Ok((WireValue::Bytes(body), tail))
                }
            },
        },
    }
}

/// Reads the field at the head of `buf`, and hands back the rest, which is
/// shorter than `buf`.
pub fn read_field<'a>(buf: &'a [u8]) -> (r: Result<(Field<'a>, &'a [u8]), DecodeError>)
    ensures
        match r {
            Ok((field, rest)) => parse_field(buf@) matches Ok(found) && found.0 == field@
                && rest@ == buf@.skip(found.1) && rest@.len() < buf@.len(),
            Err(e) => parse_field(buf@) == Err::<(FieldView, int), DecodeError>(e),
        },
{
    let (key, after_key) = match read_key(buf) {
        Ok(found) => found,
        Err(e) => { return Err(e); },
    };
    let (value, rest) = match read_value(key.kind, after_key) {
        Ok(found) => found,
        Err(e) => { return Err(e); },
    };
    proof {
        let key_len = parse_key(buf@).unwrap().1;
        let len = parse_value(key.kind, buf@.skip(key_len)).unwrap().1;
        lemma_parse_key_len(buf@);
        lemma_parse_value_len(key.kind, buf@.skip(key_len));
        assert(buf@.skip(key_len).skip(len) =~= buf@.skip(key_len + len));
    }
    Ok((Field { number: key.number, value }, rest))
}

} // verus!
