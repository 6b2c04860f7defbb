//! The wire layer: base-128 variable-length integers and the tagged fields
//! that every message of the format is a sequence of.

use vstd::prelude::*;
use vstd::slice::slice_to_vec;

verus! {

/// The error that `prost` reports when it cannot decode.
#[verifier::external_type_specification]
#[verifier::external_body]
pub struct ExDecodeError(prost::DecodeError);

/// The little-endian base-128 image of `value`: seven bits per byte, lowest
/// first, the high bit set on every byte but the last.
pub open spec fn varint_encoding(value: u64) -> Seq<u8>
    decreases value,
{
    if value < 0x80 {
        seq![value as u8]
    } else {
        seq![(value % 0x80 + 0x80) as u8] + varint_encoding(value / 0x80)
    }
}

/// Reads a variable-length integer from the front of `bytes`, `count` bytes of
/// it having been read before. Gives the value and the number of bytes taken,
/// or `None` where the bytes end before the integer does, the integer runs past
/// ten bytes, or its tenth byte carries more than the one bit that still fits.
pub open spec fn varint_decoding(bytes: Seq<u8>, count: nat) -> Option<(int, int)>
    decreases bytes.len(),
{
    if count >= 10 || bytes.len() == 0 {
        None
    } else if bytes[0] < 0x80 {
        if count == 9 && bytes[0] >= 2 {
            None
        } else {
            Some((bytes[0] as int, 1))
        }
    } else {
        match varint_decoding(bytes.skip(1), count + 1) {
            None => None,
            Some((value, taken)) => Some(((bytes[0] - 0x80) + 0x80 * value, taken + 1)),
        }
    }
}

/// The exclusive bound on what the bytes from position `count` on can still
/// contribute to a 64-bit value.
pub open spec fn varint_room(count: nat) -> int {
    if count == 0 {
        0x1_0000_0000_0000_0000
    } else if count == 1 {
        0x200_0000_0000_0000
    } else if count == 2 {
        0x4_0000_0000_0000
    } else if count == 3 {
        0x800_0000_0000
    } else if count == 4 {
        0x10_0000_0000
    } else if count == 5 {
        0x2000_0000
    } else if count == 6 {
        0x40_0000
    } else if count == 7 {
        0x8000
    } else if count == 8 {
        0x100
    } else if count == 9 {
        2
    } else {
        0
    }
}

/// A decoded integer is within the room left at the position it started at,
/// and takes at least one byte and no more than there are.
pub proof fn lemma_varint_decoding_bounds(bytes: Seq<u8>, count: nat)
    ensures
        varint_decoding(bytes, count) matches Some((value, taken)) ==> 0 <= value < varint_room(
            count,
        ) && 1 <= taken <= bytes.len() && taken <= 10 - count,
    decreases bytes.len(),
{
    if count >= 10 || bytes.len() == 0 {
    } else if bytes[0] < 0x80 {
    } else {
        lemma_varint_decoding_bounds(bytes.skip(1), count + 1);
    }
}

/// Decoding reads back what encoding wrote, whatever follows it.
pub proof fn lemma_varint_roundtrip(value: u64, count: nat, rest: Seq<u8>)
    requires
        value < varint_room(count),
    ensures
        varint_decoding(varint_encoding(value) + rest, count) == Some(
            (value as int, varint_encoding(value).len() as int),
        ),
        (varint_encoding(value) + rest).skip(varint_encoding(value).len() as int) == rest,
    decreases value,
{
    let image = varint_encoding(value);
    let all = image + rest;
    if value < 0x80 {
        assert(all[0] == value as u8);
        assert(all.skip(1) =~= rest);
    } else {
        let tail = varint_encoding(value / 0x80);
        assert(count < 9);
        lemma_varint_roundtrip(value / 0x80, count + 1, rest);
        assert(all[0] == (value % 0x80 + 0x80) as u8);
        assert(all.skip(1) =~= tail + rest);
        assert(image.len() == tail.len() + 1);
        assert(all.skip(image.len() as int) =~= (tail + rest).skip(tail.len() as int));
    }
}

/// The image of an integer that fits the room left at `count` takes at least
/// one byte and no more than the ten less `count`.
pub proof fn lemma_varint_encoding_len(value: u64, count: nat)
    requires
        value < varint_room(count),
    ensures
        1 <= varint_encoding(value).len() <= 10 - count,
    decreases value,
{
    if value >= 0x80 {
        lemma_varint_encoding_len(value / 0x80, count + 1);
    }
}

/// Appends the variable-length image of `value` to `buf`.
///
/// Calls `prost::encoding::encode_varint`, which writes the low seven bits of
/// the value with the high bit set while more than seven bits remain, and the
/// last seven bits plain.
#[verifier::external_body]
pub(crate) fn put_varint(value: u64, buf: &mut Vec<u8>)
    ensures
        final(buf)@ == old(buf)@ + varint_encoding(value),
{
    prost::encoding::encode_varint(value, buf);
}

/// Reads one variable-length integer from the front of `bytes` and hands back
/// the bytes behind it.
///
/// Calls `prost::encoding::decode_varint` on the slice. It fails on an empty
/// slice, when no byte among the first ten has its high bit clear, and when
/// the tenth byte is 2 or more; otherwise the value is the sum of the low
/// seven bits of each byte read, shifted by seven bits per position.
#[verifier::external_body]
pub(crate) fn take_varint<'a>(bytes: &'a [u8]) -> (r: Result<(u64, &'a [u8]), prost::DecodeError>)
    ensures
        match r {
            Ok((value, rest)) => varint_decoding(bytes@, 0) matches Some((v, taken)) && value == v
                && rest@ == bytes@.skip(taken),
            Err(_) => varint_decoding(bytes@, 0) is None,
        },
{
    let mut buf = bytes;
    let value = prost::encoding::decode_varint(&mut buf)?;
    Ok((value, buf))
}

/// The largest tag a field can have.
pub const MAX_TAG: u32 = 0x1FFF_FFFF;

/// What a field carries, by wire type.
pub enum Payload {
    /// Wire type 0: a variable-length integer.
    Varint(u64),
    /// Wire type 1: eight bytes.
    Fixed64(Vec<u8>),
    /// Wire type 2: a length and that many bytes.
    Bytes(Vec<u8>),
    /// Wire type 5: four bytes.
    Fixed32(Vec<u8>),
}

/// One field of a message: its tag and what it carries.
pub struct Field {
    pub tag: u32,
    pub payload: Payload,
}

/// The mathematical value of a `Payload`.
pub ghost enum PayloadView {
    Varint(u64),
    Fixed64(Seq<u8>),
    Bytes(Seq<u8>),
    Fixed32(Seq<u8>),
}

/// The mathematical value of a `Field`.
pub ghost struct FieldView {
    pub tag: u32,
    pub payload: PayloadView,
}

impl View for Payload {
    type V = PayloadView;

    open spec fn view(&self) -> PayloadView {
        match self {
            Payload::Varint(value) => PayloadView::Varint(*value),
            Payload::Fixed64(bytes) => PayloadView::Fixed64(bytes@),
            Payload::Bytes(bytes) => PayloadView::Bytes(bytes@),
            Payload::Fixed32(bytes) => PayloadView::Fixed32(bytes@),
        }
    }
}

impl View for Field {
    type V = FieldView;

    open spec fn view(&self) -> FieldView {
        FieldView { tag: self.tag, payload: self.payload@ }
    }
}

/// The values of a sequence of fields, in order.
pub open spec fn fields_view(fields: Seq<Field>) -> Seq<FieldView> {
    fields.map_values(|field: Field| field@)
}

/// The number that names the wire type of a payload.
pub open spec fn wire_type(payload: PayloadView) -> int {
    match payload {
        PayloadView::Varint(_) => 0,
        PayloadView::Fixed64(_) => 1,
        PayloadView::Bytes(_) => 2,
        PayloadView::Fixed32(_) => 5,
    }
}

/// A field that has an image: its tag is in range and its payload has the
/// size that its wire type fixes.
pub open spec fn field_wf(field: FieldView) -> bool {
    &&& 1 <= field.tag <= MAX_TAG
    &&& match field.payload {
        PayloadView::Varint(_) => true,
        PayloadView::Fixed64(bytes) => bytes.len() == 8,
        PayloadView::Bytes(bytes) => bytes.len() <= u64::MAX,
        PayloadView::Fixed32(bytes) => bytes.len() == 4,
    }
}

/// Every field of the sequence has an image.
pub open spec fn fields_wf(fields: Seq<FieldView>) -> bool {
    forall|i: int| 0 <= i < fields.len() ==> field_wf(#[trigger] fields[i])
}

/// The image of a payload.
pub open spec fn payload_encoding(payload: PayloadView) -> Seq<u8> {
    match payload {
        PayloadView::Varint(value) => varint_encoding(value),
        PayloadView::Fixed64(bytes) => bytes,
        PayloadView::Bytes(bytes) => varint_encoding(bytes.len() as u64) + bytes,
        PayloadView::Fixed32(bytes) => bytes,
    }
}

/// The key of a field: its tag above the three bits of its wire type.
pub open spec fn field_key(field: FieldView) -> u64 {
    (field.tag * 8 + wire_type(field.payload)) as u64
}

/// The image of a field: its key as a variable-length integer, then its
/// payload.
pub open spec fn field_encoding(field: FieldView) -> Seq<u8> {
    varint_encoding(field_key(field)) + payload_encoding(field.payload)
}

/// The image of a sequence of fields: their images one after the other.
pub open spec fn fields_encoding(fields: Seq<FieldView>) -> Seq<u8>
    decreases fields.len(),
{
    if fields.len() == 0 {
        Seq::empty()
    } else {
        field_encoding(fields[0]) + fields_encoding(fields.skip(1))
    }
}

/// Reads the payload that the wire type `wire` announces from the front of
/// `bytes`: the payload and the number of bytes taken. Wire types 3, 4, 6 and 7
/// have no payload in this format.
pub open spec fn payload_decoding(wire: int, bytes: Seq<u8>) -> Option<(PayloadView, int)> {
    if wire == 0 {
        match varint_decoding(bytes, 0) {
            Some((value, taken)) => Some((PayloadView::Varint(value as u64), taken)),
            None => None,
        }
    } else if wire == 1 {
        if bytes.len() >= 8 {
            Some((PayloadView::Fixed64(bytes.take(8)), 8))
        } else {
            None
        }
    } else if wire == 2 {
        match varint_decoding(bytes, 0) {
            Some((len, taken)) => if len <= bytes.len() - taken {
                Some((PayloadView::Bytes(bytes.skip(taken).take(len)), taken + len))
            } else {
                None
            },
            None => None,
        }
    } else if wire == 5 {
        if bytes.len() >= 4 {
            Some((PayloadView::Fixed32(bytes.take(4)), 4))
        } else {
            None
        }
    } else {
        None
    }
}

/// Reads one field from the front of `bytes`: the field and the number of
/// bytes taken. `None` where the key is no variable-length integer, does not
/// fit in 32 bits or holds tag 0, and where the payload is cut short.
pub open spec fn field_decoding(bytes: Seq<u8>) -> Option<(FieldView, int)> {
    match varint_decoding(bytes, 0) {
        None => None,
        Some((key, taken)) => if key > u32::MAX || key / 8 < 1 {
            None
        } else {
            match payload_decoding(key % 8, bytes.skip(taken)) {
                Some((payload, more)) => Some(
                    (FieldView { tag: (key / 8) as u32, payload }, taken + more),
                ),
                None => None,
            }
        },
    }
}

/// Reads `bytes` as a sequence of fields that fills it exactly.
pub open spec fn fields_decoding(bytes: Seq<u8>) -> Option<Seq<FieldView>>
    decreases bytes.len(),
{
    if bytes.len() == 0 {
        Some(Seq::empty())
    } else {
        match field_decoding(bytes) {
            Some((field, taken)) => if 0 < taken <= bytes.len() {
                match fields_decoding(bytes.skip(taken)) {
                    Some(fields) => Some(seq![field] + fields),
                    None => None,
                }
            } else {
                None
            },
            None => None,
        }
    }
}

/// A payload that was read took no more bytes than there were, and has the
/// size that its wire type fixes.
pub proof fn lemma_payload_decoding_bounds(wire: int, bytes: Seq<u8>)
    ensures
        payload_decoding(wire, bytes) matches Some((payload, taken)) ==> 0 <= taken <= bytes.len()
            && wire_type(payload) == wire && match payload {
            PayloadView::Varint(_) => true,
            PayloadView::Fixed64(b) => b.len() == 8,
            PayloadView::Bytes(b) => b.len() <= taken && b.len() <= u64::MAX,
            PayloadView::Fixed32(b) => b.len() == 4,
        },
{
    lemma_varint_decoding_bounds(bytes, 0);
}

/// A field that was read took at least one byte and no more than there were,
/// and has an image.
pub proof fn lemma_field_decoding_bounds(bytes: Seq<u8>)
    ensures
        field_decoding(bytes) matches Some((field, taken)) ==> 1 <= taken <= bytes.len()
            && field_wf(field),
{
    lemma_varint_decoding_bounds(bytes, 0);
    if let Some((key, taken)) = varint_decoding(bytes, 0) {
        lemma_payload_decoding_bounds(key % 8, bytes.skip(taken));
    }
}

/// The image of two sequences of fields joined is the two images joined.
pub proof fn lemma_fields_encoding_concat(a: Seq<FieldView>, b: Seq<FieldView>)
    ensures
        fields_encoding(a + b) == fields_encoding(a) + fields_encoding(b),
    decreases a.len(),
{
    if a.len() == 0 {
        assert(a + b =~= b);
        assert(fields_encoding(a) + fields_encoding(b) =~= fields_encoding(b));
    } else {
        lemma_fields_encoding_concat(a.skip(1), b);
        assert((a + b).skip(1) =~= a.skip(1) + b);
        assert((a + b)[0] == a[0]);
        assert(fields_encoding(a + b) =~= fields_encoding(a) + fields_encoding(b));
    }
}

/// The image of a single field, as a sequence of one.
pub proof fn lemma_fields_encoding_one(field: FieldView)
    ensures
        fields_encoding(seq![field]) == field_encoding(field),
{
    let one = seq![field];
    assert(one.skip(1) =~= Seq::<FieldView>::empty());
    assert(fields_encoding(one.skip(1)) =~= Seq::<u8>::empty());
    assert(fields_encoding(one) =~= field_encoding(field));
}

/// The image of a field is at most twenty bytes longer than the bytes that
/// the field carries.
pub proof fn lemma_field_encoding_len(field: FieldView)
    requires
        field_wf(field),
    ensures
        field_encoding(field).len() <= 20 + (match field.payload {
            PayloadView::Varint(_) => 0,
            PayloadView::Fixed64(bytes) => bytes.len(),
            PayloadView::Bytes(bytes) => bytes.len(),
            PayloadView::Fixed32(bytes) => bytes.len(),
        }),
{
    lemma_varint_encoding_len(field_key(field), 0);
    match field.payload {
        PayloadView::Varint(value) => {
            lemma_varint_encoding_len(value, 0);
        },
        PayloadView::Bytes(bytes) => {
            lemma_varint_encoding_len(bytes.len() as u64, 0);
        },
        _ => {},
    }
}

/// Reading gives back the field that was written, whatever follows it.
pub proof fn lemma_field_roundtrip(field: FieldView, rest: Seq<u8>)
    requires
        field_wf(field),
    ensures
        field_decoding(field_encoding(field) + rest) == Some(
            (field, field_encoding(field).len() as int),
        ),
        (field_encoding(field) + rest).skip(field_encoding(field).len() as int) == rest,
        field_encoding(field).len() >= 1,
{
    let key = field_key(field);
    let key_image = varint_encoding(key);
    let body = payload_encoding(field.payload);
    let all = field_encoding(field) + rest;
    assert(all =~= key_image + (body + rest));
    lemma_varint_roundtrip(key, 0, body + rest);
    assert(key / 8 == field.tag && key % 8 == wire_type(field.payload));
    let after = all.skip(key_image.len() as int);
    assert(after == body + rest);
    match field.payload {
        PayloadView::Varint(value) => {
            lemma_varint_roundtrip(value, 0, rest);
        },
        PayloadView::Fixed64(bytes) => {
            assert(after.take(8) =~= bytes);
        },
        PayloadView::Bytes(bytes) => {
            let len_image = varint_encoding(bytes.len() as u64);
            assert(after =~= len_image + (bytes + rest));
            lemma_varint_roundtrip(bytes.len() as u64, 0, bytes + rest);
            assert((bytes + rest).take(bytes.len() as int) =~= bytes);
        },
        PayloadView::Fixed32(bytes) => {
            assert(after.take(4) =~= bytes);
        },
    }
    assert(all.skip(field_encoding(field).len() as int) =~= rest);
}

/// Reading gives back the fields that were written.
pub proof fn lemma_fields_roundtrip(fields: Seq<FieldView>)
    requires
        fields_wf(fields),
    ensures
        fields_decoding(fields_encoding(fields)) == Some(fields),
    decreases fields.len(),
{
    if fields.len() == 0 {
        assert(fields =~= Seq::<FieldView>::empty());
    } else {
        let tail = fields.skip(1);
        assert(fields_wf(tail)) by {
            assert forall|i: int| 0 <= i < tail.len() implies field_wf(#[trigger] tail[i]) by {
                assert(tail[i] == fields[i + 1]);
            }
        }
        lemma_fields_roundtrip(tail);
        lemma_field_roundtrip(fields[0], fields_encoding(tail));
        assert(seq![fields[0]] + tail =~= fields);
    }
}

/// Appends the image of a field that carries the integer `value`.
pub fn put_varint_field(buf: &mut Vec<u8>, tag: u32, value: u64)
    ensures
        final(buf)@ == old(buf)@ + field_encoding(
            FieldView { tag, payload: PayloadView::Varint(value) },
        ),
{
    let key: u64 = (tag as u64) * 8;
    put_varint(key, buf);
    put_varint(value, buf);
    proof {
        let field = FieldView { tag, payload: PayloadView::Varint(value) };
        assert(final(buf)@ =~= old(buf)@ + field_encoding(field));
    }
}

/// Appends the image of a field that carries `bytes`.
pub fn put_bytes_field(buf: &mut Vec<u8>, tag: u32, bytes: &[u8])
    ensures
        final(buf)@ == old(buf)@ + field_encoding(
            FieldView { tag, payload: PayloadView::Bytes(bytes@) },
        ),
{
    let key: u64 = (tag as u64) * 8 + 2;
    put_varint(key, buf);
    put_varint(bytes.len() as u64, buf);
    let ghost before = buf@;
    buf.extend_from_slice(bytes);
    proof {
        let field = FieldView { tag, payload: PayloadView::Bytes(bytes@) };
        assert(buf@ =~= before + bytes@);
        assert(buf@ =~= old(buf)@ + field_encoding(field));
    }
}

/// Reads the payload that the wire type `wire` announces from the front of
/// `bytes`, and hands back the bytes behind it.
fn take_payload<'a>(wire: u64, bytes: &'a [u8]) -> (r: Option<(Payload, &'a [u8])>)
    ensures
        match r {
            Some((payload, rest)) => payload_decoding(wire as int, bytes@) matches Some((p, taken))
                && payload@ == p && rest@ == bytes@.skip(taken),
            None => payload_decoding(wire as int, bytes@) is None,
        },
{
    proof {
        lemma_varint_decoding_bounds(bytes@, 0);
    }
    if wire == 0 {
        match take_varint(bytes) {
            Ok((value, rest)) => Some((Payload::Varint(value), rest)),
            Err(_) => None,
        }
    } else if wire == 1 {
        if bytes.len() >= 8 {
            let (head, rest) = bytes.split_at(8);
            assert(rest@ =~= bytes@.skip(8));
            Some((Payload::Fixed64(slice_to_vec(head)), rest))
        } else {
            None
        }
    } else if wire == 2 {
        match take_varint(bytes) {
            Ok((len, after)) => {
                if len <= after.len() as u64 {
                    let (head, rest) = after.split_at(len as usize);
                    assert(rest@ =~= bytes@.skip(bytes@.len() - after@.len() + len));
                    Some((Payload::Bytes(slice_to_vec(head)), rest))
                } else {
                    None
                }
            },
            Err(_) => None,
        }
    } else if wire == 5 {
        if bytes.len() >= 4 {
            let (head, rest) = bytes.split_at(4);
            assert(rest@ =~= bytes@.skip(4));
            Some((Payload::Fixed32(slice_to_vec(head)), rest))
        } else {
            None
        }
    } else {
        None
    }
}

/// Reads one field from the front of `bytes`, and hands back the bytes behind
/// it.
pub fn take_field<'a>(bytes: &'a [u8]) -> (r: Option<(Field, &'a [u8])>)
    ensures
        match r {
            Some((field, rest)) => field_decoding(bytes@) matches Some((f, taken)) && field@ == f
                && rest@ == bytes@.skip(taken),
            None => field_decoding(bytes@) is None,
        },
{
    proof {
        lemma_varint_decoding_bounds(bytes@, 0);
    }
    match take_varint(bytes) {
        Err(_) => None,
        Ok((key, after)) => {
            if key > 0xFFFF_FFFF || key / 8 < 1 {
                None
            } else {
                let tag = (key / 8) as u32;
                proof {
                    lemma_payload_decoding_bounds((key % 8) as int, after@);
                }
                match take_payload(key % 8, after) {
                    None => None,
                    Some((payload, rest)) => {
                        assert(rest@ =~= bytes@.skip(bytes@.len() - rest@.len()));
                        Some((Field { tag, payload }, rest))
                    },
                }
            }
        },
    }
}

/// Reads `bytes` as a sequence of fields that fills it exactly.
pub fn decode_fields(bytes: &[u8]) -> (r: Option<Vec<Field>>)
    ensures
        match r {
            Some(fields) => fields_decoding(bytes@) == Some(fields_view(fields@)),
            None => fields_decoding(bytes@) is None,
        },
{
    let mut fields: Vec<Field> = Vec::new();
    let mut rest = bytes;
    assert(fields_view(fields@) + fields_decoding(rest@).unwrap() =~= fields_decoding(
        rest@,
    ).unwrap());
    while rest.len() > 0
        invariant
            fields_decoding(bytes@) == (match fields_decoding(rest@) {
                Some(more) => Some(fields_view(fields@) + more),
                None => None,
            }),
        decreases rest@.len(),
    {
        proof {
            lemma_field_decoding_bounds(rest@);
        }
        match take_field(rest) {
            None => {
                return None;
            },
            Some((field, after)) => {
                let ghost before = fields_view(fields@);
                fields.push(field);
                proof {
                    assert(fields_view(fields@) =~= before.push(field@));
                    if let Some(more) = fields_decoding(after@) {
                        assert(before + (seq![field@] + more) =~= fields_view(fields@) + more);
                    }
                }
                rest = after;
            },
        }
    }
    proof {
        assert(fields_view(fields@) + Seq::<FieldView>::empty() =~= fields_view(fields@));
    }
    Some(fields)
}

/// Runs `step` over `fields` from the first to the last, starting from `init`,
/// and stops with `None` at the first field that `step` refuses.
pub open spec fn fold_fields<S>(
    fields: Seq<FieldView>,
    init: S,
    step: spec_fn(S, FieldView) -> Option<S>,
) -> Option<S>
    decreases fields.len(),
{
    if fields.len() == 0 {
        Some(init)
    } else {
        match fold_fields(fields.drop_last(), init, step) {
            Some(state) => step(state, fields.last()),
            None => None,
        }
    }
}

/// Folding over one field is one step.
pub proof fn lemma_fold_one<S>(
    field: FieldView,
    init: S,
    step: spec_fn(S, FieldView) -> Option<S>,
)
    ensures
        fold_fields(seq![field], init, step) == step(init, field),
{
    let one = seq![field];
    assert(one.drop_last() =~= Seq::<FieldView>::empty());
    assert(fold_fields(one.drop_last(), init, step) == Some(init));
}

/// Folding over two sequences joined is folding over the second from where
/// the first ended.
pub proof fn lemma_fold_concat<S>(
    a: Seq<FieldView>,
    b: Seq<FieldView>,
    init: S,
    step: spec_fn(S, FieldView) -> Option<S>,
)
    ensures
        fold_fields(a + b, init, step) == (match fold_fields(a, init, step) {
            Some(state) => fold_fields(b, state, step),
            None => None,
        }),
    decreases b.len(),
{
    if b.len() == 0 {
        assert(a + b =~= a);
    } else {
        lemma_fold_concat(a, b.drop_last(), init, step);
        assert((a + b).drop_last() =~= a + b.drop_last());
        assert((a + b).last() == b.last());
    }
}

/// Folding over no field or one: no step, or one.
pub proof fn lemma_fold_optional<S>(
    fields: Seq<FieldView>,
    init: S,
    step: spec_fn(S, FieldView) -> Option<S>,
)
    requires
        fields.len() <= 1,
    ensures
        fold_fields(fields, init, step) == (if fields.len() == 0 {
            Some(init)
        } else {
            step(init, fields[0])
        }),
{
    if fields.len() == 1 {
        assert(fields =~= seq![fields[0]]);
        lemma_fold_one(fields[0], init, step);
    }
}

/// Where folding over the first fields of a sequence stops, folding over all
/// of it stops.
pub proof fn lemma_fold_prefix<S>(
    fields: Seq<FieldView>,
    len: int,
    init: S,
    step: spec_fn(S, FieldView) -> Option<S>,
)
    requires
        0 <= len <= fields.len(),
        fold_fields(fields.take(len), init, step) is None,
    ensures
        fold_fields(fields, init, step) is None,
{
    lemma_fold_concat(fields.take(len), fields.skip(len), init, step);
    assert(fields.take(len) + fields.skip(len) =~= fields);
}

/// Folding over one field more is one step more.
pub proof fn lemma_fold_next<S>(
    fields: Seq<FieldView>,
    len: int,
    init: S,
    step: spec_fn(S, FieldView) -> Option<S>,
)
    requires
        0 <= len < fields.len(),
    ensures
        fold_fields(fields.take(len + 1), init, step) == (match fold_fields(
            fields.take(len),
            init,
            step,
        ) {
            Some(state) => step(state, fields[len]),
            None => None,
        }),
{
    assert(fields.take(len + 1).drop_last() =~= fields.take(len));
    assert(fields.take(len + 1).last() == fields[len]);
}

/// A field that carries `bytes`.
pub open spec fn bytes_field(tag: u32, bytes: Seq<u8>) -> FieldView {
    FieldView { tag, payload: PayloadView::Bytes(bytes) }
}

/// A field that carries the integer `value`.
pub open spec fn varint_field(tag: u32, value: u64) -> FieldView {
    FieldView { tag, payload: PayloadView::Varint(value) }
}

/// The field of a byte string or text that is left out where it is empty.
pub open spec fn optional_bytes(tag: u32, bytes: Seq<u8>) -> Seq<FieldView> {
    if bytes.len() == 0 {
        Seq::empty()
    } else {
        seq![bytes_field(tag, bytes)]
    }
}

/// The field of an integer that is left out where it is zero.
pub open spec fn optional_varint(tag: u32, value: u64) -> Seq<FieldView> {
    if value == 0 {
        Seq::empty()
    } else {
        seq![varint_field(tag, value)]
    }
}

/// The bytes of a field of wire type 2.
pub open spec fn bytes_payload(field: FieldView) -> Option<Seq<u8>> {
    match field.payload {
        PayloadView::Bytes(bytes) => Some(bytes),
        _ => None,
    }
}

/// The text of a field of wire type 2: its bytes, where they are well-formed
/// UTF-8.
pub open spec fn text_payload(field: FieldView) -> Option<Seq<u8>> {
    match field.payload {
        PayloadView::Bytes(bytes) => if vstd::utf8::valid_utf8(bytes) {
            Some(bytes)
        } else {
            None
        },
        _ => None,
    }
}

/// The integer of a field of wire type 0.
pub open spec fn varint_payload(field: FieldView) -> Option<u64> {
    match field.payload {
        PayloadView::Varint(value) => Some(value),
        _ => None,
    }
}

/// Whether `bytes` are well-formed UTF-8.
///
/// Calls `core::str::from_utf8`, which succeeds on well-formed UTF-8 and on
/// nothing else.
#[verifier::external_body]
fn is_utf8(bytes: &[u8]) -> (valid: bool)
    ensures
        valid == vstd::utf8::valid_utf8(bytes@),
{
    match core::str::from_utf8(bytes) {
        Ok(_) => true,
        Err(_) => false,
    }
}

/// The bytes that a field of wire type 2 carries.
pub fn field_bytes(field: &Field) -> (r: Option<Vec<u8>>)
    ensures
        match r {
            Some(bytes) => bytes_payload(field@) == Some(bytes@),
            None => bytes_payload(field@) is None,
        },
{
    match &field.payload {
        Payload::Bytes(bytes) => Some(slice_to_vec(bytes.as_slice())),
        _ => None,
    }
}

/// The text that a field of wire type 2 carries.
pub fn field_text(field: &Field) -> (r: Option<Vec<u8>>)
    ensures
        match r {
            Some(text) => text_payload(field@) == Some(text@),
            None => text_payload(field@) is None,
        },
{
    match &field.payload {
        Payload::Bytes(bytes) => if is_utf8(bytes.as_slice()) {
            Some(slice_to_vec(bytes.as_slice()))
        } else {
            None
        },
        _ => None,
    }
}

/// The integer that a field of wire type 0 carries.
pub fn field_varint(field: &Field) -> (r: Option<u64>)
    ensures
        r == varint_payload(field@),
{
    match &field.payload {
        Payload::Varint(value) => Some(*value),
        _ => None,
    }
}

/// The number of bytes that a field carries besides its key and its length.
pub open spec fn field_size(field: FieldView) -> nat {
    match field.payload {
        PayloadView::Varint(_) => 0,
        PayloadView::Fixed64(bytes) => bytes.len(),
        PayloadView::Bytes(bytes) => bytes.len(),
        PayloadView::Fixed32(bytes) => bytes.len(),
    }
}

/// What no field or one more at the end of a sequence does to the fold over
/// it and to the length of its image.
pub proof fn lemma_append<S>(
    fields: Seq<FieldView>,
    part: Seq<FieldView>,
    init: S,
    state: S,
    step: spec_fn(S, FieldView) -> Option<S>,
)
    requires
        fold_fields(fields, init, step) == Some(state),
        part.len() <= 1,
        fields_wf(part),
    ensures
        fold_fields(fields + part, init, step) == (if part.len() == 0 {
            Some(state)
        } else {
            step(state, part[0])
        }),
        fields_encoding(fields + part).len() <= fields_encoding(fields).len() + (if part.len()
            == 0 {
            0
        } else {
            20 + field_size(part[0])
        }),
{
    lemma_fold_concat(fields, part, init, step);
    lemma_fold_optional(part, state, step);
    lemma_fields_encoding_concat(fields, part);
    if part.len() > 0 {
        assert(part =~= seq![part[0]]);
        lemma_fields_encoding_one(part[0]);
        lemma_field_encoding_len(part[0]);
    }
}

/// A buffer that a message is written into, field by field.
pub struct Writer {
    buf: Vec<u8>,
    fields: Ghost<Seq<FieldView>>,
}

impl Writer {
    /// The fields written so far.
    pub closed spec fn fields(&self) -> Seq<FieldView> {
        self.fields@
    }

    /// The buffer holds the image of the fields written so far.
    pub closed spec fn wf(&self) -> bool {
        self.buf@ == fields_encoding(self.fields@)
    }

    /// A writer that holds nothing yet.
    pub fn new() -> (writer: Writer)
        ensures
            writer.wf(),
            writer.fields() == Seq::<FieldView>::empty(),
    {
        Writer { buf: Vec::new(), fields: Ghost(Seq::empty()) }
    }

    /// Writes the field of a byte string or text, unless it is empty.
    pub fn optional_bytes(&mut self, tag: u32, bytes: &[u8])
        requires
            old(self).wf(),
        ensures
            final(self).wf(),
            final(self).fields() == old(self).fields() + optional_bytes(tag, bytes@),
    {
        if bytes.len() > 0 {
            self.bytes(tag, bytes);
        } else {
            assert(self.fields@ + optional_bytes(tag, bytes@) =~= self.fields@);
        }
    }

    /// Writes the field of an integer, unless it is zero.
    pub fn optional_varint(&mut self, tag: u32, value: u64)
        requires
            old(self).wf(),
        ensures
            final(self).wf(),
            final(self).fields() == old(self).fields() + optional_varint(tag, value),
    {
        if value != 0 {
            put_varint_field(&mut self.buf, tag, value);
            proof {
                let field = varint_field(tag, value);
                lemma_fields_encoding_one(field);
                lemma_fields_encoding_concat(self.fields@, seq![field]);
                self.fields@ = self.fields@ + seq![field];
            }
        } else {
            assert(self.fields@ + optional_varint(tag, value) =~= self.fields@);
        }
    }

    /// Writes the field of a byte string, a text or the image of a message.
    pub fn bytes(&mut self, tag: u32, bytes: &[u8])
        requires
            old(self).wf(),
        ensures
            final(self).wf(),
            final(self).fields() == old(self).fields() + seq![bytes_field(tag, bytes@)],
    {
        put_bytes_field(&mut self.buf, tag, bytes);
        proof {
            let field = bytes_field(tag, bytes@);
            lemma_fields_encoding_one(field);
            lemma_fields_encoding_concat(self.fields@, seq![field]);
            self.fields@ = self.fields@ + seq![field];
        }
    }

    /// The image of the fields that were written.
    pub fn finish(self) -> (bytes: Vec<u8>)
        requires
            self.wf(),
        ensures
            bytes@ == fields_encoding(self.fields()),
    {
        self.buf
    }
}

/// The signed 64-bit integer that shares its bits with `value`.
pub open spec fn int64_of(value: u64) -> i64 {
    if value < 0x8000_0000_0000_0000 {
        value as i64
    } else {
        (value - 0x1_0000_0000_0000_0000) as i64
    }
}

/// The signed 32-bit integer that shares its bits with the low half of
/// `value`.
pub open spec fn int32_of(value: u64) -> i32 {
    if value % 0x1_0000_0000 < 0x8000_0000 {
        (value % 0x1_0000_0000) as i32
    } else {
        (value % 0x1_0000_0000 - 0x1_0000_0000) as i32
    }
}

/// The low 32 bits of `value`.
pub open spec fn uint32_of(value: u64) -> u32 {
    (value % 0x1_0000_0000) as u32
}

/// The unsigned 64-bit integer that shares its bits with `value`, extended
/// with its sign.
pub open spec fn extended(value: int) -> u64 {
    if value >= 0 {
        value as u64
    } else {
        (value + 0x1_0000_0000_0000_0000) as u64
    }
}

/// See `int64_of`.
pub fn to_int64(value: u64) -> (r: i64)
    ensures
        r == int64_of(value),
{
    if value < 0x8000_0000_0000_0000 {
        value as i64
    } else {
        ((value - 0x8000_0000_0000_0000) as i64) + i64::MIN
    }
}

/// See `int32_of`.
pub fn to_int32(value: u64) -> (r: i32)
    ensures
        r == int32_of(value),
{
    let low: u64 = value % 0x1_0000_0000;
    if low < 0x8000_0000 {
        low as i32
    } else {
        ((low as i64) - 0x1_0000_0000) as i32
    }
}

/// See `uint32_of`.
pub fn to_uint32(value: u64) -> (r: u32)
    ensures
        r == uint32_of(value),
{
    (value % 0x1_0000_0000) as u32
}

/// See `extended`.
pub fn extend(value: i64) -> (r: u64)
    ensures
        r == extended(value as int),
{
    if value >= 0 {
        value as u64
    } else {
        ((value - i64::MIN) as u64) + 0x8000_0000_0000_0000
    }
}

} // verus!
