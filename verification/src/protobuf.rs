//! The messages of the format: what each holds, its image as a sequence of
//! tagged fields, and how an image is read back.
//!
//! A message is written field by field in the order of the tags, and a field
//! that holds its type's default (an empty text, a zero) is left out. An image
//! is read field by field in the order in which the fields stand: a field
//! with a tag that the message does not know is passed over, one with a known
//! tag and the wrong wire type is refused, and of a field that stands more
//! than once the last one counts, except that a nested message is merged into
//! the one read before and a repeated field collects them all.

use crate::wire::{
    bytes_field, bytes_payload, decode_fields, extend, extended, field_bytes, field_text,
    field_varint, fields_decoding, fields_encoding, fields_view, fields_wf, fold_fields, int32_of,
    int64_of, lemma_append, lemma_fields_roundtrip, lemma_fold_next, lemma_fold_prefix,
    optional_bytes, optional_varint, text_payload, to_int32, to_int64, to_uint32, uint32_of,
    varint_payload, Field, FieldView, Writer,
};
use vstd::prelude::*;
use vstd::utf8::valid_utf8;

verus! {

/// A message of the format: a value that is read from a sequence of fields,
/// one field at a time, and written as one.
pub trait Message: View + Sized {
    /// The message whose fields all hold their defaults.
    spec fn empty() -> Self::V;

    /// What one field makes of a message read so far; `None` where the field
    /// has a tag that the message knows and does not hold what belongs under
    /// that tag.
    spec fn step(state: Self::V, field: FieldView) -> Option<Self::V>;

    /// The fields that a message is written as.
    spec fn fields(message: Self::V) -> Seq<FieldView>;

    /// The message whose fields all hold their defaults.
    fn new() -> (message: Self)
        ensures
            message@ == Self::empty(),
    ;

    /// Reads one field into the message.
    fn apply(self, field: &Field) -> (r: Option<Self>)
        ensures
            match r {
                Some(message) => Self::step(self@, field@) == Some(message@),
                None => Self::step(self@, field@) is None,
            },
    ;

    /// Writes the fields of the message.
    fn write(&self, writer: &mut Writer)
        requires
            old(writer).wf(),
        ensures
            final(writer).wf(),
            final(writer).fields() == old(writer).fields() + Self::fields(self@),
    ;
}

/// The step of a message as a value.
pub open spec fn stepper<M: Message>() -> spec_fn(M::V, FieldView) -> Option<M::V> {
    |state: M::V, field: FieldView| M::step(state, field)
}

/// What the message `start` becomes when the image `bytes` is read into it:
/// the fields of the image, taken in order, each make their step; `None`
/// where `bytes` are no sequence of fields or a step refuses its field.
pub open spec fn merging<M: Message>(start: M::V, bytes: Seq<u8>) -> Option<M::V> {
    match fields_decoding(bytes) {
        Some(fields) => fold_fields(fields, start, stepper::<M>()),
        None => None,
    }
}

/// The message that an image stands for.
pub open spec fn decoding<M: Message>(bytes: Seq<u8>) -> Option<M::V> {
    merging::<M>(M::empty(), bytes)
}

/// The image of a message.
pub open spec fn encoding<M: Message>(message: M::V) -> Seq<u8> {
    fields_encoding(M::fields(message))
}

/// Reads the image `bytes` into the message `start`.
pub fn merge<M: Message>(start: M, bytes: &[u8]) -> (r: Option<M>)
    ensures
        match r {
            Some(message) => merging::<M>(start@, bytes@) == Some(message@),
            None => merging::<M>(start@, bytes@) is None,
        },
{
    let fields = decode_fields(bytes)?;
    let ghost all = fields_view(fields@);
    let ghost first = start@;
    let mut message = start;
    let mut i: usize = 0;
    while i < fields.len()
        invariant
            i <= fields.len(),
            first == start@,
            all == fields_view(fields@),
            fields_decoding(bytes@) == Some(all),
            fold_fields(all.take(i as int), first, stepper::<M>()) == Some(message@),
        decreases fields.len() - i,
    {
        proof {
            lemma_fold_next(all, i as int, first, stepper::<M>());
            if M::step(message@, fields@[i as int]@) is None {
                lemma_fold_prefix(all, i + 1, first, stepper::<M>());
            }
        }
        message = message.apply(&fields[i])?;
        i += 1;
    }
    assert(all.take(i as int) =~= all);
    Some(message)
}

/// Reads the image of a message.
pub fn decode<M: Message>(bytes: &[u8]) -> (r: Option<M>)
    ensures
        match r {
            Some(message) => decoding::<M>(bytes@) == Some(message@),
            None => decoding::<M>(bytes@) is None,
        },
{
    merge(M::new(), bytes)
}

/// The image of a message.
pub fn encode<M: Message>(message: &M) -> (bytes: Vec<u8>)
    ensures
        bytes@ == encoding::<M>(message@),
{
    let mut writer = Writer::new();
    message.write(&mut writer);
    assert(writer.fields() =~= M::fields(message@));
    writer.finish()
}

/// A point in time: seconds since the epoch, and nanoseconds on top.
#[derive(Clone, Copy, Debug, PartialEq, Eq, Structural)]
pub struct Timestamp {
    pub seconds: i64,
    pub nanos: i32,
}

impl View for Timestamp {
    type V = Timestamp;

    open spec fn view(&self) -> Timestamp {
        *self
    }
}

impl Message for Timestamp {
    open spec fn empty() -> Timestamp {
        Timestamp { seconds: 0, nanos: 0 }
    }

    open spec fn step(state: Timestamp, field: FieldView) -> Option<Timestamp> {
        if field.tag == 1 {
            match varint_payload(field) {
                Some(value) => Some(Timestamp { seconds: int64_of(value), ..state }),
                None => None,
            }
        } else if field.tag == 2 {
            match varint_payload(field) {
                Some(value) => Some(Timestamp { nanos: int32_of(value), ..state }),
                None => None,
            }
        } else {
            Some(state)
        }
    }

    open spec fn fields(message: Timestamp) -> Seq<FieldView> {
        optional_varint(1, extended(message.seconds as int)) + optional_varint(
            2,
            extended(message.nanos as int),
        )
    }

    fn new() -> (message: Timestamp) {
        Timestamp { seconds: 0, nanos: 0 }
    }

    fn apply(self, field: &Field) -> (r: Option<Timestamp>) {
        let mut message = self;
        if field.tag == 1 {
            message.seconds = to_int64(field_varint(field)?);
        } else if field.tag == 2 {
            message.nanos = to_int32(field_varint(field)?);
        }
        Some(message)
    }

    fn write(&self, writer: &mut Writer) {
        writer.optional_varint(1, extend(self.seconds));
        writer.optional_varint(2, extend(self.nanos as i64));
        assert(writer.fields() =~= old(writer).fields() + Self::fields(self@));
    }
}

/// Reading the image of a timestamp gives the timestamp back; the image is
/// short.
pub proof fn lemma_timestamp_roundtrip(message: Timestamp)
    ensures
        decoding::<Timestamp>(encoding::<Timestamp>(message)) == Some(message),
        encoding::<Timestamp>(message).len() <= 40,
{
    let step = stepper::<Timestamp>();
    let empty = Timestamp::empty();
    let seconds = optional_varint(1, extended(message.seconds as int));
    let nanos = optional_varint(2, extended(message.nanos as int));
    let fields0 = Seq::<FieldView>::empty();
    assert(fields_encoding(fields0).len() == 0);
    lemma_append(fields0, seconds, empty, empty, step);
    let middle = Timestamp { seconds: message.seconds, ..empty };
    lemma_append(fields0 + seconds, nanos, empty, middle, step);
    assert(fields0 + seconds + nanos =~= Timestamp::fields(message));
    lemma_fields_roundtrip(fields0 + seconds + nanos);
}

/// The outer message: content bytes, and who signed them how.
#[derive(Clone, Debug, PartialEq, Eq)]
pub struct Envelope {
    /// The image of what the envelope carries.
    pub contents: Vec<u8>,
    /// The text form of the digest of the key that signed.
    pub key_id: Vec<u8>,
    /// The text form of the signature over `contents`.
    pub signature: Vec<u8>,
}

/// The mathematical value of an envelope.
pub ghost struct EnvelopeView {
    pub contents: Seq<u8>,
    pub key_id: Seq<u8>,
    pub signature: Seq<u8>,
}

impl View for Envelope {
    type V = EnvelopeView;

    open spec fn view(&self) -> EnvelopeView {
        EnvelopeView { contents: self.contents@, key_id: self.key_id@, signature: self.signature@ }
    }
}

impl EnvelopeView {
    /// The texts are well-formed UTF-8, and no field is longer than 64 bits
    /// can say.
    pub open spec fn wf(self) -> bool {
        &&& self.contents.len() <= u64::MAX
        &&& valid_utf8(self.key_id)
        &&& self.key_id.len() <= u64::MAX
        &&& valid_utf8(self.signature)
        &&& self.signature.len() <= u64::MAX
    }
}

impl Message for Envelope {
    open spec fn empty() -> EnvelopeView {
        EnvelopeView { contents: Seq::empty(), key_id: Seq::empty(), signature: Seq::empty() }
    }

    open spec fn step(state: EnvelopeView, field: FieldView) -> Option<EnvelopeView> {
        if field.tag == 1 {
            match bytes_payload(field) {
                Some(value) => Some(EnvelopeView { contents: value, ..state }),
                None => None,
            }
        } else if field.tag == 2 {
            match text_payload(field) {
                Some(value) => Some(EnvelopeView { key_id: value, ..state }),
                None => None,
            }
        } else if field.tag == 3 {
            match text_payload(field) {
                Some(value) => Some(EnvelopeView { signature: value, ..state }),
                None => None,
            }
        } else {
            Some(state)
        }
    }

    open spec fn fields(message: EnvelopeView) -> Seq<FieldView> {
        optional_bytes(1, message.contents)
            + optional_bytes(2, message.key_id)
            + optional_bytes(3, message.signature)
    }

    fn new() -> (message: Envelope) {
        Envelope { contents: Vec::new(), key_id: Vec::new(), signature: Vec::new() }
    }

    fn apply(self, field: &Field) -> (r: Option<Envelope>) {
        let mut message = self;
        if field.tag == 1 {
            message.contents = field_bytes(field)?;
        } else if field.tag == 2 {
            message.key_id = field_text(field)?;
        } else if field.tag == 3 {
            message.signature = field_text(field)?;
        }
        Some(message)
    }

    fn write(&self, writer: &mut Writer) {
        writer.optional_bytes(1, self.contents.as_slice());
        writer.optional_bytes(2, self.key_id.as_slice());
        writer.optional_bytes(3, self.signature.as_slice());
        assert(writer.fields() =~= old(writer).fields() + Self::fields(self@));
    }
}

/// Reading the image of an envelope gives it back; the image is little longer
/// than what the message holds.
pub proof fn lemma_envelope_roundtrip(message: EnvelopeView)
    requires
        message.wf(),
    ensures
        decoding::<Envelope>(encoding::<Envelope>(message)) == Some(message),
        encoding::<Envelope>(message).len() <= 60 + message.contents.len()
            + message.key_id.len()
            + message.signature.len(),
{
    let step = stepper::<Envelope>();
    let empty = Envelope::empty();
    let fields0 = Seq::<FieldView>::empty();
    let state0 = empty;
    assert(fields_encoding(fields0).len() == 0);
    let fields1 = fields0 + optional_bytes(1, message.contents);
    let state1 = EnvelopeView { contents: message.contents, ..state0 };
    lemma_append(fields0, optional_bytes(1, message.contents), empty, state0, step);
    assert(message.contents.len() == 0 ==> message.contents =~= Seq::<u8>::empty());
    let fields2 = fields1 + optional_bytes(2, message.key_id);
    let state2 = EnvelopeView { key_id: message.key_id, ..state1 };
    lemma_append(fields1, optional_bytes(2, message.key_id), empty, state1, step);
    assert(message.key_id.len() == 0 ==> message.key_id =~= Seq::<u8>::empty());
    let fields3 = fields2 + optional_bytes(3, message.signature);
    let state3 = EnvelopeView { signature: message.signature, ..state2 };
    lemma_append(fields2, optional_bytes(3, message.signature), empty, state2, step);
    assert(message.signature.len() == 0 ==> message.signature =~= Seq::<u8>::empty());
    assert(fields3 =~= Envelope::fields(message));
    lemma_fields_roundtrip(fields3);
}

/// The body of the entry that starts a log.
#[derive(Clone, Debug, PartialEq, Eq)]
pub struct Init {
    /// The text form of the founding key.
    pub key: Vec<u8>,
    /// The name of the hash algorithm of the log.
    pub hash_algorithm: Vec<u8>,
}

/// The mathematical value of an `Init`.
pub ghost struct InitView {
    pub key: Seq<u8>,
    pub hash_algorithm: Seq<u8>,
}

impl View for Init {
    type V = InitView;

    open spec fn view(&self) -> InitView {
        InitView { key: self.key@, hash_algorithm: self.hash_algorithm@ }
    }
}

impl InitView {
    /// The texts are well-formed UTF-8, and no field is longer than 64 bits
    /// can say.
    pub open spec fn wf(self) -> bool {
        &&& valid_utf8(self.key)
        &&& self.key.len() <= u64::MAX
        &&& valid_utf8(self.hash_algorithm)
        &&& self.hash_algorithm.len() <= u64::MAX
    }
}

impl Message for Init {
    open spec fn empty() -> InitView {
        InitView { key: Seq::empty(), hash_algorithm: Seq::empty() }
    }

    open spec fn step(state: InitView, field: FieldView) -> Option<InitView> {
        if field.tag == 1 {
            match text_payload(field) {
                Some(value) => Some(InitView { key: value, ..state }),
                None => None,
            }
        } else if field.tag == 2 {
            match text_payload(field) {
                Some(value) => Some(InitView { hash_algorithm: value, ..state }),
                None => None,
            }
        } else {
            Some(state)
        }
    }

    open spec fn fields(message: InitView) -> Seq<FieldView> {
        optional_bytes(1, message.key) + optional_bytes(2, message.hash_algorithm)
    }

    fn new() -> (message: Init) {
        Init { key: Vec::new(), hash_algorithm: Vec::new() }
    }

    fn apply(self, field: &Field) -> (r: Option<Init>) {
        let mut message = self;
        if field.tag == 1 {
            message.key = field_text(field)?;
        } else if field.tag == 2 {
            message.hash_algorithm = field_text(field)?;
        }
        Some(message)
    }

    fn write(&self, writer: &mut Writer) {
        writer.optional_bytes(1, self.key.as_slice());
        writer.optional_bytes(2, self.hash_algorithm.as_slice());
        assert(writer.fields() =~= old(writer).fields() + Self::fields(self@));
    }
}

/// Reading the image of an `Init` gives it back; the image is little longer
/// than what the message holds.
pub proof fn lemma_init_roundtrip(message: InitView)
    requires
        message.wf(),
    ensures
        decoding::<Init>(encoding::<Init>(message)) == Some(message),
        encoding::<Init>(message).len() <= 40 + message.key.len() + message.hash_algorithm.len(),
{
    let step = stepper::<Init>();
    let empty = Init::empty();
    let fields0 = Seq::<FieldView>::empty();
    let state0 = empty;
    assert(fields_encoding(fields0).len() == 0);
    let fields1 = fields0 + optional_bytes(1, message.key);
    let state1 = InitView { key: message.key, ..state0 };
    lemma_append(fields0, optional_bytes(1, message.key), empty, state0, step);
    assert(message.key.len() == 0 ==> message.key =~= Seq::<u8>::empty());
    let fields2 = fields1 + optional_bytes(2, message.hash_algorithm);
    let state2 = InitView { hash_algorithm: message.hash_algorithm, ..state1 };
    lemma_append(fields1, optional_bytes(2, message.hash_algorithm), empty, state1, step);
    assert(message.hash_algorithm.len() == 0 ==> message.hash_algorithm =~= Seq::<u8>::empty());
    assert(fields2 =~= Init::fields(message));
    lemma_fields_roundtrip(fields2);
}

/// The body of the entry that grants a permission to a key.
#[derive(Clone, Debug, PartialEq, Eq)]
pub struct GrantFlat {
    /// The text form of the key that is granted the permission.
    pub key: Vec<u8>,
    /// The number of the permission.
    pub permission: i32,
}

/// The mathematical value of a `GrantFlat`.
pub ghost struct GrantFlatView {
    pub key: Seq<u8>,
    pub permission: i32,
}

impl View for GrantFlat {
    type V = GrantFlatView;

    open spec fn view(&self) -> GrantFlatView {
        GrantFlatView { key: self.key@, permission: self.permission }
    }
}

impl GrantFlatView {
    /// The texts are well-formed UTF-8, and no field is longer than 64 bits
    /// can say.
    pub open spec fn wf(self) -> bool {
        &&& valid_utf8(self.key)
        &&& self.key.len() <= u64::MAX
    }
}

impl Message for GrantFlat {
    open spec fn empty() -> GrantFlatView {
        GrantFlatView { key: Seq::empty(), permission: 0 }
    }

    open spec fn step(state: GrantFlatView, field: FieldView) -> Option<GrantFlatView> {
        if field.tag == 1 {
            match text_payload(field) {
                Some(value) => Some(GrantFlatView { key: value, ..state }),
                None => None,
            }
        } else if field.tag == 2 {
            match varint_payload(field) {
                Some(value) => Some(GrantFlatView { permission: int32_of(value), ..state }),
                None => None,
            }
        } else {
            Some(state)
        }
    }

    open spec fn fields(message: GrantFlatView) -> Seq<FieldView> {
        optional_bytes(1, message.key) + optional_varint(2, extended(message.permission as int))
    }

    fn new() -> (message: GrantFlat) {
        GrantFlat { key: Vec::new(), permission: 0 }
    }

    fn apply(self, field: &Field) -> (r: Option<GrantFlat>) {
        let mut message = self;
        if field.tag == 1 {
            message.key = field_text(field)?;
        } else if field.tag == 2 {
            message.permission = to_int32(field_varint(field)?);
        }
        Some(message)
    }

    fn write(&self, writer: &mut Writer) {
        writer.optional_bytes(1, self.key.as_slice());
        writer.optional_varint(2, extend(self.permission as i64));
        assert(writer.fields() =~= old(writer).fields() + Self::fields(self@));
    }
}

/// Reading the image of a `GrantFlat` gives it back; the image is little longer
/// than what the message holds.
pub proof fn lemma_grant_flat_roundtrip(message: GrantFlatView)
    requires
        message.wf(),
    ensures
        decoding::<GrantFlat>(encoding::<GrantFlat>(message)) == Some(message),
        encoding::<GrantFlat>(message).len() <= 40 + message.key.len(),
{
    let step = stepper::<GrantFlat>();
    let empty = GrantFlat::empty();
    let fields0 = Seq::<FieldView>::empty();
    let state0 = empty;
    assert(fields_encoding(fields0).len() == 0);
    let fields1 = fields0 + optional_bytes(1, message.key);
    let state1 = GrantFlatView { key: message.key, ..state0 };
    lemma_append(fields0, optional_bytes(1, message.key), empty, state0, step);
    assert(message.key.len() == 0 ==> message.key =~= Seq::<u8>::empty());
    let fields2 = fields1 + optional_varint(2, extended(message.permission as int));
    let state2 = GrantFlatView { permission: message.permission, ..state1 };
    let permission = optional_varint(2, extended(message.permission as int));
    lemma_append(fields1, permission, empty, state1, step);
    assert(fields2 =~= GrantFlat::fields(message));
    lemma_fields_roundtrip(fields2);
}

/// The body of the entry that takes a permission from a key.
#[derive(Clone, Debug, PartialEq, Eq)]
pub struct RevokeFlat {
    /// The text form of the digest of the key that loses the permission.
    pub key_id: Vec<u8>,
    /// The number of the permission.
    pub permission: i32,
}

/// The mathematical value of a `RevokeFlat`.
pub ghost struct RevokeFlatView {
    pub key_id: Seq<u8>,
    pub permission: i32,
}

impl View for RevokeFlat {
    type V = RevokeFlatView;

    open spec fn view(&self) -> RevokeFlatView {
        RevokeFlatView { key_id: self.key_id@, permission: self.permission }
    }
}

impl RevokeFlatView {
    /// The texts are well-formed UTF-8, and no field is longer than 64 bits
    /// can say.
    pub open spec fn wf(self) -> bool {
        &&& valid_utf8(self.key_id)
        &&& self.key_id.len() <= u64::MAX
    }
}

impl Message for RevokeFlat {
    open spec fn empty() -> RevokeFlatView {
        RevokeFlatView { key_id: Seq::empty(), permission: 0 }
    }

    open spec fn step(state: RevokeFlatView, field: FieldView) -> Option<RevokeFlatView> {
        if field.tag == 1 {
            match text_payload(field) {
                Some(value) => Some(RevokeFlatView { key_id: value, ..state }),
                None => None,
            }
        } else if field.tag == 2 {
            match varint_payload(field) {
                Some(value) => Some(RevokeFlatView { permission: int32_of(value), ..state }),
                None => None,
            }
        } else {
            Some(state)
        }
    }

    open spec fn fields(message: RevokeFlatView) -> Seq<FieldView> {
        optional_bytes(1, message.key_id) + optional_varint(2, extended(message.permission as int))
    }

    fn new() -> (message: RevokeFlat) {
        RevokeFlat { key_id: Vec::new(), permission: 0 }
    }

    fn apply(self, field: &Field) -> (r: Option<RevokeFlat>) {
        let mut message = self;
        if field.tag == 1 {
            message.key_id = field_text(field)?;
        } else if field.tag == 2 {
            message.permission = to_int32(field_varint(field)?);
        }
        Some(message)
    }

    fn write(&self, writer: &mut Writer) {
        writer.optional_bytes(1, self.key_id.as_slice());
        writer.optional_varint(2, extend(self.permission as i64));
        assert(writer.fields() =~= old(writer).fields() + Self::fields(self@));
    }
}

/// Reading the image of a `RevokeFlat` gives it back; the image is little longer
/// than what the message holds.
pub proof fn lemma_revoke_flat_roundtrip(message: RevokeFlatView)
    requires
        message.wf(),
    ensures
        decoding::<RevokeFlat>(encoding::<RevokeFlat>(message)) == Some(message),
        encoding::<RevokeFlat>(message).len() <= 40 + message.key_id.len(),
{
    let step = stepper::<RevokeFlat>();
    let empty = RevokeFlat::empty();
    let fields0 = Seq::<FieldView>::empty();
    let state0 = empty;
    assert(fields_encoding(fields0).len() == 0);
    let fields1 = fields0 + optional_bytes(1, message.key_id);
    let state1 = RevokeFlatView { key_id: message.key_id, ..state0 };
    lemma_append(fields0, optional_bytes(1, message.key_id), empty, state0, step);
    assert(message.key_id.len() == 0 ==> message.key_id =~= Seq::<u8>::empty());
    let fields2 = fields1 + optional_varint(2, extended(message.permission as int));
    let state2 = RevokeFlatView { permission: message.permission, ..state1 };
    let permission = optional_varint(2, extended(message.permission as int));
    lemma_append(fields1, permission, empty, state1, step);
    assert(fields2 =~= RevokeFlat::fields(message));
    lemma_fields_roundtrip(fields2);
}

/// The body of the entry that releases a version.
#[derive(Clone, Debug, PartialEq, Eq)]
pub struct Release {
    /// The text form of the version.
    pub version: Vec<u8>,
    /// The text form of the digest of the content.
    pub content_hash: Vec<u8>,
}

/// The mathematical value of a `Release`.
pub ghost struct ReleaseView {
    pub version: Seq<u8>,
    pub content_hash: Seq<u8>,
}

impl View for Release {
    type V = ReleaseView;

    open spec fn view(&self) -> ReleaseView {
        ReleaseView { version: self.version@, content_hash: self.content_hash@ }
    }
}

impl ReleaseView {
    /// The texts are well-formed UTF-8, and no field is longer than 64 bits
    /// can say.
    pub open spec fn wf(self) -> bool {
        &&& valid_utf8(self.version)
        &&& self.version.len() <= u64::MAX
        &&& valid_utf8(self.content_hash)
        &&& self.content_hash.len() <= u64::MAX
    }
}

impl Message for Release {
    open spec fn empty() -> ReleaseView {
        ReleaseView { version: Seq::empty(), content_hash: Seq::empty() }
    }

    open spec fn step(state: ReleaseView, field: FieldView) -> Option<ReleaseView> {
        if field.tag == 1 {
            match text_payload(field) {
                Some(value) => Some(ReleaseView { version: value, ..state }),
                None => None,
            }
        } else if field.tag == 2 {
            match text_payload(field) {
                Some(value) => Some(ReleaseView { content_hash: value, ..state }),
                None => None,
            }
        } else {
            Some(state)
        }
    }

    open spec fn fields(message: ReleaseView) -> Seq<FieldView> {
        optional_bytes(1, message.version) + optional_bytes(2, message.content_hash)
    }

    fn new() -> (message: Release) {
        Release { version: Vec::new(), content_hash: Vec::new() }
    }

    fn apply(self, field: &Field) -> (r: Option<Release>) {
        let mut message = self;
        if field.tag == 1 {
            message.version = field_text(field)?;
        } else if field.tag == 2 {
            message.content_hash = field_text(field)?;
        }
        Some(message)
    }

    fn write(&self, writer: &mut Writer) {
        writer.optional_bytes(1, self.version.as_slice());
        writer.optional_bytes(2, self.content_hash.as_slice());
        assert(writer.fields() =~= old(writer).fields() + Self::fields(self@));
    }
}

/// Reading the image of a `Release` gives it back; the image is little longer
/// than what the message holds.
pub proof fn lemma_release_roundtrip(message: ReleaseView)
    requires
        message.wf(),
    ensures
        decoding::<Release>(encoding::<Release>(message)) == Some(message),
        encoding::<Release>(message).len() <= 40 + message.version.len()
            + message.content_hash.len(),
{
    let step = stepper::<Release>();
    let empty = Release::empty();
    let fields0 = Seq::<FieldView>::empty();
    let state0 = empty;
    assert(fields_encoding(fields0).len() == 0);
    let fields1 = fields0 + optional_bytes(1, message.version);
    let state1 = ReleaseView { version: message.version, ..state0 };
    lemma_append(fields0, optional_bytes(1, message.version), empty, state0, step);
    assert(message.version.len() == 0 ==> message.version =~= Seq::<u8>::empty());
    let fields2 = fields1 + optional_bytes(2, message.content_hash);
    let state2 = ReleaseView { content_hash: message.content_hash, ..state1 };
    lemma_append(fields1, optional_bytes(2, message.content_hash), empty, state1, step);
    assert(message.content_hash.len() == 0 ==> message.content_hash =~= Seq::<u8>::empty());
    assert(fields2 =~= Release::fields(message));
    lemma_fields_roundtrip(fields2);
}

/// The body of the entry that withdraws a version.
#[derive(Clone, Debug, PartialEq, Eq)]
pub struct Yank {
    /// The text form of the version.
    pub version: Vec<u8>,
}

/// The mathematical value of a `Yank`.
pub ghost struct YankView {
    pub version: Seq<u8>,
}

impl View for Yank {
    type V = YankView;

    open spec fn view(&self) -> YankView {
        YankView { version: self.version@ }
    }
}

impl YankView {
    /// The texts are well-formed UTF-8, and no field is longer than 64 bits
    /// can say.
    pub open spec fn wf(self) -> bool {
        &&& valid_utf8(self.version)
        &&& self.version.len() <= u64::MAX
    }
}

impl Message for Yank {
    open spec fn empty() -> YankView {
        YankView { version: Seq::empty() }
    }

    open spec fn step(state: YankView, field: FieldView) -> Option<YankView> {
        if field.tag == 1 {
            match text_payload(field) {
                Some(value) => Some(YankView { version: value }),
                None => None,
            }
        } else {
            Some(state)
        }
    }

    open spec fn fields(message: YankView) -> Seq<FieldView> {
        optional_bytes(1, message.version)
    }

    fn new() -> (message: Yank) {
        Yank { version: Vec::new() }
    }

    fn apply(self, field: &Field) -> (r: Option<Yank>) {
        let mut message = self;
        if field.tag == 1 {
            message.version = field_text(field)?;
        }
        Some(message)
    }

    fn write(&self, writer: &mut Writer) {
        writer.optional_bytes(1, self.version.as_slice());
    }
}

/// Reading the image of a `Yank` gives it back; the image is little longer
/// than what the message holds.
pub proof fn lemma_yank_roundtrip(message: YankView)
    requires
        message.wf(),
    ensures
        decoding::<Yank>(encoding::<Yank>(message)) == Some(message),
        encoding::<Yank>(message).len() <= 20 + message.version.len(),
{
    let step = stepper::<Yank>();
    let empty = Yank::empty();
    let fields0 = Seq::<FieldView>::empty();
    let state0 = empty;
    assert(fields_encoding(fields0).len() == 0);
    let fields1 = fields0 + optional_bytes(1, message.version);
    let state1 = YankView { version: message.version };
    lemma_append(fields0, optional_bytes(1, message.version), empty, state0, step);
    assert(message.version.len() == 0 ==> message.version =~= Seq::<u8>::empty());
    assert(fields1 =~= Yank::fields(message));
    lemma_fields_roundtrip(fields1);
}

/// The permissions, as the format numbers them.
#[derive(Clone, Copy, Debug, PartialEq, Eq, Structural)]
pub enum Permission {
    Release,
    Yank,
}

impl Permission {
    /// The number of the permission.
    pub open spec fn number(self) -> i32 {
        match self {
            Permission::Release => 0,
            Permission::Yank => 1,
        }
    }

    /// The permission that a number stands for.
    pub open spec fn of_number(number: i32) -> Option<Permission> {
        if number == 0 {
            Some(Permission::Release)
        } else if number == 1 {
            Some(Permission::Yank)
        } else {
            None
        }
    }

    /// The permission that `number` stands for.
    pub fn from_i32(number: i32) -> (r: Option<Permission>)
        ensures
            r == Permission::of_number(number),
    {
        if number == 0 {
            Some(Permission::Release)
        } else if number == 1 {
            Some(Permission::Yank)
        } else {
            None
        }
    }

    /// The number of the permission.
    pub fn to_i32(self) -> (number: i32)
        ensures
            number == self.number(),
    {
        match self {
            Permission::Release => 0,
            Permission::Yank => 1,
        }
    }
}

/// What an entry holds: one of five bodies.
#[derive(Clone, Debug, PartialEq, Eq)]
pub enum Contents {
    Init(Init),
    GrantFlat(GrantFlat),
    RevokeFlat(RevokeFlat),
    Release(Release),
    Yank(Yank),
}

/// The mathematical value of a `Contents`.
pub ghost enum ContentsView {
    Init(InitView),
    GrantFlat(GrantFlatView),
    RevokeFlat(RevokeFlatView),
    Release(ReleaseView),
    Yank(YankView),
}

impl View for Contents {
    type V = ContentsView;

    open spec fn view(&self) -> ContentsView {
        match self {
            Contents::Init(message) => ContentsView::Init(message@),
            Contents::GrantFlat(message) => ContentsView::GrantFlat(message@),
            Contents::RevokeFlat(message) => ContentsView::RevokeFlat(message@),
            Contents::Release(message) => ContentsView::Release(message@),
            Contents::Yank(message) => ContentsView::Yank(message@),
        }
    }
}

/// An entry of a record.
#[derive(Clone, Debug, PartialEq, Eq)]
pub struct PackageEntry {
    /// The body of the entry, where the image gave one.
    pub contents: Option<Contents>,
}

/// The mathematical value of a `PackageEntry`.
pub ghost struct PackageEntryView {
    pub contents: Option<ContentsView>,
}

impl View for PackageEntry {
    type V = PackageEntryView;

    open spec fn view(&self) -> PackageEntryView {
        PackageEntryView {
            contents: match self.contents {
                Some(contents) => Some(contents@),
                None => None,
            },
        }
    }
}

/// The tag under which a body stands in its entry.
pub open spec fn contents_tag(contents: ContentsView) -> u32 {
    match contents {
        ContentsView::Init(_) => 1,
        ContentsView::GrantFlat(_) => 2,
        ContentsView::RevokeFlat(_) => 3,
        ContentsView::Release(_) => 4,
        ContentsView::Yank(_) => 5,
    }
}

/// The image of a body.
pub open spec fn contents_encoding(contents: ContentsView) -> Seq<u8> {
    match contents {
        ContentsView::Init(message) => encoding::<Init>(message),
        ContentsView::GrantFlat(message) => encoding::<GrantFlat>(message),
        ContentsView::RevokeFlat(message) => encoding::<RevokeFlat>(message),
        ContentsView::Release(message) => encoding::<Release>(message),
        ContentsView::Yank(message) => encoding::<Yank>(message),
    }
}

/// The body that an entry holds after a field with the tag `tag`, between 1
/// and 5, and the bytes `body`: the body of that kind read before with `body`
/// merged into it, or `body` alone where the entry held none of that kind.
pub open spec fn contents_merging(current: Option<ContentsView>, tag: u32, body: Seq<u8>) -> Option<
    ContentsView,
> {
    if tag == 1 {
        let start = match current {
            Some(ContentsView::Init(message)) => message,
            _ => Init::empty(),
        };
        match merging::<Init>(start, body) {
            Some(message) => Some(ContentsView::Init(message)),
            None => None,
        }
    } else if tag == 2 {
        let start = match current {
            Some(ContentsView::GrantFlat(message)) => message,
            _ => GrantFlat::empty(),
        };
        match merging::<GrantFlat>(start, body) {
            Some(message) => Some(ContentsView::GrantFlat(message)),
            None => None,
        }
    } else if tag == 3 {
        let start = match current {
            Some(ContentsView::RevokeFlat(message)) => message,
            _ => RevokeFlat::empty(),
        };
        match merging::<RevokeFlat>(start, body) {
            Some(message) => Some(ContentsView::RevokeFlat(message)),
            None => None,
        }
    } else if tag == 4 {
        let start = match current {
            Some(ContentsView::Release(message)) => message,
            _ => Release::empty(),
        };
        match merging::<Release>(start, body) {
            Some(message) => Some(ContentsView::Release(message)),
            None => None,
        }
    } else {
        let start = match current {
            Some(ContentsView::Yank(message)) => message,
            _ => Yank::empty(),
        };
        match merging::<Yank>(start, body) {
            Some(message) => Some(ContentsView::Yank(message)),
            None => None,
        }
    }
}

impl ContentsView {
    /// The body is well-formed and its image is no longer than 64 bits can
    /// say.
    pub open spec fn wf(self) -> bool {
        &&& contents_encoding(self).len() <= u64::MAX
        &&& match self {
            ContentsView::Init(message) => message.wf(),
            ContentsView::GrantFlat(message) => message.wf(),
            ContentsView::RevokeFlat(message) => message.wf(),
            ContentsView::Release(message) => message.wf(),
            ContentsView::Yank(message) => message.wf(),
        }
    }
}

impl PackageEntryView {
    /// The body, where there is one, is well-formed.
    pub open spec fn wf(self) -> bool {
        match self.contents {
            Some(contents) => contents.wf(),
            None => true,
        }
    }
}

impl Contents {
    /// The tag under which the body stands in its entry.
    pub fn tag(&self) -> (tag: u32)
        ensures
            tag == contents_tag(self@),
    {
        match self {
            Contents::Init(_) => 1,
            Contents::GrantFlat(_) => 2,
            Contents::RevokeFlat(_) => 3,
            Contents::Release(_) => 4,
            Contents::Yank(_) => 5,
        }
    }

    /// The image of the body.
    pub fn encode(&self) -> (bytes: Vec<u8>)
        ensures
            bytes@ == contents_encoding(self@),
    {
        match self {
            Contents::Init(message) => encode(message),
            Contents::GrantFlat(message) => encode(message),
            Contents::RevokeFlat(message) => encode(message),
            Contents::Release(message) => encode(message),
            Contents::Yank(message) => encode(message),
        }
    }

    /// Reads the bytes of a field with the tag `tag` into the body that an
    /// entry holds.
    fn merge(current: Option<Contents>, tag: u32, body: &[u8]) -> (r: Option<Contents>)
        requires
            1 <= tag <= 5,
        ensures
            match r {
                Some(contents) => contents_merging(
                    match current {
                        Some(held) => Some(held@),
                        None => None,
                    },
                    tag,
                    body@,
                ) == Some(contents@),
                None => contents_merging(
                    match current {
                        Some(held) => Some(held@),
                        None => None,
                    },
                    tag,
                    body@,
                ) is None,
            },
    {
        if tag == 1 {
            let start = match current {
                Some(Contents::Init(message)) => message,
                _ => Init::new(),
            };
            Some(Contents::Init(merge(start, body)?))
        } else if tag == 2 {
            let start = match current {
                Some(Contents::GrantFlat(message)) => message,
                _ => GrantFlat::new(),
            };
            Some(Contents::GrantFlat(merge(start, body)?))
        } else if tag == 3 {
            let start = match current {
                Some(Contents::RevokeFlat(message)) => message,
                _ => RevokeFlat::new(),
            };
            Some(Contents::RevokeFlat(merge(start, body)?))
        } else if tag == 4 {
            let start = match current {
                Some(Contents::Release(message)) => message,
                _ => Release::new(),
            };
            Some(Contents::Release(merge(start, body)?))
        } else {
            let start = match current {
                Some(Contents::Yank(message)) => message,
                _ => Yank::new(),
            };
            Some(Contents::Yank(merge(start, body)?))
        }
    }
}

impl Message for PackageEntry {
    open spec fn empty() -> PackageEntryView {
        PackageEntryView { contents: None }
    }

    open spec fn step(state: PackageEntryView, field: FieldView) -> Option<PackageEntryView> {
        if 1 <= field.tag <= 5 {
            match bytes_payload(field) {
                Some(body) => match contents_merging(state.contents, field.tag, body) {
                    Some(contents) => Some(PackageEntryView { contents: Some(contents) }),
                    None => None,
                },
                None => None,
            }
        } else {
            Some(state)
        }
    }

    open spec fn fields(message: PackageEntryView) -> Seq<FieldView> {
        match message.contents {
            Some(contents) => seq![
                bytes_field(contents_tag(contents), contents_encoding(contents)),
            ],
            None => Seq::empty(),
        }
    }

    fn new() -> (message: PackageEntry) {
        PackageEntry { contents: None }
    }

    fn apply(self, field: &Field) -> (r: Option<PackageEntry>) {
        if 1 <= field.tag && field.tag <= 5 {
            let body = field_bytes(field)?;
            let contents = Contents::merge(self.contents, field.tag, body.as_slice())?;
            Some(PackageEntry { contents: Some(contents) })
        } else {
            Some(self)
        }
    }

    fn write(&self, writer: &mut Writer) {
        match &self.contents {
            Some(contents) => {
                let body = contents.encode();
                writer.bytes(contents.tag(), body.as_slice());
            },
            None => {
                assert(writer.fields() =~= old(writer).fields() + Self::fields(self@));
            },
        }
    }
}

/// Reading the image of an entry gives the entry back; the image is little
/// longer than that of the body.
pub proof fn lemma_package_entry_roundtrip(message: PackageEntryView)
    requires
        message.wf(),
    ensures
        decoding::<PackageEntry>(encoding::<PackageEntry>(message)) == Some(message),
        encoding::<PackageEntry>(message).len() <= 20 + (match message.contents {
            Some(contents) => contents_encoding(contents).len(),
            None => 0,
        }),
{
    let fields = PackageEntry::fields(message);
    let empty = PackageEntry::empty();
    let fields0 = Seq::<FieldView>::empty();
    assert(fields_encoding(fields0).len() == 0);
    assert(fields0 + fields =~= fields);
    lemma_append(fields0, fields, empty, empty, stepper::<PackageEntry>());
    match message.contents {
        Some(contents) => {
            match contents {
                ContentsView::Init(body) => {
                    lemma_init_roundtrip(body);
                },
                ContentsView::GrantFlat(body) => {
                    lemma_grant_flat_roundtrip(body);
                },
                ContentsView::RevokeFlat(body) => {
                    lemma_revoke_flat_roundtrip(body);
                },
                ContentsView::Release(body) => {
                    lemma_release_roundtrip(body);
                },
                ContentsView::Yank(body) => {
                    lemma_yank_roundtrip(body);
                },
            }
        },
        None => {},
    }
    lemma_fields_roundtrip(fields);
}

/// A record: entries published together.
#[derive(Clone, Debug, PartialEq, Eq)]
pub struct PackageRecord {
    /// The text form of the digest of the record before this one.
    pub prev: Option<Vec<u8>>,
    /// The version of the protocol.
    pub version: u32,
    /// When the record was made.
    pub time: Option<Timestamp>,
    /// The entries, in order.
    pub entries: Vec<PackageEntry>,
}

/// The mathematical value of a `PackageRecord`.
pub ghost struct PackageRecordView {
    pub prev: Option<Seq<u8>>,
    pub version: u32,
    pub time: Option<Timestamp>,
    pub entries: Seq<PackageEntryView>,
}

/// The values of a sequence of entries, in order.
pub open spec fn entries_view(entries: Seq<PackageEntry>) -> Seq<PackageEntryView> {
    entries.map_values(|entry: PackageEntry| entry@)
}

impl View for PackageRecord {
    type V = PackageRecordView;

    open spec fn view(&self) -> PackageRecordView {
        PackageRecordView {
            prev: match self.prev {
                Some(prev) => Some(prev@),
                None => None,
            },
            version: self.version,
            time: self.time,
            entries: entries_view(self.entries@),
        }
    }
}

impl PackageRecordView {
    /// The text and the entries are well-formed, and the image of each is no
    /// longer than 64 bits can say.
    pub open spec fn wf(self) -> bool {
        &&& self.prev matches Some(prev) ==> valid_utf8(prev) && prev.len() <= u64::MAX
        &&& forall|i: int|
            0 <= i < self.entries.len() ==> (#[trigger] self.entries[i]).wf() && encoding::<
                PackageEntry,
            >(self.entries[i]).len() <= u64::MAX
    }
}

/// The field of the digest of the record before: written where there is one,
/// even an empty one.
pub open spec fn prev_fields(prev: Option<Seq<u8>>) -> Seq<FieldView> {
    match prev {
        Some(text) => seq![bytes_field(1, text)],
        None => Seq::empty(),
    }
}

/// The field of the time.
pub open spec fn time_fields(time: Option<Timestamp>) -> Seq<FieldView> {
    match time {
        Some(time) => seq![bytes_field(3, encoding::<Timestamp>(time))],
        None => Seq::empty(),
    }
}

/// The fields of the entries: one for each, in order.
pub open spec fn entries_fields(entries: Seq<PackageEntryView>) -> Seq<FieldView> {
    Seq::new(entries.len(), |i: int| bytes_field(4, encoding::<PackageEntry>(entries[i])))
}

impl Message for PackageRecord {
    open spec fn empty() -> PackageRecordView {
        PackageRecordView { prev: None, version: 0, time: None, entries: Seq::empty() }
    }

    open spec fn step(state: PackageRecordView, field: FieldView) -> Option<PackageRecordView> {
        if field.tag == 1 {
            match text_payload(field) {
                Some(text) => Some(PackageRecordView { prev: Some(text), ..state }),
                None => None,
            }
        } else if field.tag == 2 {
            match varint_payload(field) {
                Some(value) => Some(PackageRecordView { version: uint32_of(value), ..state }),
                None => None,
            }
        } else if field.tag == 3 {
            match bytes_payload(field) {
                Some(body) => {
                    let start = match state.time {
                        Some(time) => time,
                        None => Timestamp::empty(),
                    };
                    match merging::<Timestamp>(start, body) {
                        Some(time) => Some(PackageRecordView { time: Some(time), ..state }),
                        None => None,
                    }
                },
                None => None,
            }
        } else if field.tag == 4 {
            match bytes_payload(field) {
                Some(body) => match decoding::<PackageEntry>(body) {
                    Some(entry) => Some(
                        PackageRecordView { entries: state.entries.push(entry), ..state },
                    ),
                    None => None,
                },
                None => None,
            }
        } else {
            Some(state)
        }
    }

    open spec fn fields(message: PackageRecordView) -> Seq<FieldView> {
        prev_fields(message.prev) + optional_varint(2, message.version as u64) + time_fields(
            message.time,
        ) + entries_fields(message.entries)
    }

    fn new() -> (message: PackageRecord) {
        let message = PackageRecord { prev: None, version: 0, time: None, entries: Vec::new() };
        assert(message@.entries =~= Seq::empty());
        message
    }

    fn apply(self, field: &Field) -> (r: Option<PackageRecord>) {
        let mut message = self;
        if field.tag == 1 {
            message.prev = Some(field_text(field)?);
        } else if field.tag == 2 {
            message.version = to_uint32(field_varint(field)?);
        } else if field.tag == 3 {
            let body = field_bytes(field)?;
            let start = match message.time {
                Some(time) => time,
                None => Timestamp::new(),
            };
            message.time = Some(merge(start, body.as_slice())?);
        } else if field.tag == 4 {
            let body = field_bytes(field)?;
            let entry: PackageEntry = decode(body.as_slice())?;
            message.entries.push(entry);
            assert(message@.entries =~= self@.entries.push(entry@));
        }
        Some(message)
    }

    fn write(&self, writer: &mut Writer) {
        match &self.prev {
            Some(prev) => {
                writer.bytes(1, prev.as_slice());
            },
            None => {},
        }
        writer.optional_varint(2, self.version as u64);
        match &self.time {
            Some(time) => {
                let body = encode(time);
                writer.bytes(3, body.as_slice());
            },
            None => {},
        }
        let ghost front = old(writer).fields() + prev_fields(self@.prev) + optional_varint(
            2,
            self.version as u64,
        ) + time_fields(self.time);
        assert(writer.fields() =~= front + entries_fields(self@.entries.take(0)));
        let mut i: usize = 0;
        while i < self.entries.len()
            invariant
                i <= self.entries.len(),
                writer.wf(),
                writer.fields() == front + entries_fields(self@.entries.take(i as int)),
            decreases self.entries.len() - i,
        {
            let body = encode(&self.entries[i]);
            writer.bytes(4, body.as_slice());
            assert(self@.entries[i as int] == self.entries@[i as int]@);
            assert(writer.fields() =~= front + entries_fields(self@.entries.take(i + 1)));
            i += 1;
        }
        assert(self@.entries.take(i as int) =~= self@.entries);
        assert(writer.fields() =~= old(writer).fields() + Self::fields(self@));
    }
}

/// Reading the fields of well-formed entries adds the entries to the record,
/// in order.
pub proof fn lemma_entries_fold(entries: Seq<PackageEntryView>, state: PackageRecordView)
    requires
        forall|i: int|
            0 <= i < entries.len() ==> (#[trigger] entries[i]).wf() && encoding::<PackageEntry>(
                entries[i],
            ).len() <= u64::MAX,
    ensures
        fold_fields(entries_fields(entries), state, stepper::<PackageRecord>()) == Some(
            PackageRecordView { entries: state.entries + entries, ..state },
        ),
        fields_wf(entries_fields(entries)),
    decreases entries.len(),
{
    let fields = entries_fields(entries);
    if entries.len() == 0 {
        assert(state.entries + entries =~= state.entries);
    } else {
        let head = entries.drop_last();
        let last = entries.last();
        lemma_entries_fold(head, state);
        assert(fields.drop_last() =~= entries_fields(head));
        assert(fields.last() == bytes_field(4, encoding::<PackageEntry>(last)));
        assert(last.wf());
        lemma_package_entry_roundtrip(last);
        assert((state.entries + head).push(last) =~= state.entries + entries);
    }
}

/// Reading the image of a well-formed record gives the record back.
pub proof fn lemma_package_record_roundtrip(message: PackageRecordView)
    requires
        message.wf(),
    ensures
        decoding::<PackageRecord>(encoding::<PackageRecord>(message)) == Some(message),
{
    let step = stepper::<PackageRecord>();
    let empty = PackageRecord::empty();
    let fields0 = Seq::<FieldView>::empty();
    let fields1 = fields0 + prev_fields(message.prev);
    let state1 = PackageRecordView { prev: message.prev, ..empty };
    lemma_append(fields0, prev_fields(message.prev), empty, empty, step);
    let fields2 = fields1 + optional_varint(2, message.version as u64);
    let state2 = PackageRecordView { version: message.version, ..state1 };
    lemma_append(fields1, optional_varint(2, message.version as u64), empty, state1, step);
    let fields3 = fields2 + time_fields(message.time);
    let state3 = PackageRecordView { time: message.time, ..state2 };
    if let Some(time) = message.time {
        lemma_timestamp_roundtrip(time);
    }
    lemma_append(fields2, time_fields(message.time), empty, state2, step);
    let fields4 = fields3 + entries_fields(message.entries);
    crate::wire::lemma_fold_concat(fields3, entries_fields(message.entries), empty, step);
    lemma_entries_fold(message.entries, state3);
    assert(state3.entries + message.entries =~= message.entries);
    assert(fields4 =~= PackageRecord::fields(message));
    lemma_fields_roundtrip(fields4);
}

} // verus!
