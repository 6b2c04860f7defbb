//! The signed envelope, and the binary codec of package records.

pub mod model;

use crate::hash::{
    algorithm_name, algorithm_parsing, hash_parsing, hash_text, lemma_algorithm_name,
    lemma_hash_text_roundtrip, HashAlgorithm, HashParseError, HashView,
};
use crate::protobuf;
use crate::protobuf::Timestamp;
use crate::signing::{
    key_id, lemma_public_key_text_roundtrip, lemma_signature_text_roundtrip, p256_signature,
    p256_verifies, public_key_parsing, public_key_text, signature_parsing, signature_text,
    PrivateKey, PublicKey, PublicKeyParseError, PublicKeyView, Signature, SignatureAlgorithm,
    SignatureError, SignatureParseError, SignatureView,
};
use crate::version::{
    lemma_version_text_roundtrip, version_parsing, version_text, Version, VersionParseError,
};
use vstd::prelude::*;
use vstd::slice::slice_to_vec;

verus! {

/// Why a text field of a record is not the typed value it should be.
#[derive(Clone, Copy, Debug, PartialEq, Eq, Structural)]
pub enum ContentsError {
    /// The text names no hash algorithm.
    HashAlgorithm,
    /// The text is no public key.
    PublicKey(PublicKeyParseError),
    /// The text is no hash.
    Hash(HashParseError),
    /// The text is no version.
    Version(VersionParseError),
}

/// Errors that occur in the process of parsing a record from bytes.
#[derive(Clone, Copy, Debug, PartialEq, Eq, Structural)]
pub enum ParseRecordError {
    /// The bytes are no image of a record.
    ProtobufParseError,
    /// A text field is not the typed value it should be.
    ContentsParseError(ContentsError),
    /// The time is outside what the format accepts.
    TimestampParseError,
    /// The record has no time, or an entry has no body.
    MissingRequiredField,
    /// The number of a permission stands for none.
    UnknownEnumValue,
}

/// The number of a permission in the format.
pub open spec fn permission_number(permission: model::Permission) -> i32 {
    match permission {
        model::Permission::Release => protobuf::Permission::Release.number(),
        model::Permission::Yank => protobuf::Permission::Yank.number(),
    }
}

/// The permission that a number of the format stands for.
pub open spec fn permission_from_number(number: i32) -> Result<
    model::Permission,
    ParseRecordError,
> {
    match protobuf::Permission::of_number(number) {
        Some(protobuf::Permission::Release) => Ok(model::Permission::Release),
        Some(protobuf::Permission::Yank) => Ok(model::Permission::Yank),
        None => Err(ParseRecordError::UnknownEnumValue),
    }
}

/// The message that an entry is written as.
pub open spec fn entry_to_proto(entry: model::PackageEntryView) -> protobuf::PackageEntryView {
    protobuf::PackageEntryView {
        contents: Some(
            match entry {
                model::PackageEntryView::Init {
                    hash_algorithm,
                    key,
                } => protobuf::ContentsView::Init(
                    protobuf::InitView {
                        key: public_key_text(key),
                        hash_algorithm: algorithm_name(hash_algorithm),
                    },
                ),
                model::PackageEntryView::GrantFlat {
                    key,
                    permission,
                } => protobuf::ContentsView::GrantFlat(
                    protobuf::GrantFlatView {
                        key: public_key_text(key),
                        permission: permission_number(permission),
                    },
                ),
                model::PackageEntryView::RevokeFlat {
                    key_id,
                    permission,
                } => protobuf::ContentsView::RevokeFlat(
                    protobuf::RevokeFlatView {
                        key_id: hash_text(key_id),
                        permission: permission_number(permission),
                    },
                ),
                model::PackageEntryView::Release {
                    version,
                    content,
                } => protobuf::ContentsView::Release(
                    protobuf::ReleaseView {
                        version: version_text(version),
                        content_hash: hash_text(content),
                    },
                ),
                model::PackageEntryView::Yank { version } => protobuf::ContentsView::Yank(
                    protobuf::YankView { version: version_text(version) },
                ),
            },
        ),
    }
}

/// The hash algorithm that a text field names.
pub open spec fn algorithm_field(text: Seq<u8>) -> Result<HashAlgorithm, ParseRecordError> {
    match algorithm_parsing(text) {
        Some(algorithm) => Ok(algorithm),
        None => Err(ParseRecordError::ContentsParseError(ContentsError::HashAlgorithm)),
    }
}

/// The public key that a text field holds.
pub open spec fn public_key_field(text: Seq<u8>) -> Result<PublicKeyView, ParseRecordError> {
    match public_key_parsing(text) {
        Ok(key) => Ok(key),
        Err(e) => Err(ParseRecordError::ContentsParseError(ContentsError::PublicKey(e))),
    }
}

/// The hash that a text field holds.
pub open spec fn hash_field(text: Seq<u8>) -> Result<HashView, ParseRecordError> {
    match hash_parsing(text) {
        Ok(hash) => Ok(hash),
        Err(e) => Err(ParseRecordError::ContentsParseError(ContentsError::Hash(e))),
    }
}

/// The version that a text field holds.
pub open spec fn version_field(text: Seq<u8>) -> Result<Version, ParseRecordError> {
    match version_parsing(text) {
        Ok(version) => Ok(version),
        Err(e) => Err(ParseRecordError::ContentsParseError(ContentsError::Version(e))),
    }
}

/// The entry that a message stands for, or the first reason why it stands for
/// none: the body is missing, or a field of it, taken in the order in which
/// the entry names them, is not the typed value it should be.
pub open spec fn entry_from_proto(entry: protobuf::PackageEntryView) -> Result<
    model::PackageEntryView,
    ParseRecordError,
> {
    match entry.contents {
        None => Err(ParseRecordError::MissingRequiredField),
        Some(protobuf::ContentsView::Init(init)) => match algorithm_field(init.hash_algorithm) {
            Err(e) => Err(e),
            Ok(hash_algorithm) => match public_key_field(init.key) {
                Err(e) => Err(e),
                Ok(key) => Ok(model::PackageEntryView::Init { hash_algorithm, key }),
            },
        },
        Some(protobuf::ContentsView::GrantFlat(grant)) => match public_key_field(grant.key) {
            Err(e) => Err(e),
            Ok(key) => match permission_from_number(grant.permission) {
                Err(e) => Err(e),
                Ok(permission) => Ok(model::PackageEntryView::GrantFlat { key, permission }),
            },
        },
        Some(protobuf::ContentsView::RevokeFlat(revoke)) => match hash_field(revoke.key_id) {
            Err(e) => Err(e),
            Ok(key_id) => match permission_from_number(revoke.permission) {
                Err(e) => Err(e),
                Ok(permission) => Ok(model::PackageEntryView::RevokeFlat { key_id, permission }),
            },
        },
        Some(protobuf::ContentsView::Release(release)) => match version_field(release.version) {
            Err(e) => Err(e),
            Ok(version) => match hash_field(release.content_hash) {
                Err(e) => Err(e),
                Ok(content) => Ok(model::PackageEntryView::Release { version, content }),
            },
        },
        Some(protobuf::ContentsView::Yank(yank)) => match version_field(yank.version) {
            Err(e) => Err(e),
            Ok(version) => Ok(model::PackageEntryView::Yank { version }),
        },
    }
}

/// The messages that entries are written as, in order.
pub open spec fn entries_to_proto(entries: Seq<model::PackageEntryView>) -> Seq<
    protobuf::PackageEntryView,
> {
    Seq::new(entries.len(), |i: int| entry_to_proto(entries[i]))
}

/// The entries that messages stand for, in order, or the reason why the
/// first of them that stands for none does so.
pub open spec fn entries_from_proto(entries: Seq<protobuf::PackageEntryView>) -> Result<
    Seq<model::PackageEntryView>,
    ParseRecordError,
>
    decreases entries.len(),
{
    if entries.len() == 0 {
        Ok(Seq::empty())
    } else {
        match entries_from_proto(entries.drop_last()) {
            Err(e) => Err(e),
            Ok(head) => match entry_from_proto(entries.last()) {
                Err(e) => Err(e),
                Ok(entry) => Ok(head.push(entry)),
            },
        }
    }
}

/// The message that a record is written as.
pub open spec fn record_to_proto(record: model::PackageRecordView) -> protobuf::PackageRecordView {
    protobuf::PackageRecordView {
        prev: match record.prev {
            Some(hash) => Some(hash_text(hash)),
            None => None,
        },
        version: record.version,
        time: Some(record.timestamp),
        entries: entries_to_proto(record.entries),
    }
}

/// The digest of the record before, as the field of a message gives it.
pub open spec fn prev_from_proto(prev: Option<Seq<u8>>) -> Result<
    Option<HashView>,
    ParseRecordError,
> {
    match prev {
        None => Ok(None),
        Some(text) => match hash_field(text) {
            Err(e) => Err(e),
            Ok(hash) => Ok(Some(hash)),
        },
    }
}

/// The time of a record, as the field of a message gives it.
pub open spec fn time_from_proto(time: Option<Timestamp>) -> Result<Timestamp, ParseRecordError> {
    match time {
        None => Err(ParseRecordError::MissingRequiredField),
        Some(time) => if model::timestamp_valid(time) {
            Ok(time)
        } else {
            Err(ParseRecordError::TimestampParseError)
        },
    }
}

/// The record that a message stands for, or the first reason why it stands
/// for none, the digest of the record before taken first, then the time, then
/// the entries in order.
pub open spec fn record_from_proto(record: protobuf::PackageRecordView) -> Result<
    model::PackageRecordView,
    ParseRecordError,
> {
    match prev_from_proto(record.prev) {
        Err(e) => Err(e),
        Ok(prev) => match time_from_proto(record.time) {
            Err(e) => Err(e),
            Ok(timestamp) => match entries_from_proto(record.entries) {
                Err(e) => Err(e),
                Ok(entries) => Ok(
                    model::PackageRecordView { prev, version: record.version, timestamp, entries },
                ),
            },
        },
    }
}

/// The image of a record.
pub open spec fn record_encoding(record: model::PackageRecordView) -> Seq<u8> {
    protobuf::encoding::<protobuf::PackageRecord>(record_to_proto(record))
}

/// The record that bytes stand for, or why they stand for none.
pub open spec fn record_decoding(bytes: Seq<u8>) -> Result<
    model::PackageRecordView,
    ParseRecordError,
> {
    match protobuf::decoding::<protobuf::PackageRecord>(bytes) {
        None => Err(ParseRecordError::ProtobufParseError),
        Some(record) => record_from_proto(record),
    }
}

/// A number of the format stands for the permission it is the number of.
pub proof fn lemma_permission_roundtrip(permission: model::Permission)
    ensures
        permission_from_number(permission_number(permission)) == Ok::<
            model::Permission,
            ParseRecordError,
        >(permission),
{
}

/// The message of a well-formed entry stands for the entry, is well-formed
/// itself, and has a short image.
pub proof fn lemma_entry_proto_roundtrip(entry: model::PackageEntryView)
    requires
        entry.wf(),
    ensures
        entry_from_proto(entry_to_proto(entry)) == Ok::<model::PackageEntryView, ParseRecordError>(
            entry,
        ),
        entry_to_proto(entry).wf(),
        protobuf::encoding::<protobuf::PackageEntry>(entry_to_proto(entry)).len() <= 512,
{
    let proto = entry_to_proto(entry);
    match entry {
        model::PackageEntryView::Init { hash_algorithm, key } => {
            lemma_algorithm_name(hash_algorithm);
            lemma_public_key_text_roundtrip(key);
            protobuf::lemma_init_roundtrip(proto.contents->0->Init_0);
        },
        model::PackageEntryView::GrantFlat { key, permission } => {
            lemma_public_key_text_roundtrip(key);
            protobuf::lemma_grant_flat_roundtrip(proto.contents->0->GrantFlat_0);
        },
        model::PackageEntryView::RevokeFlat { key_id, permission } => {
            lemma_hash_text_roundtrip(key_id);
            protobuf::lemma_revoke_flat_roundtrip(proto.contents->0->RevokeFlat_0);
        },
        model::PackageEntryView::Release { version, content } => {
            lemma_version_text_roundtrip(version);
            lemma_hash_text_roundtrip(content);
            protobuf::lemma_release_roundtrip(proto.contents->0->Release_0);
        },
        model::PackageEntryView::Yank { version } => {
            lemma_version_text_roundtrip(version);
            protobuf::lemma_yank_roundtrip(proto.contents->0->Yank_0);
        },
    }
    protobuf::lemma_package_entry_roundtrip(proto);
}

/// The messages of well-formed entries stand for the entries.
pub proof fn lemma_entries_proto_roundtrip(entries: Seq<model::PackageEntryView>)
    requires
        forall|i: int| 0 <= i < entries.len() ==> (#[trigger] entries[i]).wf(),
    ensures
        entries_from_proto(entries_to_proto(entries)) == Ok::<
            Seq<model::PackageEntryView>,
            ParseRecordError,
        >(entries),
    decreases entries.len(),
{
    let protos = entries_to_proto(entries);
    if entries.len() == 0 {
        assert(entries =~= Seq::empty());
    } else {
        let head = entries.drop_last();
        lemma_entries_proto_roundtrip(head);
        assert(protos.drop_last() =~= entries_to_proto(head));
        assert(protos.last() == entry_to_proto(entries.last()));
        lemma_entry_proto_roundtrip(entries.last());
        assert(head.push(entries.last()) =~= entries);
    }
}

/// Where the first messages of a sequence stand for no entries, the whole
/// sequence stands for none, for the same reason.
pub proof fn lemma_entries_from_proto_prefix(entries: Seq<protobuf::PackageEntryView>, len: int)
    requires
        0 <= len <= entries.len(),
        entries_from_proto(entries.take(len)) is Err,
    ensures
        entries_from_proto(entries) == entries_from_proto(entries.take(len)),
    decreases entries.len(),
{
    if len < entries.len() {
        let head = entries.drop_last();
        assert(head.take(len) =~= entries.take(len));
        lemma_entries_from_proto_prefix(head, len);
    } else {
        assert(entries.take(len) =~= entries);
    }
}

/// For every valid record: decoding its image gives the record back.
pub proof fn lemma_record_roundtrip(record: model::PackageRecordView)
    requires
        record.wf(),
    ensures
        record_decoding(record_encoding(record)) == Ok::<
            model::PackageRecordView,
            ParseRecordError,
        >(record),
{
    let proto = record_to_proto(record);
    if let Some(prev) = record.prev {
        lemma_hash_text_roundtrip(prev);
    }
    lemma_entries_proto_roundtrip(record.entries);
    assert forall|i: int| 0 <= i < proto.entries.len() implies (#[trigger] proto.entries[i]).wf()
        && protobuf::encoding::<protobuf::PackageEntry>(proto.entries[i]).len() <= u64::MAX by {
        lemma_entry_proto_roundtrip(record.entries[i]);
    }
    protobuf::lemma_package_record_roundtrip(proto);
}

/// What an envelope can carry: a value with an image in bytes.
pub trait Codec: View + Sized {
    /// Why bytes are no image of a value.
    type Error;

    /// The values that decoding gives back.
    spec fn valid(value: Self::V) -> bool;

    /// The image of a value.
    spec fn encoding(value: Self::V) -> Seq<u8>;

    /// The value that bytes stand for, or why they stand for none.
    spec fn decoding(bytes: Seq<u8>) -> Result<Self::V, Self::Error>;

    /// Decoding the image of a valid value gives the value back.
    proof fn lemma_roundtrip(value: Self::V)
        requires
            Self::valid(value),
        ensures
            Self::decoding(Self::encoding(value)) == Ok::<Self::V, Self::Error>(value),
    ;

    /// The image of the value.
    fn encode(&self) -> (bytes: Vec<u8>)
        ensures
            bytes@ == Self::encoding(self@),
    ;

    /// Reads the image of a value.
    fn decode(bytes: &[u8]) -> (r: Result<Self, Self::Error>)
        ensures
            match r {
                Ok(value) => Self::decoding(bytes@) == Ok::<Self::V, Self::Error>(value@),
                Err(e) => Self::decoding(bytes@) == Err::<Self::V, Self::Error>(e),
            },
    ;
}

fn parse_algorithm_field(text: &[u8]) -> (r: Result<HashAlgorithm, ParseRecordError>)
    ensures
        r == algorithm_field(text@),
{
    match HashAlgorithm::parse(text) {
        Some(algorithm) => Ok(algorithm),
        None => Err(ParseRecordError::ContentsParseError(ContentsError::HashAlgorithm)),
    }
}

fn parse_public_key_field(text: &[u8]) -> (r: Result<PublicKey, ParseRecordError>)
    ensures
        match r {
            Ok(key) => public_key_field(text@) == Ok::<PublicKeyView, ParseRecordError>(key@),
            Err(e) => public_key_field(text@) == Err::<PublicKeyView, ParseRecordError>(e),
        },
{
    match PublicKey::parse(text) {
        Ok(key) => Ok(key),
        Err(e) => Err(ParseRecordError::ContentsParseError(ContentsError::PublicKey(e))),
    }
}

fn parse_hash_field(text: &[u8]) -> (r: Result<crate::hash::Hash, ParseRecordError>)
    ensures
        match r {
            Ok(hash) => hash_field(text@) == Ok::<HashView, ParseRecordError>(hash@),
            Err(e) => hash_field(text@) == Err::<HashView, ParseRecordError>(e),
        },
{
    match crate::hash::Hash::parse(text) {
        Ok(hash) => Ok(hash),
        Err(e) => Err(ParseRecordError::ContentsParseError(ContentsError::Hash(e))),
    }
}

fn parse_version_field(text: &[u8]) -> (r: Result<Version, ParseRecordError>)
    ensures
        r == version_field(text@),
{
    match Version::parse(text) {
        Ok(version) => Ok(version),
        Err(e) => Err(ParseRecordError::ContentsParseError(ContentsError::Version(e))),
    }
}

impl model::Permission {
    /// The number of the permission in the format.
    pub fn number(self) -> (number: i32)
        ensures
            number == permission_number(self),
    {
        let proto = match self {
            model::Permission::Release => protobuf::Permission::Release,
            model::Permission::Yank => protobuf::Permission::Yank,
        };
        proto.to_i32()
    }

    /// The permission that a number of the format stands for.
    pub fn from_number(number: i32) -> (r: Result<model::Permission, ParseRecordError>)
        ensures
            r == permission_from_number(number),
    {
        match protobuf::Permission::from_i32(number) {
            Some(protobuf::Permission::Release) => Ok(model::Permission::Release),
            Some(protobuf::Permission::Yank) => Ok(model::Permission::Yank),
            None => Err(ParseRecordError::UnknownEnumValue),
        }
    }
}

impl model::PackageEntry {
    /// The message that the entry is written as.
    pub fn to_proto(&self) -> (proto: protobuf::PackageEntry)
        ensures
            proto@ == entry_to_proto(self@),
    {
        let contents = match self {
            model::PackageEntry::Init { hash_algorithm, key } => protobuf::Contents::Init(
                protobuf::Init {
                    key: key.text(),
                    hash_algorithm: slice_to_vec(hash_algorithm.name()),
                },
            ),
            model::PackageEntry::GrantFlat { key, permission } => protobuf::Contents::GrantFlat(
                protobuf::GrantFlat { key: key.text(), permission: permission.number() },
            ),
            model::PackageEntry::RevokeFlat { key_id, permission } => protobuf::Contents::RevokeFlat(
                protobuf::RevokeFlat { key_id: key_id.text(), permission: permission.number() },
            ),
            model::PackageEntry::Release { version, content } => protobuf::Contents::Release(
                protobuf::Release { version: version.text(), content_hash: content.text() },
            ),
            model::PackageEntry::Yank { version } => protobuf::Contents::Yank(
                protobuf::Yank { version: version.text() },
            ),
        };
        protobuf::PackageEntry { contents: Some(contents) }
    }

    /// The entry that a message stands for.
    pub fn from_proto(entry: &protobuf::PackageEntry) -> (r: Result<
        model::PackageEntry,
        ParseRecordError,
    >)
        ensures
            match r {
                Ok(output) => entry_from_proto(entry@) == Ok::<
                    model::PackageEntryView,
                    ParseRecordError,
                >(output@),
                Err(e) => entry_from_proto(entry@) == Err::<
                    model::PackageEntryView,
                    ParseRecordError,
                >(e),
            },
    {
        let contents = match &entry.contents {
            Some(contents) => contents,
            None => {
                return Err(ParseRecordError::MissingRequiredField);
            },
        };
        match contents {
            protobuf::Contents::Init(init) => {
                let hash_algorithm = match parse_algorithm_field(init.hash_algorithm.as_slice()) {
                    Ok(algorithm) => algorithm,
                    Err(e) => {
                        return Err(e);
                    },
                };
                let key = match parse_public_key_field(init.key.as_slice()) {
                    Ok(key) => key,
                    Err(e) => {
                        return Err(e);
                    },
                };
                Ok(model::PackageEntry::Init { hash_algorithm, key })
            },
            protobuf::Contents::GrantFlat(grant_flat) => {
                let key = match parse_public_key_field(grant_flat.key.as_slice()) {
                    Ok(key) => key,
                    Err(e) => {
                        return Err(e);
                    },
                };
                let permission = match model::Permission::from_number(grant_flat.permission) {
                    Ok(permission) => permission,
                    Err(e) => {
                        return Err(e);
                    },
                };
                Ok(model::PackageEntry::GrantFlat { key, permission })
            },
            protobuf::Contents::RevokeFlat(revoke_flat) => {
                let key_id = match parse_hash_field(revoke_flat.key_id.as_slice()) {
                    Ok(key_id) => key_id,
                    Err(e) => {
                        return Err(e);
                    },
                };
                let permission = match model::Permission::from_number(revoke_flat.permission) {
                    Ok(permission) => permission,
                    Err(e) => {
                        return Err(e);
                    },
                };
                Ok(model::PackageEntry::RevokeFlat { key_id, permission })
            },
            protobuf::Contents::Release(release) => {
                let version = match parse_version_field(release.version.as_slice()) {
                    Ok(version) => version,
                    Err(e) => {
                        return Err(e);
                    },
                };
                let content = match parse_hash_field(release.content_hash.as_slice()) {
                    Ok(content) => content,
                    Err(e) => {
                        return Err(e);
                    },
                };
                Ok(model::PackageEntry::Release { version, content })
            },
            protobuf::Contents::Yank(yank) => {
                let version = match parse_version_field(yank.version.as_slice()) {
                    Ok(version) => version,
                    Err(e) => {
                        return Err(e);
                    },
                };
                Ok(model::PackageEntry::Yank { version })
            },
        }
    }
}

/// Whether a timestamp is one that the format accepts.
fn is_timestamp_valid(time: &Timestamp) -> (valid: bool)
    ensures
        valid == model::timestamp_valid(*time),
{
    -62_135_596_800 <= time.seconds && time.seconds <= 253_402_300_799 && 0 <= time.nanos
        && time.nanos <= 999_999_999
}

impl model::PackageRecord {
    /// The message that the record is written as.
    pub fn to_proto(&self) -> (proto: protobuf::PackageRecord)
        ensures
            proto@ == record_to_proto(self@),
    {
        let prev = match &self.prev {
            Some(hash) => Some(hash.text()),
            None => None,
        };
        let mut entries: Vec<protobuf::PackageEntry> = Vec::new();
        let mut i: usize = 0;
        while i < self.entries.len()
            invariant
                i <= self.entries.len(),
                entries@.len() == i,
                forall|j: int| 0 <= j < i ==> (#[trigger] entries@[j])@ == entry_to_proto(
                    self.entries@[j]@,
                ),
            decreases self.entries.len() - i,
        {
            entries.push(self.entries[i].to_proto());
            i += 1;
        }
        let proto = protobuf::PackageRecord {
            prev,
            version: self.version,
            time: Some(self.timestamp),
            entries,
        };
        assert(proto@.entries =~= entries_to_proto(self@.entries));
        proto
    }

    /// The record that a message stands for.
    pub fn from_proto(record: &protobuf::PackageRecord) -> (r: Result<
        model::PackageRecord,
        ParseRecordError,
    >)
        ensures
            match r {
                Ok(output) => record_from_proto(record@) == Ok::<
                    model::PackageRecordView,
                    ParseRecordError,
                >(output@),
                Err(e) => record_from_proto(record@) == Err::<
                    model::PackageRecordView,
                    ParseRecordError,
                >(e),
            },
    {
        let prev = match &record.prev {
            Some(text) => match parse_hash_field(text.as_slice()) {
                Ok(hash) => Some(hash),
                Err(e) => {
                    return Err(e);
                },
            },
            None => None,
        };
        let version = record.version;
        let timestamp = match record.time {
            Some(time) => time,
            None => {
                return Err(ParseRecordError::MissingRequiredField);
            },
        };
        if !is_timestamp_valid(&timestamp) {
            return Err(ParseRecordError::TimestampParseError);
        }
        let ghost protos = record@.entries;
        let mut entries: Vec<model::PackageEntry> = Vec::new();
        let mut i: usize = 0;
        assert(protos.take(0) =~= Seq::empty());
        assert(model::entries_view(entries@) =~= Seq::empty());
        while i < record.entries.len()
            invariant
                i <= record.entries.len(),
                protos == record@.entries,
                prev_from_proto(record@.prev) is Ok,
                time_from_proto(record@.time) is Ok,
                entries_from_proto(protos.take(i as int)) == Ok::<
                    Seq<model::PackageEntryView>,
                    ParseRecordError,
                >(model::entries_view(entries@)),
            decreases record.entries.len() - i,
        {
            let ghost before = model::entries_view(entries@);
            proof {
                assert(protos.take(i + 1).drop_last() =~= protos.take(i as int));
                assert(protos.take(i + 1).last() == record.entries@[i as int]@);
            }
            match model::PackageEntry::from_proto(&record.entries[i]) {
                Ok(entry) => {
                    entries.push(entry);
                    assert(model::entries_view(entries@) =~= before.push(entry@));
                },
                Err(e) => {
                    proof {
                        lemma_entries_from_proto_prefix(protos, i + 1);
                    }
                    return Err(e);
                },
            }
            i += 1;
        }
        assert(protos.take(i as int) =~= protos);
        Ok(model::PackageRecord { prev, version, timestamp, entries })
    }
}

impl Codec for model::PackageRecord {
    type Error = ParseRecordError;

    open spec fn valid(value: model::PackageRecordView) -> bool {
        value.wf()
    }

    open spec fn encoding(value: model::PackageRecordView) -> Seq<u8> {
        record_encoding(value)
    }

    open spec fn decoding(bytes: Seq<u8>) -> Result<model::PackageRecordView, ParseRecordError> {
        record_decoding(bytes)
    }

    proof fn lemma_roundtrip(value: model::PackageRecordView) {
        lemma_record_roundtrip(value);
    }

    fn encode(&self) -> (bytes: Vec<u8>) {
        let proto_record = self.to_proto();
        protobuf::encode(&proto_record)
    }

    fn decode(bytes: &[u8]) -> (r: Result<model::PackageRecord, ParseRecordError>) {
        match protobuf::decode::<protobuf::PackageRecord>(bytes) {
            Some(record) => model::PackageRecord::from_proto(&record),
            None => Err(ParseRecordError::ProtobufParseError),
        }
    }
}

/// The envelope struct is used to keep around the original bytes that the
/// content was serialized into in case the serialization is not canonical.
#[derive(Debug, Clone, PartialEq, Eq)]
pub struct Envelope<Contents> {
    /// The content represented by content_bytes.
    pub contents: Contents,
    /// The serialized representation of the content.
    pub content_bytes: Vec<u8>,
    /// The hash of the key that signed this envelope.
    pub key_id: crate::hash::Hash,
    /// The signature for the content_bytes.
    pub signature: Signature,
}

/// The mathematical value of an `Envelope`.
pub ghost struct EnvelopeView<V> {
    pub contents: V,
    pub content_bytes: Seq<u8>,
    pub key_id: HashView,
    pub signature: SignatureView,
}

impl<Contents: View> View for Envelope<Contents> {
    type V = EnvelopeView<Contents::V>;

    open spec fn view(&self) -> EnvelopeView<Contents::V> {
        EnvelopeView {
            contents: self.contents@,
            content_bytes: self.content_bytes@,
            key_id: self.key_id@,
            signature: self.signature@,
        }
    }
}

/// Errors that occur in the process of parsing an envelope from bytes.
#[derive(Debug, Clone, PartialEq, Eq)]
pub enum ParseEnvelopeError<ContentsParseError> {
    /// Failed to parse the outer envelope message.
    ProtobufEnvelopeParseError,
    /// Failed to parse envelope contents from bytes.
    ContentsParseError(ContentsParseError),
    /// Failed to parse envelope key id.
    KeyIDParseError(HashParseError),
    /// Failed to parse envelope signature.
    SignatureParseError(SignatureParseError),
}

/// The message that an envelope is written as: the content bytes as they
/// are, and the text forms of key id and signature.
pub open spec fn envelope_to_proto<V>(envelope: EnvelopeView<V>) -> protobuf::EnvelopeView {
    protobuf::EnvelopeView {
        contents: envelope.content_bytes,
        key_id: hash_text(envelope.key_id),
        signature: signature_text(envelope.signature),
    }
}

/// The image of an envelope.
pub open spec fn envelope_encoding<V>(envelope: EnvelopeView<V>) -> Seq<u8> {
    protobuf::encoding::<protobuf::Envelope>(envelope_to_proto(envelope))
}

/// The envelope that a message stands for, or the first reason why it stands
/// for none: the contents are taken first, then the key id, then the
/// signature. The content bytes are kept as they stand in the message.
pub open spec fn envelope_from_proto<C: Codec>(proto: protobuf::EnvelopeView) -> Result<
    EnvelopeView<C::V>,
    ParseEnvelopeError<C::Error>,
> {
    match C::decoding(proto.contents) {
        Err(e) => Err(ParseEnvelopeError::ContentsParseError(e)),
        Ok(contents) => match hash_parsing(proto.key_id) {
            Err(e) => Err(ParseEnvelopeError::KeyIDParseError(e)),
            Ok(key_id) => match signature_parsing(proto.signature) {
                Err(e) => Err(ParseEnvelopeError::SignatureParseError(e)),
                Ok(signature) => Ok(
                    EnvelopeView { contents, content_bytes: proto.contents, key_id, signature },
                ),
            },
        },
    }
}

/// The envelope that bytes stand for, or why they stand for none.
pub open spec fn envelope_decoding<C: Codec>(bytes: Seq<u8>) -> Result<
    EnvelopeView<C::V>,
    ParseEnvelopeError<C::Error>,
> {
    match protobuf::decoding::<protobuf::Envelope>(bytes) {
        None => Err(ParseEnvelopeError::ProtobufEnvelopeParseError),
        Some(proto) => envelope_from_proto::<C>(proto),
    }
}

/// What holds of an envelope that was signed or decoded: the contents are
/// what the content bytes stand for, and key id and signature are well-formed.
pub open spec fn envelope_wf<C: Codec>(envelope: EnvelopeView<C::V>) -> bool {
    &&& C::decoding(envelope.content_bytes) == Ok::<C::V, C::Error>(envelope.contents)
    &&& envelope.content_bytes.len() <= u64::MAX
    &&& envelope.key_id.wf()
    &&& envelope.signature.wf()
}

/// The envelope that signing `contents` gives, where `key_id` is the digest
/// of the signer's public key and `signature` what the signer made of the
/// image of `contents`.
pub open spec fn signed_envelope<C: Codec>(
    contents: C::V,
    key_id: HashView,
    signature: SignatureView,
) -> EnvelopeView<C::V> {
    EnvelopeView { contents, content_bytes: C::encoding(contents), key_id, signature }
}

/// For every envelope whose contents are what its content bytes stand for:
/// decoding its image gives the envelope back, content bytes included.
pub proof fn lemma_envelope_roundtrip<C: Codec>(envelope: EnvelopeView<C::V>)
    requires
        envelope_wf::<C>(envelope),
    ensures
        envelope_decoding::<C>(envelope_encoding(envelope)) == Ok::<
            EnvelopeView<C::V>,
            ParseEnvelopeError<C::Error>,
        >(envelope),
{
    lemma_hash_text_roundtrip(envelope.key_id);
    lemma_signature_text_roundtrip(envelope.signature);
    protobuf::lemma_envelope_roundtrip(envelope_to_proto(envelope));
}

/// Signing valid contents gives an envelope whose image decodes to it.
pub proof fn lemma_signed_envelope_roundtrip<C: Codec>(
    contents: C::V,
    key_id: HashView,
    signature: SignatureView,
)
    requires
        C::valid(contents),
        C::encoding(contents).len() <= u64::MAX,
        key_id.wf(),
        signature.wf(),
    ensures
        envelope_wf::<C>(signed_envelope::<C>(contents, key_id, signature)),
        envelope_decoding::<C>(
            envelope_encoding(signed_envelope::<C>(contents, key_id, signature)),
        ) == Ok::<EnvelopeView<C::V>, ParseEnvelopeError<C::Error>>(
            signed_envelope::<C>(contents, key_id, signature),
        ),
{
    C::lemma_roundtrip(contents);
    lemma_envelope_roundtrip::<C>(signed_envelope::<C>(contents, key_id, signature));
}

impl<Contents: Codec> Envelope<Contents> {
    /// Create an envelope for some contents using a signature.
    pub fn signed_contents(private_key: PrivateKey, contents: Contents) -> (r: Result<
        Self,
        SignatureError,
    >)
        ensures
            match r {
                Ok(envelope) => p256_signature(
                    private_key.secret(),
                    Contents::encoding(contents@),
                ) matches Some(signed) && envelope@ == signed_envelope::<Contents>(
                    contents@,
                    key_id(private_key.public()),
                    SignatureView { algorithm: SignatureAlgorithm::EcdsaP256, bytes: signed },
                ) && envelope@.key_id.wf() && envelope@.signature.wf(),
                Err(e) => p256_signature(private_key.secret(), Contents::encoding(contents@))
                    is None && e == SignatureError::SigningFailed,
            },
    {
        let content_bytes: Vec<u8> = contents.encode();
        let key_id = private_key.public_key().digest();
        let signed = private_key.sign(content_bytes.as_slice());
        Envelope::seal(contents, content_bytes, key_id, signed)
    }

    /// Create an entire envelope from a byte vector.
    /// This is the logical inverse of `Envelope::as_bytes`.
    pub fn from_bytes(bytes: Vec<u8>) -> (r: Result<Self, ParseEnvelopeError<Contents::Error>>)
        ensures
            match r {
                Ok(envelope) => envelope_decoding::<Contents>(bytes@) == Ok::<
                    EnvelopeView<Contents::V>,
                    ParseEnvelopeError<Contents::Error>,
                >(envelope@) && envelope_wf::<Contents>(envelope@),
                Err(e) => envelope_decoding::<Contents>(bytes@) == Err::<
                    EnvelopeView<Contents::V>,
                    ParseEnvelopeError<Contents::Error>,
                >(e),
            },
    {
        // Parse outer envelope
        let envelope = match protobuf::decode::<protobuf::Envelope>(bytes.as_slice()) {
            Some(envelope) => envelope,
            None => {
                return Err(ParseEnvelopeError::ProtobufEnvelopeParseError);
            },
        };
        // Parse contents
        let content_bytes = slice_to_vec(envelope.contents.as_slice());
        let contents = match Contents::decode(content_bytes.as_slice()) {
            Ok(contents) => contents,
            Err(error) => {
                return Err(ParseEnvelopeError::ContentsParseError(error));
            },
        };
        // Read key ID and signature
        let key_id = match crate::hash::Hash::parse(envelope.key_id.as_slice()) {
            Ok(key_id) => key_id,
            Err(error) => {
                return Err(ParseEnvelopeError::KeyIDParseError(error));
            },
        };
        let signature = match Signature::parse(envelope.signature.as_slice()) {
            Ok(signature) => signature,
            Err(error) => {
                return Err(ParseEnvelopeError::SignatureParseError(error));
            },
        };
        assert(content_bytes@.len() == content_bytes.len());
        Ok(Envelope { contents, content_bytes, key_id, signature })
    }
}

impl<Contents: View> Envelope<Contents> {
    /// Puts an envelope together: the contents, their image, the digest of the
    /// signer's key, and what the signer made of the image. Where the signer
    /// failed there is no envelope, and its error is handed on.
    pub fn seal(
        contents: Contents,
        content_bytes: Vec<u8>,
        key_id: crate::hash::Hash,
        signed: Result<Signature, SignatureError>,
    ) -> (r: Result<Self, SignatureError>)
        ensures
            match signed {
                Ok(signature) => r matches Ok(envelope) && envelope@ == (EnvelopeView {
                    contents: contents@,
                    content_bytes: content_bytes@,
                    key_id: key_id@,
                    signature: signature@,
                }),
                Err(e) => r matches Err(f) && e == f,
            },
    {
        match signed {
            Ok(signature) => Ok(Envelope { contents, content_bytes, key_id, signature }),
            Err(e) => Err(e),
        }
    }

    /// Get the representation of the entire envelope as a byte vector.
    /// This is the logical inverse of `Envelope::from_bytes`.
    pub fn as_bytes(&self) -> (bytes: Vec<u8>)
        ensures
            bytes@ == envelope_encoding(self@),
    {
        let proto_envelope = protobuf::Envelope {
            contents: slice_to_vec(self.content_bytes.as_slice()),
            key_id: self.key_id.text(),
            signature: self.signature.text(),
        };
        protobuf::encode(&proto_envelope)
    }

    /// Whether the envelope was signed by the holder of `public_key`: the key
    /// id is the digest of that key, and the signature is a valid signature of
    /// the content bytes under it. The content bytes are taken as they are
    /// kept, not encoded anew.
    pub fn verify(&self, public_key: &PublicKey) -> (valid: bool)
        ensures
            valid == (self@.key_id == key_id(public_key@) && p256_verifies(
                public_key@.bytes,
                self@.content_bytes,
                self@.signature.bytes,
            )),
    {
        let id = public_key.digest();
        id.same(&self.key_id) && public_key.verify(self.content_bytes.as_slice(), &self.signature)
    }
}

} // verus!
