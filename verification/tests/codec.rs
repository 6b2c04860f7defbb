use warg::hash::{HashAlgorithm, HashParseError};
use warg::package::model::{PackageEntry, PackageRecord, Permission};
use warg::package::{Codec, ContentsError, ParseRecordError};
use warg::protobuf;
use warg::protobuf::{decode, encode, Message, Timestamp};
use warg::signing::{PrivateKey, PublicKey, PublicKeyParseError};
use warg::version::{Version, VersionParseError};

fn key(seed: u8) -> PublicKey {
    PrivateKey::from_bytes(vec![seed; 32]).unwrap().public_key()
}

fn time() -> Timestamp {
    Timestamp { seconds: 1_667_000_000, nanos: 123_456_789 }
}

fn sample() -> PackageRecord {
    PackageRecord {
        prev: Some(HashAlgorithm::SHA256.digest(b"the record before")),
        version: 7,
        timestamp: time(),
        entries: vec![
            PackageEntry::Init { hash_algorithm: HashAlgorithm::SHA256, key: key(1) },
            PackageEntry::GrantFlat { key: key(2), permission: Permission::Release },
            PackageEntry::GrantFlat { key: key(3), permission: Permission::Yank },
            PackageEntry::RevokeFlat { key_id: key(2).digest(), permission: Permission::Yank },
            PackageEntry::Release {
                version: Version { major: 1, minor: 2, patch: 0 },
                content: HashAlgorithm::SHA256.digest(&[0, 1, 2, 3]),
            },
            PackageEntry::Yank { version: Version { major: 1, minor: 2, patch: 0 } },
        ],
    }
}

fn string_field(tag: u32, text: &str, buf: &mut Vec<u8>) {
    prost::encoding::string::encode(tag, &text.to_string(), buf);
}

fn message_field(tag: u32, body: &[u8], buf: &mut Vec<u8>) {
    prost::encoding::encode_key(tag, prost::encoding::WireType::LengthDelimited, buf);
    prost::encoding::encode_varint(body.len() as u64, buf);
    buf.extend_from_slice(body);
}

fn text(bytes: Vec<u8>) -> String {
    String::from_utf8(bytes).unwrap()
}

#[test]
fn record_round_trips() {
    let record = sample();
    let bytes = record.encode();
    assert_eq!(PackageRecord::decode(&bytes), Ok(record));
}

#[test]
fn record_without_entries_round_trips() {
    let record = PackageRecord {
        prev: None,
        version: 0,
        timestamp: Timestamp { seconds: 0, nanos: 0 },
        entries: vec![],
    };
    let bytes = record.encode();
    // Only the time is written, as an empty message under tag 3.
    assert_eq!(bytes, vec![0x1a, 0x00]);
    assert_eq!(PackageRecord::decode(&bytes), Ok(record));
}

#[test]
fn record_image_is_exact() {
    let record = PackageRecord {
        prev: None,
        version: 1,
        timestamp: Timestamp { seconds: 5, nanos: 0 },
        entries: vec![PackageEntry::Yank { version: Version { major: 1, minor: 2, patch: 3 } }],
    };
    assert_eq!(
        record.encode(),
        vec![
            0x10, 0x01, 0x1a, 0x02, 0x08, 0x05, 0x22, 0x09, 0x2a, 0x07, 0x0a, 0x05, b'1', b'.',
            b'2', b'.', b'3'
        ]
    );
}

#[test]
fn record_image_is_the_one_prost_writes() {
    let record = sample();
    let mut expected = Vec::new();
    string_field(1, &text(record.prev.as_ref().unwrap().text()), &mut expected);
    prost::encoding::uint32::encode(2, &7, &mut expected);
    let mut stamp = Vec::new();
    prost::encoding::int64::encode(1, &1_667_000_000, &mut stamp);
    prost::encoding::int32::encode(2, &123_456_789, &mut stamp);
    message_field(3, &stamp, &mut expected);

    let mut init = Vec::new();
    string_field(1, &text(key(1).text()), &mut init);
    string_field(2, "sha256", &mut init);
    let mut entry = Vec::new();
    message_field(1, &init, &mut entry);
    message_field(4, &entry, &mut expected);

    // The permission Release has the number 0, which is left out.
    let mut grant = Vec::new();
    string_field(1, &text(key(2).text()), &mut grant);
    let mut entry = Vec::new();
    message_field(2, &grant, &mut entry);
    message_field(4, &entry, &mut expected);

    let mut grant = Vec::new();
    string_field(1, &text(key(3).text()), &mut grant);
    prost::encoding::int32::encode(2, &1, &mut grant);
    let mut entry = Vec::new();
    message_field(2, &grant, &mut entry);
    message_field(4, &entry, &mut expected);

    let mut revoke = Vec::new();
    string_field(1, &text(key(2).digest().text()), &mut revoke);
    prost::encoding::int32::encode(2, &1, &mut revoke);
    let mut entry = Vec::new();
    message_field(3, &revoke, &mut entry);
    message_field(4, &entry, &mut expected);

    let mut release = Vec::new();
    string_field(1, "1.2.0", &mut release);
    string_field(2, &text(HashAlgorithm::SHA256.digest(&[0, 1, 2, 3]).text()), &mut release);
    let mut entry = Vec::new();
    message_field(4, &release, &mut entry);
    message_field(4, &entry, &mut expected);

    let mut yank = Vec::new();
    string_field(1, "1.2.0", &mut yank);
    let mut entry = Vec::new();
    message_field(5, &yank, &mut entry);
    message_field(4, &entry, &mut expected);

    assert_eq!(record.encode(), expected);
}

#[test]
fn negative_times_round_trip() {
    let stamp = Timestamp { seconds: -62_135_596_800, nanos: 999_999_999 };
    let mut expected = Vec::new();
    prost::encoding::int64::encode(1, &stamp.seconds, &mut expected);
    prost::encoding::int32::encode(2, &stamp.nanos, &mut expected);
    assert_eq!(encode(&stamp), expected);
    assert_eq!(decode::<Timestamp>(&expected), Some(stamp));
    let odd = Timestamp { seconds: i64::MIN, nanos: -1 };
    assert_eq!(decode::<Timestamp>(&encode(&odd)), Some(odd));
    let record = PackageRecord { prev: None, version: u32::MAX, timestamp: stamp, entries: vec![] };
    assert_eq!(PackageRecord::decode(&record.encode()), Ok(record));
}

#[test]
fn permission_numbers() {
    assert_eq!(Permission::Release.number(), 0);
    assert_eq!(Permission::Yank.number(), 1);
    assert_eq!(Permission::from_number(0), Ok(Permission::Release));
    assert_eq!(Permission::from_number(1), Ok(Permission::Yank));
    assert_eq!(Permission::from_number(2), Err(ParseRecordError::UnknownEnumValue));
    assert_eq!(Permission::from_number(-1), Err(ParseRecordError::UnknownEnumValue));
    assert_eq!(protobuf::Permission::from_i32(1), Some(protobuf::Permission::Yank));
    assert_eq!(protobuf::Permission::from_i32(7), None);
    assert_eq!(protobuf::Permission::Release.to_i32(), 0);
}

#[test]
fn required_permission_of_each_entry() {
    let version = Version { major: 0, minor: 0, patch: 1 };
    let hash = HashAlgorithm::SHA256.digest(b"x");
    assert_eq!(
        PackageEntry::Release { version, content: hash.clone() }.required_permission(),
        Some(Permission::Release)
    );
    assert_eq!(PackageEntry::Yank { version }.required_permission(), Some(Permission::Yank));
    assert_eq!(
        PackageEntry::Init { hash_algorithm: HashAlgorithm::SHA256, key: key(1) }
            .required_permission(),
        None
    );
    assert_eq!(
        PackageEntry::GrantFlat { key: key(1), permission: Permission::Yank }
            .required_permission(),
        None
    );
    assert_eq!(
        PackageEntry::RevokeFlat { key_id: hash, permission: Permission::Release }
            .required_permission(),
        None
    );
}

#[test]
fn missing_time_is_a_missing_field() {
    // A record with the version alone.
    assert_eq!(PackageRecord::decode(&[0x10, 0x01]), Err(ParseRecordError::MissingRequiredField));
    assert_eq!(PackageRecord::decode(&[]), Err(ParseRecordError::MissingRequiredField));
    let mut record = sample().to_proto();
    record.time = None;
    assert_eq!(
        PackageRecord::decode(&encode(&record)),
        Err(ParseRecordError::MissingRequiredField)
    );
}

#[test]
fn missing_entry_body_is_a_missing_field() {
    let mut record = sample().to_proto();
    record.entries[2].contents = None;
    assert_eq!(
        PackageRecord::decode(&encode(&record)),
        Err(ParseRecordError::MissingRequiredField)
    );
    assert_eq!(
        PackageEntry::from_proto(&protobuf::PackageEntry::new()),
        Err(ParseRecordError::MissingRequiredField)
    );
}

#[test]
fn malformed_bytes_are_a_protobuf_error() {
    let bytes = sample().encode();
    assert_eq!(
        PackageRecord::decode(&bytes[..bytes.len() - 1]),
        Err(ParseRecordError::ProtobufParseError)
    );
    // The version as a text.
    assert_eq!(
        PackageRecord::decode(&[0x12, 0x01, b'1', 0x1a, 0x00]),
        Err(ParseRecordError::ProtobufParseError)
    );
    // The digest of the record before is no UTF-8.
    assert_eq!(
        PackageRecord::decode(&[0x0a, 0x01, 0xff, 0x1a, 0x00]),
        Err(ParseRecordError::ProtobufParseError)
    );
    // An entry whose body is cut short.
    assert_eq!(
        PackageRecord::decode(&[0x1a, 0x00, 0x22, 0x02, 0x2a, 0x05]),
        Err(ParseRecordError::ProtobufParseError)
    );
    // A time whose seconds are a text.
    assert_eq!(
        PackageRecord::decode(&[0x1a, 0x02, 0x0a, 0x00]),
        Err(ParseRecordError::ProtobufParseError)
    );
}

#[test]
fn times_outside_the_range_are_refused() {
    for stamp in [
        Timestamp { seconds: 0, nanos: -1 },
        Timestamp { seconds: 0, nanos: 1_000_000_000 },
        Timestamp { seconds: 253_402_300_800, nanos: 0 },
        Timestamp { seconds: -62_135_596_801, nanos: 0 },
    ] {
        let mut record = sample().to_proto();
        record.time = Some(stamp);
        assert_eq!(
            PackageRecord::decode(&encode(&record)),
            Err(ParseRecordError::TimestampParseError)
        );
    }
    let mut record = sample().to_proto();
    record.time = Some(Timestamp { seconds: 253_402_300_799, nanos: 999_999_999 });
    assert!(PackageRecord::decode(&encode(&record)).is_ok());
}

#[test]
fn unknown_permission_number_is_refused() {
    let mut record = sample().to_proto();
    record.entries[1].contents = Some(protobuf::Contents::GrantFlat(protobuf::GrantFlat {
        key: key(2).text(),
        permission: 2,
    }));
    assert_eq!(PackageRecord::decode(&encode(&record)), Err(ParseRecordError::UnknownEnumValue));
    let revoke = protobuf::PackageEntry {
        contents: Some(protobuf::Contents::RevokeFlat(protobuf::RevokeFlat {
            key_id: key(2).digest().text(),
            permission: -1,
        })),
    };
    assert_eq!(PackageEntry::from_proto(&revoke), Err(ParseRecordError::UnknownEnumValue));
}

#[test]
fn text_fields_that_are_no_typed_values_are_refused() {
    let contents = |inner| Err(ParseRecordError::ContentsParseError(inner));
    let entry = |body| protobuf::PackageEntry { contents: Some(body) };
    let init = entry(protobuf::Contents::Init(protobuf::Init {
        key: key(1).text(),
        hash_algorithm: b"md5".to_vec(),
    }));
    assert_eq!(PackageEntry::from_proto(&init), contents(ContentsError::HashAlgorithm));
    // The hash algorithm is looked at before the key.
    let init = entry(protobuf::Contents::Init(protobuf::Init {
        key: b"no key".to_vec(),
        hash_algorithm: b"".to_vec(),
    }));
    assert_eq!(PackageEntry::from_proto(&init), contents(ContentsError::HashAlgorithm));
    let init = entry(protobuf::Contents::Init(protobuf::Init {
        key: b"no key".to_vec(),
        hash_algorithm: b"sha256".to_vec(),
    }));
    assert_eq!(
        PackageEntry::from_proto(&init),
        contents(ContentsError::PublicKey(PublicKeyParseError::IncorrectStructure))
    );
    // The key is looked at before the permission.
    let grant = entry(protobuf::Contents::GrantFlat(protobuf::GrantFlat {
        key: b"rsa:00".to_vec(),
        permission: 9,
    }));
    assert_eq!(
        PackageEntry::from_proto(&grant),
        contents(ContentsError::PublicKey(PublicKeyParseError::UnsupportedAlgorithm))
    );
    let revoke = entry(protobuf::Contents::RevokeFlat(protobuf::RevokeFlat {
        key_id: b"sha256:00".to_vec(),
        permission: 0,
    }));
    assert_eq!(
        PackageEntry::from_proto(&revoke),
        contents(ContentsError::Hash(HashParseError::IncorrectLength))
    );
    let release = entry(protobuf::Contents::Release(protobuf::Release {
        version: b"1.2".to_vec(),
        content_hash: b"nothing".to_vec(),
    }));
    assert_eq!(
        PackageEntry::from_proto(&release),
        contents(ContentsError::Version(VersionParseError::IncorrectStructure))
    );
    let release = entry(protobuf::Contents::Release(protobuf::Release {
        version: b"1.2.3".to_vec(),
        content_hash: b"nothing".to_vec(),
    }));
    assert_eq!(
        PackageEntry::from_proto(&release),
        contents(ContentsError::Hash(HashParseError::IncorrectStructure))
    );
    let yank = entry(protobuf::Contents::Yank(protobuf::Yank { version: b"".to_vec() }));
    assert_eq!(
        PackageEntry::from_proto(&yank),
        contents(ContentsError::Version(VersionParseError::IncorrectStructure))
    );
}

#[test]
fn first_failure_in_the_record_wins() {
    let mut record = sample().to_proto();
    record.prev = Some(b"sha256:zz".to_vec());
    record.time = None;
    record.entries[0].contents = None;
    assert_eq!(
        PackageRecord::decode(&encode(&record)),
        Err(ParseRecordError::ContentsParseError(ContentsError::Hash(HashParseError::InvalidHex)))
    );
    record.prev = None;
    assert_eq!(
        PackageRecord::decode(&encode(&record)),
        Err(ParseRecordError::MissingRequiredField)
    );
    record.time = Some(Timestamp { seconds: 0, nanos: -5 });
    assert_eq!(
        PackageRecord::decode(&encode(&record)),
        Err(ParseRecordError::TimestampParseError)
    );
    // Of two bad entries the first is reported.
    let mut record = sample().to_proto();
    record.entries[5].contents = None;
    record.entries[1].contents = Some(protobuf::Contents::GrantFlat(protobuf::GrantFlat {
        key: key(2).text(),
        permission: 5,
    }));
    assert_eq!(PackageRecord::decode(&encode(&record)), Err(ParseRecordError::UnknownEnumValue));
}

#[test]
fn fields_in_any_order_and_unknown_fields_are_read() {
    let record = PackageRecord {
        prev: None,
        version: 3,
        timestamp: Timestamp { seconds: 5, nanos: 6 },
        entries: vec![PackageEntry::Yank { version: Version { major: 1, minor: 2, patch: 3 } }],
    };
    let bytes = vec![
        // an unknown field with tag 9, a text
        0x4a, 0x01, b'?',
        // the entry first
        0x22, 0x09, 0x2a, 0x07, 0x0a, 0x05, b'1', b'.', b'2', b'.', b'3',
        // the time, nanos before seconds, and an unknown integer between them
        0x1a, 0x06, 0x10, 0x06, 0x38, 0x01, 0x08, 0x05,
        // the version twice: the last one counts; the integer in two bytes
        0x10, 0x01, 0x10, 0x83, 0x00,
        // an unknown field of eight bytes
        0x51, 0, 0, 0, 0, 0, 0, 0, 0,
    ];
    assert_eq!(PackageRecord::decode(&bytes), Ok(record.clone()));
    // Written anew, the image is the canonical one.
    assert_ne!(record.encode(), bytes);
    assert_eq!(PackageRecord::decode(&record.encode()), Ok(record));
}

#[test]
fn repeated_messages_are_merged() {
    // The time in two parts: seconds in one, nanos in the other.
    let bytes = vec![0x1a, 0x02, 0x08, 0x05, 0x1a, 0x02, 0x10, 0x06];
    let record = PackageRecord::decode(&bytes).unwrap();
    assert_eq!(record.timestamp, Timestamp { seconds: 5, nanos: 6 });
    // An entry whose body comes in two parts of the same kind.
    let mut entry = Vec::new();
    let mut first = Vec::new();
    string_field(1, "1.2.3", &mut first);
    let mut second = Vec::new();
    string_field(2, "sha256:00", &mut second);
    message_field(4, &first, &mut entry);
    message_field(4, &second, &mut entry);
    let read = decode::<protobuf::PackageEntry>(&entry).unwrap();
    assert_eq!(
        read.contents,
        Some(protobuf::Contents::Release(protobuf::Release {
            version: b"1.2.3".to_vec(),
            content_hash: b"sha256:00".to_vec(),
        }))
    );
    // A body of another kind replaces the one before.
    let mut yank = Vec::new();
    string_field(1, "4.5.6", &mut yank);
    message_field(5, &yank, &mut entry);
    let read = decode::<protobuf::PackageEntry>(&entry).unwrap();
    assert_eq!(
        read.contents,
        Some(protobuf::Contents::Yank(protobuf::Yank { version: b"4.5.6".to_vec() }))
    );
    message_field(4, &second, &mut entry);
    let read = decode::<protobuf::PackageEntry>(&entry).unwrap();
    assert_eq!(
        read.contents,
        Some(protobuf::Contents::Release(protobuf::Release {
            version: b"".to_vec(),
            content_hash: b"sha256:00".to_vec(),
        }))
    );
}

#[test]
fn messages_round_trip() {
    let init = protobuf::Init { key: b"k".to_vec(), hash_algorithm: b"".to_vec() };
    assert_eq!(encode(&init), vec![0x0a, 0x01, b'k']);
    assert_eq!(decode::<protobuf::Init>(&encode(&init)), Some(init));
    let grant = protobuf::GrantFlat { key: b"".to_vec(), permission: -1 };
    assert_eq!(
        encode(&grant),
        vec![0x10, 0xff, 0xff, 0xff, 0xff, 0xff, 0xff, 0xff, 0xff, 0xff, 0x01]
    );
    assert_eq!(decode::<protobuf::GrantFlat>(&encode(&grant)), Some(grant));
    let revoke = protobuf::RevokeFlat { key_id: "käse".as_bytes().to_vec(), permission: 1 };
    assert_eq!(decode::<protobuf::RevokeFlat>(&encode(&revoke)), Some(revoke));
    let release = protobuf::Release { version: b"v".to_vec(), content_hash: b"h".to_vec() };
    assert_eq!(encode(&release), vec![0x0a, 0x01, b'v', 0x12, 0x01, b'h']);
    assert_eq!(decode::<protobuf::Release>(&encode(&release)), Some(release));
    let yank = protobuf::Yank::new();
    assert_eq!(encode(&yank), Vec::<u8>::new());
    assert_eq!(decode::<protobuf::Yank>(&[]), Some(yank));
    let envelope = protobuf::Envelope {
        contents: vec![0xff, 0x00],
        key_id: b"id".to_vec(),
        signature: b"sig".to_vec(),
    };
    assert_eq!(
        encode(&envelope),
        vec![0x0a, 0x02, 0xff, 0x00, 0x12, 0x02, b'i', b'd', 0x1a, 0x03, b's', b'i', b'g']
    );
    assert_eq!(decode::<protobuf::Envelope>(&encode(&envelope)), Some(envelope));
    assert_eq!(decode::<protobuf::PackageRecord>(&[]), Some(protobuf::PackageRecord::new()));
}

#[test]
fn texts_that_are_no_utf8_are_refused() {
    assert_eq!(decode::<protobuf::Yank>(&[0x0a, 0x02, 0xc3, 0xa4]).map(|y| y.version), Some(vec![0xc3, 0xa4]));
    assert_eq!(decode::<protobuf::Yank>(&[0x0a, 0x01, 0xc3]), None);
    assert_eq!(decode::<protobuf::Yank>(&[0x0a, 0x02, 0xc0, 0x80]), None);
    assert_eq!(decode::<protobuf::Init>(&[0x12, 0x01, 0x80]), None);
    // The contents of an envelope are bytes, not text.
    assert!(decode::<protobuf::Envelope>(&[0x0a, 0x01, 0x80]).is_some());
    assert_eq!(decode::<protobuf::Envelope>(&[0x12, 0x01, 0x80]), None);
    assert_eq!(decode::<protobuf::Envelope>(&[0x1a, 0x01, 0x80]), None);
}
