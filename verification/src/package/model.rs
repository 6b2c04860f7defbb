//! The entities of a package log: records, their entries, and permissions.

use crate::hash::{HashAlgorithm, HashView};
use crate::protobuf::Timestamp;
use crate::signing::{PublicKey, PublicKeyView};
use crate::text::same_bytes;
use crate::version::Version;
use vstd::prelude::*;
use vstd::string::*;

verus! {

/// A package record is a collection of entries published together by the same
/// author.
#[derive(Debug, Clone, PartialEq, Eq)]
pub struct PackageRecord {
    /// The hash of the previous package record envelope; `None` in the first
    /// record of a log.
    pub prev: Option<crate::hash::Hash>,
    /// The version of the registry protocol used.
    pub version: u32,
    /// When this record was published.
    pub timestamp: Timestamp,
    /// The entries being published in this record.
    pub entries: Vec<PackageEntry>,
}

/// Each permission represents the ability to use the specified entry.
#[derive(Debug, Clone, Copy, Hash, PartialEq, Eq, Structural)]
pub enum Permission {
    Release,
    Yank,
}

/// An entry of a package log.
#[derive(Debug, Clone, PartialEq, Eq)]
pub enum PackageEntry {
    /// Initializes a package log.
    /// Must be the first entry of every log and not appear elsewhere.
    Init {
        /// The hash algorithm this log will use for linking.
        hash_algorithm: HashAlgorithm,
        /// The key of the original package maintainer.
        key: PublicKey,
    },
    /// Grant the specified key a permission.
    /// The author of this entry must have the permission.
    GrantFlat { key: PublicKey, permission: Permission },
    /// Remove a permission from a key.
    /// The author of this entry must have the permission.
    RevokeFlat { key_id: crate::hash::Hash, permission: Permission },
    /// Release a version of a package.
    /// The version must not have been released yet.
    Release { version: Version, content: crate::hash::Hash },
    /// Yank a version of a package.
    /// The version must have been released and not yanked.
    Yank { version: Version },
}

/// The mathematical value of a `PackageEntry`.
pub ghost enum PackageEntryView {
    Init { hash_algorithm: HashAlgorithm, key: PublicKeyView },
    GrantFlat { key: PublicKeyView, permission: Permission },
    RevokeFlat { key_id: HashView, permission: Permission },
    Release { version: Version, content: HashView },
    Yank { version: Version },
}

/// The mathematical value of a `PackageRecord`.
pub ghost struct PackageRecordView {
    pub prev: Option<HashView>,
    pub version: u32,
    pub timestamp: Timestamp,
    pub entries: Seq<PackageEntryView>,
}

impl View for PackageEntry {
    type V = PackageEntryView;

    open spec fn view(&self) -> PackageEntryView {
        match self {
            PackageEntry::Init { hash_algorithm, key } => PackageEntryView::Init {
                hash_algorithm: *hash_algorithm,
                key: key@,
            },
            PackageEntry::GrantFlat { key, permission } => PackageEntryView::GrantFlat {
                key: key@,
                permission: *permission,
            },
            PackageEntry::RevokeFlat { key_id, permission } => PackageEntryView::RevokeFlat {
                key_id: key_id@,
                permission: *permission,
            },
            PackageEntry::Release { version, content } => PackageEntryView::Release {
                version: *version,
                content: content@,
            },
            PackageEntry::Yank { version } => PackageEntryView::Yank { version: *version },
        }
    }
}

/// The values of a sequence of entries, in order.
pub open spec fn entries_view(entries: Seq<PackageEntry>) -> Seq<PackageEntryView> {
    entries.map_values(|entry: PackageEntry| entry@)
}

impl View for PackageRecord {
    type V = PackageRecordView;

    open spec fn view(&self) -> PackageRecordView {
        PackageRecordView {
            prev: match self.prev {
                Some(prev) => Some(prev@),
                None => None,
            },
            version: self.version,
            timestamp: self.timestamp,
            entries: entries_view(self.entries@),
        }
    }
}

/// A timestamp that the format accepts: between the years 1 and 9999, with
/// less than a second of nanoseconds.
pub open spec fn timestamp_valid(time: Timestamp) -> bool {
    &&& -62_135_596_800 <= time.seconds <= 253_402_300_799
    &&& 0 <= time.nanos <= 999_999_999
}

impl PackageEntryView {
    /// The hashes and keys of the entry are well-formed.
    pub open spec fn wf(self) -> bool {
        match self {
            PackageEntryView::Init { hash_algorithm, key } => key.wf(),
            PackageEntryView::GrantFlat { key, permission } => key.wf(),
            PackageEntryView::RevokeFlat { key_id, permission } => key_id.wf(),
            PackageEntryView::Release { version, content } => content.wf(),
            PackageEntryView::Yank { version } => true,
        }
    }

    /// The permission that the author of the entry must hold.
    pub open spec fn required_permission(self) -> Option<Permission> {
        match self {
            PackageEntryView::Release { .. } => Some(Permission::Release),
            PackageEntryView::Yank { .. } => Some(Permission::Yank),
            _ => None,
        }
    }
}

impl PackageRecordView {
    /// What makes a record valid: its hashes and keys are well-formed and its
    /// timestamp is one that the format accepts.
    pub open spec fn wf(self) -> bool {
        &&& self.prev matches Some(prev) ==> prev.wf()
        &&& timestamp_valid(self.timestamp)
        &&& forall|i: int| 0 <= i < self.entries.len() ==> (#[trigger] self.entries[i]).wf()
    }
}

/// The text form of a permission.
pub open spec fn permission_text(permission: Permission) -> Seq<u8> {
    match permission {
        Permission::Release => "release".spec_bytes(),
        Permission::Yank => "yank".spec_bytes(),
    }
}

/// The permission that a text names.
pub open spec fn permission_parsing(text: Seq<u8>) -> Option<Permission> {
    if text == permission_text(Permission::Release) {
        Some(Permission::Release)
    } else if text == permission_text(Permission::Yank) {
        Some(Permission::Yank)
    } else {
        None
    }
}

/// Parsing the text form of a permission gives the permission back.
pub proof fn lemma_permission_text_roundtrip(permission: Permission)
    ensures
        permission_parsing(permission_text(permission)) == Some(permission),
{
    reveal_strlit("release");
    reveal_strlit("yank");
    let release = "release";
    let yank = "yank";
    assert(is_ascii(release));
    assert(is_ascii(yank));
    is_ascii_spec_bytes(release);
    is_ascii_spec_bytes(yank);
    assert(release.spec_bytes().len() != yank.spec_bytes().len());
}

impl Permission {
    /// The text form of the permission.
    pub fn text(&self) -> (text: &'static [u8])
        ensures
            text@ == permission_text(*self),
    {
        match self {
            Permission::Release => "release".as_bytes(),
            Permission::Yank => "yank".as_bytes(),
        }
    }

    /// The text form of the permission, as a string.
    pub fn to_string(&self) -> (text: String)
        ensures
            text@ == (match self {
                Permission::Release => "release"@,
                Permission::Yank => "yank"@,
            }),
            vstd::utf8::encode_utf8(text@) == permission_text(*self),
    {
        match self {
            Permission::Release => String::from_str("release"),
            Permission::Yank => String::from_str("yank"),
        }
    }

    /// The permission that `text` names; the case of the letters counts.
    pub fn parse(text: &[u8]) -> (r: Option<Permission>)
        ensures
            r == permission_parsing(text@),
    {
        if same_bytes(text, Permission::Release.text()) {
            Some(Permission::Release)
        } else if same_bytes(text, Permission::Yank.text()) {
            Some(Permission::Yank)
        } else {
            None
        }
    }

    /// The permission that the string `text` names.
    pub fn from_str(text: &str) -> (r: Option<Permission>)
        ensures
            r == permission_parsing(text.spec_bytes()),
    {
        Permission::parse(text.as_bytes())
    }
}

impl PackageEntry {
    /// Check permission is required to submit this entry.
    pub fn required_permission(&self) -> (permission: Option<Permission>)
        ensures
            permission == self@.required_permission(),
    {
        match self {
            PackageEntry::Init { .. } => None,
            PackageEntry::GrantFlat { .. } => None,
            PackageEntry::RevokeFlat { .. } => None,
            PackageEntry::Release { .. } => Some(Permission::Release),
            PackageEntry::Yank { .. } => Some(Permission::Yank),
        }
    }
}

} // verus!
