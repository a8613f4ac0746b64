//! Generation identity, content fingerprints and open options.

use std::sync::atomic::AtomicU64;
use std::sync::atomic::Ordering;

use vstd::prelude::*;

use crate::{IoErrorKind, IoFailure, VcdError};

verus! {

/// Bytes of file content sampled at each end of a file.
pub const CONTENT_SAMPLE_BYTES: u64 = 65536;

/// Process-local identity for one opened waveform generation.
#[derive(Debug, Clone, Copy, PartialEq, Eq, Hash, Structural)]
pub struct GenerationId(u64);

impl GenerationId {
    pub closed spec fn value(self) -> u64 {
        self.0
    }

    /// The generation for a value taken from a process-wide counter; the
    /// last value of the counter's range is refused as exhausted.
    pub fn from_counter(value: u64) -> (g: Option<Self>)
        ensures
            match g {
                Some(id) => value != u64::MAX && id.value() == value,
                None => value == u64::MAX,
            },
    {
        if value == u64::MAX {
            None
        } else {
            Some(GenerationId(value))
        }
    }

    pub fn get(self) -> (v: u64)
        ensures
            v == self.value(),
    {
        self.0
    }
}

/// A shared source of generation identifiers: a counter that starts at 1
/// and hands each caller the next value.
#[derive(Debug)]
pub struct GenerationCounter {
    next: AtomicU64,
}

impl GenerationCounter {
    pub fn new() -> Self {
        GenerationCounter { next: AtomicU64::new(1) }
    }

    /// The next generation of this counter, or `None` once its range is
    /// exhausted. Other threads may draw from the same counter, so the value
    /// itself is not described.
    pub fn fresh(&self) -> (g: Option<GenerationId>)
        ensures
            g matches Some(id) ==> id.value() != u64::MAX,
    {
        let value = self.next.fetch_add(1, Ordering::Relaxed);
        GenerationId::from_counter(value)
    }
}

/// What BLAKE3 makes of a byte string: its 32-byte digest.
pub uninterp spec fn blake3_digest(bytes: Seq<u8>) -> Seq<u8>;

/// Calls `blake3::hash` and copies out the digest bytes.
#[verifier::external_body]
fn blake3_hash(bytes: &[u8]) -> (out: [u8; 32])
    ensures
        out@ == blake3_digest(bytes@),
{
    *blake3::hash(bytes).as_bytes()
}

/// Opaque BLAKE3 fingerprint of file content.
#[derive(Debug, Clone, Copy, PartialEq, Eq, Hash)]
pub struct ContentFingerprint {
    bytes: [u8; 32],
}

impl ContentFingerprint {
    pub closed spec fn digest(&self) -> Seq<u8> {
        self.bytes@
    }

    /// A fingerprint holding a digest computed elsewhere.
    pub fn from_digest(bytes: [u8; 32]) -> (f: Self)
        ensures
            f.digest() == bytes@,
    {
        ContentFingerprint { bytes }
    }

    /// The fingerprint of a byte string.
    pub fn of_bytes(data: &[u8]) -> (f: Self)
        ensures
            f.digest() == blake3_digest(data@),
    {
        ContentFingerprint { bytes: blake3_hash(data) }
    }

    pub fn as_bytes(&self) -> (b: &[u8; 32])
        ensures
            b@ == self.digest(),
    {
        &self.bytes
    }

    /// Whether two fingerprints hold the same digest.
    pub fn same_as(&self, other: &ContentFingerprint) -> (b: bool)
        ensures
            b == (self.digest() == other.digest()),
    {
        let mut i: usize = 0;
        while i < 32
            invariant
                i <= 32,
                self.bytes@.len() == 32,
                other.bytes@.len() == 32,
                forall|j: int| 0 <= j < i ==> self.bytes@[j] == other.bytes@[j],
            decreases 32 - i,
        {
            if self.bytes[i] != other.bytes[i] {
                return false;
            }
            i = i + 1;
        }
        assert(self.bytes@ =~= other.bytes@);
        true
    }
}

/// How much content is read while creating a generation.
#[derive(Debug, Clone, Copy, PartialEq, Eq, Structural)]
#[non_exhaustive]
pub enum FingerprintPolicy {
    /// Hash the complete header plus bounded 64 KiB beginning/end samples.
    MetadataAndSamples,
    /// Additionally hash the complete file: a deliberate full scan.
    StrictFullContent,
}

impl FingerprintPolicy {
    /// Whether an open under this policy hashes the complete file.
    pub fn hashes_full_content(self) -> (b: bool)
        ensures
            b == (self == FingerprintPolicy::StrictFullContent),
    {
        match self {
            FingerprintPolicy::StrictFullContent => true,
            FingerprintPolicy::MetadataAndSamples => false,
        }
    }
}

impl Default for FingerprintPolicy {
    fn default() -> (p: Self)
        ensures
            p == FingerprintPolicy::MetadataAndSamples,
    {
        FingerprintPolicy::MetadataAndSamples
    }
}

/// Options of an open: builders over private fields.
#[derive(Debug, Clone, Copy, PartialEq, Eq)]
#[non_exhaustive]
pub struct OpenOptions {
    fingerprint_policy: FingerprintPolicy,
}

impl OpenOptions {
    pub closed spec fn policy(&self) -> FingerprintPolicy {
        self.fingerprint_policy
    }

    /// Defaults: bounded samples, no full-content hash.
    pub fn new() -> (o: Self)
        ensures
            o.policy() == FingerprintPolicy::MetadataAndSamples,
    {
        OpenOptions { fingerprint_policy: FingerprintPolicy::MetadataAndSamples }
    }

    pub fn fingerprint_policy(&self) -> (p: FingerprintPolicy)
        ensures
            p == self.policy(),
    {
        self.fingerprint_policy
    }

    pub fn with_fingerprint_policy(self, policy: FingerprintPolicy) -> (o: Self)
        ensures
            o.policy() == policy,
    {
        OpenOptions { fingerprint_policy: policy }
    }
}

impl Default for OpenOptions {
    fn default() -> (o: Self)
        ensures
            o.policy() == FingerprintPolicy::MetadataAndSamples,
    {
        OpenOptions::new()
    }
}

/// A modification time: signed nanoseconds from the Unix epoch.
#[derive(Debug, Clone, Copy, PartialEq, Eq, Hash, Structural)]
pub struct FileTime {
    pub unix_nanos: i128,
}

/// File metadata that identifies one file generation.
#[derive(Debug, Clone, Copy, PartialEq, Eq, Structural)]
pub struct FileStat {
    pub len: u64,
    pub modified: Option<FileTime>,
    pub device: u64,
    pub inode: u64,
}

/// Same length, modification time and platform identity.
pub open spec fn same_stat(a: FileStat, b: FileStat) -> bool {
    a.len == b.len && a.modified == b.modified && a.device == b.device && a.inode == b.inode
}

/// Identity of a generation derived from one opened file handle.
#[derive(Debug, Clone, Copy, PartialEq, Eq)]
pub struct FileIdentity {
    len: u64,
    modified: Option<FileTime>,
    body_offset: u64,
    header_fingerprint: ContentFingerprint,
    sample_fingerprint: ContentFingerprint,
    full_content_fingerprint: Option<ContentFingerprint>,
    device: u64,
    inode: u64,
}

/// The three regions of file content that the bounded samples cover: the
/// beginning's length, and the end region's start and length.
pub open spec fn sample_region_spec(len: u64) -> (u64, u64, u64) {
    let begin = if len <= CONTENT_SAMPLE_BYTES { len } else { CONTENT_SAMPLE_BYTES };
    let end_start = if len >= CONTENT_SAMPLE_BYTES { (len - CONTENT_SAMPLE_BYTES) as u64 } else { 0u64 };
    (begin, end_start, (len - end_start) as u64)
}

/// Regions hashed by the bounded content samples of a file of `len` bytes.
pub fn sample_regions(len: u64) -> (r: (u64, u64, u64))
    ensures
        r == sample_region_spec(len),
{
    let begin = if len <= CONTENT_SAMPLE_BYTES { len } else { CONTENT_SAMPLE_BYTES };
    let end_start = len.saturating_sub(CONTENT_SAMPLE_BYTES);
    (begin, end_start, len - end_start)
}

pub open spec fn body_offset_error_text() -> Seq<char> {
    "VCD body offset is outside the opened file"@
}

pub open spec fn identity_changed_text() -> Seq<char> {
    "VCD changed while calculating file identity"@
}

impl FileIdentity {
    pub closed spec fn spec_len(&self) -> u64 {
        self.len
    }

    pub closed spec fn spec_modified(&self) -> Option<FileTime> {
        self.modified
    }

    pub closed spec fn spec_body_offset(&self) -> u64 {
        self.body_offset
    }

    pub closed spec fn spec_header(&self) -> ContentFingerprint {
        self.header_fingerprint
    }

    pub closed spec fn spec_samples(&self) -> ContentFingerprint {
        self.sample_fingerprint
    }

    pub closed spec fn spec_full(&self) -> Option<ContentFingerprint> {
        self.full_content_fingerprint
    }

    pub closed spec fn spec_device(&self) -> u64 {
        self.device
    }

    pub closed spec fn spec_inode(&self) -> u64 {
        self.inode
    }

    /// Refuse a body offset beyond the end of the opened file.
    pub fn check_body_offset(stat: &FileStat, body_offset: u64) -> (r: Result<(), VcdError>)
        ensures
            r is Ok <==> body_offset <= stat.len,
            r matches Err(VcdError::Io(f)) ==> f.kind == IoErrorKind::InvalidData
                && f.message@ == body_offset_error_text() && !f.generation_mismatch,
            r is Err ==> r matches Err(VcdError::Io(_)),
    {
        if body_offset > stat.len {
            Err(
                VcdError::Io(
                    IoFailure::new(
                        IoErrorKind::InvalidData,
                        String::from_str("VCD body offset is outside the opened file"),
                    ),
                ),
            )
        } else {
            Ok(())
        }
    }

    /// Build the identity from the metadata read before and after hashing,
    /// the header bytes and the content fingerprints. The file must not
    /// have changed in between, and the body offset must lie in it. The
    /// full-content fingerprint, which the policy that hashes the complete
    /// file must be given, is kept under that policy only.
    pub fn assemble(
        before: &FileStat,
        after: &FileStat,
        header: &[u8],
        body_offset: u64,
        policy: FingerprintPolicy,
        sample_fingerprint: ContentFingerprint,
        full_content_fingerprint: Option<ContentFingerprint>,
    ) -> (r: Result<FileIdentity, VcdError>)
        requires
            policy == FingerprintPolicy::StrictFullContent ==> full_content_fingerprint is Some,
        ensures
            match r {
                Ok(id) => {
                    &&& body_offset <= before.len
                    &&& same_stat(*before, *after)
                    &&& id.spec_len() == before.len
                    &&& id.spec_modified() == before.modified
                    &&& id.spec_device() == before.device
                    &&& id.spec_inode() == before.inode
                    &&& id.spec_body_offset() == body_offset
                    &&& id.spec_header().digest() == blake3_digest(header@)
                    &&& id.spec_samples() == sample_fingerprint
                    &&& (id.spec_full() is Some <==> policy == FingerprintPolicy::StrictFullContent)
                    &&& id.spec_full() == if policy == FingerprintPolicy::StrictFullContent {
                        full_content_fingerprint
                    } else {
                        None
                    }
                },
                Err(VcdError::Io(f)) => !f.generation_mismatch && if body_offset > before.len {
                    f.kind == IoErrorKind::InvalidData && f.message@ == body_offset_error_text()
                } else {
                    !same_stat(*before, *after) && f.kind == IoErrorKind::Other && f.message@
                        == identity_changed_text()
                },
                Err(_) => false,
            },
    {
        FileIdentity::check_body_offset(before, body_offset)?;
        if !(before.len == after.len && before.modified == after.modified && before.device
            == after.device && before.inode == after.inode) {
            return Err(
                VcdError::Io(
                    IoFailure::new(
                        IoErrorKind::Other,
                        String::from_str("VCD changed while calculating file identity"),
                    ),
                ),
            );
        }
        Ok(
            FileIdentity {
                len: before.len,
                modified: before.modified,
                body_offset,
                header_fingerprint: ContentFingerprint::of_bytes(header),
                sample_fingerprint,
                full_content_fingerprint: if policy.hashes_full_content() {
                    full_content_fingerprint
                } else {
                    None
                },
                device: before.device,
                inode: before.inode,
            },
        )
    }

    pub fn len(&self) -> (n: u64)
        ensures
            n == self.spec_len(),
    {
        self.len
    }

    pub fn is_empty(&self) -> (b: bool)
        ensures
            b == (self.spec_len() == 0),
    {
        self.len == 0
    }

    pub fn modified(&self) -> (m: Option<FileTime>)
        ensures
            m == self.spec_modified(),
    {
        self.modified
    }

    pub fn body_offset(&self) -> (n: u64)
        ensures
            n == self.spec_body_offset(),
    {
        self.body_offset
    }

    pub fn header_fingerprint(&self) -> (f: ContentFingerprint)
        ensures
            f == self.spec_header(),
    {
        self.header_fingerprint
    }

    pub fn sample_fingerprint(&self) -> (f: ContentFingerprint)
        ensures
            f == self.spec_samples(),
    {
        self.sample_fingerprint
    }

    pub fn full_content_fingerprint(&self) -> (f: Option<ContentFingerprint>)
        ensures
            f == self.spec_full(),
    {
        self.full_content_fingerprint
    }

    pub fn device(&self) -> (d: u64)
        ensures
            d == self.spec_device(),
    {
        self.device
    }

    pub fn inode(&self) -> (i: u64)
        ensures
            i == self.spec_inode(),
    {
        self.inode
    }

    /// The metadata still describes this generation.
    pub fn matches_metadata(&self, stat: &FileStat) -> (b: bool)
        ensures
            b == (self.spec_len() == stat.len && self.spec_modified() == stat.modified
                && self.spec_device() == stat.device && self.spec_inode() == stat.inode),
    {
        self.len == stat.len && self.modified == stat.modified && self.device == stat.device
            && self.inode == stat.inode
    }

    /// A reopened handle belongs to this generation: its metadata before and
    /// after content validation match, and the content fingerprints did.
    pub fn admits(&self, before: &FileStat, content_matches: bool, after: &FileStat) -> (b: bool)
        ensures
            b == (self.matches_metadata_spec(*before) && content_matches
                && self.matches_metadata_spec(*after) && before.device == after.device
                && before.inode == after.inode),
    {
        self.matches_metadata(before) && content_matches && self.matches_metadata(after)
            && before.device == after.device && before.inode == after.inode
    }

    pub open spec fn matches_metadata_spec(&self, stat: FileStat) -> bool {
        self.spec_len() == stat.len && self.spec_modified() == stat.modified && self.spec_device()
            == stat.device && self.spec_inode() == stat.inode
    }

    /// Fingerprints recomputed from a reopened handle agree with this
    /// generation's. The header and samples must match under both policies;
    /// the full-content hash must be present exactly under the strict
    /// policy, where it must match too.
    pub fn fingerprints_match(
        &self,
        policy: FingerprintPolicy,
        header: &ContentFingerprint,
        samples: &ContentFingerprint,
        full: Option<ContentFingerprint>,
    ) -> (b: bool)
        ensures
            b == (header.digest() == self.spec_header().digest() && samples.digest()
                == self.spec_samples().digest() && match (policy, self.spec_full()) {
                (FingerprintPolicy::MetadataAndSamples, None) => true,
                (FingerprintPolicy::StrictFullContent, Some(expected)) => match full {
                    Some(actual) => actual.digest() == expected.digest(),
                    None => false,
                },
                _ => false,
            }),
    {
        if !header.same_as(&self.header_fingerprint) {
            return false;
        }
        if !samples.same_as(&self.sample_fingerprint) {
            return false;
        }
        match (policy, self.full_content_fingerprint) {
            (FingerprintPolicy::MetadataAndSamples, None) => true,
            (FingerprintPolicy::StrictFullContent, Some(expected)) => match full {
                Some(actual) => actual.same_as(&expected),
                None => false,
            },
            _ => false,
        }
    }
}

} // verus!
