use vcd_tools_rs::opened::identity::{
    ContentFingerprint, FileIdentity, FingerprintPolicy, GenerationCounter, GenerationId,
    OpenOptions,
};

fn assert_send_sync<T: Send + Sync>() {}

#[test]
fn foundations_are_send_and_sync() {
    assert_send_sync::<FileIdentity>();
    assert_send_sync::<GenerationId>();
    assert_send_sync::<OpenOptions>();
}

#[test]
fn options_are_builder_based_and_default_to_bounded_samples() {
    let options = OpenOptions::new();
    assert_eq!(options.fingerprint_policy(), FingerprintPolicy::MetadataAndSamples);
    assert_eq!(
        options
            .with_fingerprint_policy(FingerprintPolicy::StrictFullContent)
            .fingerprint_policy(),
        FingerprintPolicy::StrictFullContent
    );
}

#[test]
fn generations_are_unique_and_monotonic() {
    let counter = GenerationCounter::new();
    let first = counter.fresh().unwrap();
    let second = counter.fresh().unwrap();
    assert!(second.get() > first.get());
}

#[test]
fn exhausted_counter_value_is_refused() {
    assert!(GenerationId::from_counter(u64::MAX).is_none());
    assert_eq!(GenerationId::from_counter(7).unwrap().get(), 7);
}

#[test]
fn fingerprint_is_the_blake3_digest() {
    let fingerprint = ContentFingerprint::of_bytes(b"abc");
    assert_eq!(fingerprint.as_bytes(), blake3::hash(b"abc").as_bytes());
    assert_ne!(fingerprint.as_bytes(), ContentFingerprint::of_bytes(b"abd").as_bytes());
    assert!(fingerprint.same_as(&ContentFingerprint::of_bytes(b"abc")));
}

use vcd_tools_rs::opened::identity::{sample_regions, FileStat, FileTime};
use vcd_tools_rs::VcdError;

fn stat(len: u64) -> FileStat {
    FileStat { len, modified: Some(FileTime { unix_nanos: 5 }), device: 1, inode: 2 }
}

#[test]
fn sample_regions_cover_both_ends() {
    assert_eq!(sample_regions(10), (10, 0, 10));
    assert_eq!(sample_regions(65536), (65536, 0, 65536));
    assert_eq!(sample_regions(200_000), (65536, 200_000 - 65536, 65536));
}

#[test]
fn identity_rejects_body_offset_outside_the_file() {
    let samples = ContentFingerprint::of_bytes(b"s");
    let error = FileIdentity::assemble(&stat(4), &stat(4), b"hdr", 5, FingerprintPolicy::MetadataAndSamples, samples, None).unwrap_err();
    match error {
        VcdError::Io(failure) => {
            assert_eq!(failure.message, "VCD body offset is outside the opened file");
            assert!(!failure.generation_mismatch);
        }
        other => panic!("unexpected {other:?}"),
    }
}

#[test]
fn identity_rejects_metadata_change_during_hashing() {
    let samples = ContentFingerprint::of_bytes(b"s");
    let error = FileIdentity::assemble(&stat(4), &stat(5), b"hdr", 3, FingerprintPolicy::MetadataAndSamples, samples, None).unwrap_err();
    match error {
        VcdError::Io(failure) => {
            assert_eq!(failure.message, "VCD changed while calculating file identity")
        }
        other => panic!("unexpected {other:?}"),
    }
}

#[test]
fn assembled_identity_admits_only_its_own_generation() {
    let samples = ContentFingerprint::of_bytes(b"s");
    let identity = FileIdentity::assemble(&stat(4), &stat(4), b"hdr", 3, FingerprintPolicy::MetadataAndSamples, samples, None).unwrap();
    assert_eq!(identity.len(), 4);
    assert_eq!(identity.body_offset(), 3);
    assert_eq!(identity.header_fingerprint(), ContentFingerprint::of_bytes(b"hdr"));
    assert!(identity.full_content_fingerprint().is_none());
    assert!(identity.admits(&stat(4), true, &stat(4)));
    assert!(!identity.admits(&stat(4), false, &stat(4)));
    assert!(!identity.admits(&stat(4), true, &stat(6)));
    let header = ContentFingerprint::of_bytes(b"hdr");
    assert!(identity.fingerprints_match(FingerprintPolicy::MetadataAndSamples, &header, &samples, None));
    assert!(!identity.fingerprints_match(FingerprintPolicy::StrictFullContent, &header, &samples, None));
    let other = ContentFingerprint::of_bytes(b"other");
    assert!(!identity.fingerprints_match(FingerprintPolicy::MetadataAndSamples, &other, &samples, None));
}

#[test]
fn full_content_fingerprint_follows_the_policy() {
    let samples = ContentFingerprint::of_bytes(b"s");
    let full = Some(ContentFingerprint::of_bytes(b"header\nbody"));
    let strict =
        FileIdentity::assemble(&stat(11), &stat(11), b"header\n", 7, FingerprintPolicy::StrictFullContent, samples, full)
            .unwrap();
    assert_eq!(strict.full_content_fingerprint(), full);
    let bounded =
        FileIdentity::assemble(&stat(11), &stat(11), b"header\n", 7, FingerprintPolicy::MetadataAndSamples, samples, full)
            .unwrap();
    assert!(bounded.full_content_fingerprint().is_none());
    assert_eq!((bounded.len(), bounded.body_offset(), bounded.is_empty()), (11, 7, false));
    assert!(FingerprintPolicy::StrictFullContent.hashes_full_content());
    assert!(!FingerprintPolicy::MetadataAndSamples.hashes_full_content());
}
