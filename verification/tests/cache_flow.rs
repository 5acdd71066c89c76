use loob::{
    audio_step, fresh_reference, manifest_step, reference_step, strong_step, ContentHasher, StrongAction,
    StrongEvent, AudioAction, AudioEvent, AudioFormat,
    AudioProvenance, CachePolicy, CachedAudio, DownloadedAudio, FileFingerprint, ManifestAction,
    ManifestEvent, ObjectStat, ReferenceAction, ReferenceEvent, UnavailabilityReason, YtError,
    AUDIO_PIPELINE_VERSION, LEGACY_AUDIO_PIPELINE_VERSION,
};
use std::path::PathBuf;

/// The SHA-256 digest of `abc`.
const SHA: &str = "ba7816bf8f01cfea414140de5dae2223b00361a396177a9cb410ff61f20015ad";

fn fed(bytes: &[u8]) -> ContentHasher {
    let mut hasher = ContentHasher::new();
    hasher.update(bytes);
    hasher
}

fn fingerprint(modified: u64) -> FileFingerprint {
    FileFingerprint {
        byte_size: 44,
        modified_unix_nanos: modified,
    }
}

fn usable() -> ObjectStat {
    ObjectStat { is_file: true, len: 44 }
}

#[test]
fn manifest_requests_read_the_cache_unless_refreshing() {
    for policy in [CachePolicy::Offline, CachePolicy::Populate] {
        assert!(matches!(manifest_step(policy, "u", ManifestEvent::Started), ManifestAction::LookUp));
        assert!(matches!(
            manifest_step(policy, "u", ManifestEvent::LookedUp { found: true }),
            ManifestAction::ServeCached
        ));
    }
    assert!(matches!(
        manifest_step(CachePolicy::Refresh, "u", ManifestEvent::Started),
        ManifestAction::Fetch
    ));
    assert!(matches!(
        manifest_step(CachePolicy::Populate, "u", ManifestEvent::LookedUp { found: false }),
        ManifestAction::Fetch
    ));
    match manifest_step(CachePolicy::Offline, "https://x/p", ManifestEvent::LookedUp { found: false }) {
        ManifestAction::Fail(YtError::OfflineMiss(text)) => assert_eq!(text, "playlist manifest https://x/p"),
        other => panic!("expected an offline miss, got {other:?}"),
    }
}

#[test]
fn offline_audio_requests_never_download() {
    assert!(matches!(audio_step(CachePolicy::Offline, "vid", AudioEvent::Started), AudioAction::LookUp));
    match audio_step(CachePolicy::Offline, "vid", AudioEvent::LookedUp(CachedAudio::Missing)) {
        AudioAction::Fail(YtError::OfflineMiss(text)) => assert_eq!(text, "audio for vid"),
        other => panic!("expected an offline miss, got {other:?}"),
    }
}

#[test]
fn cached_audio_and_unavailability_are_answered_without_the_backend() {
    for policy in [CachePolicy::Offline, CachePolicy::Populate] {
        assert!(matches!(
            audio_step(policy, "vid", AudioEvent::LookedUp(CachedAudio::Available)),
            AudioAction::ServeCached
        ));
        match audio_step(policy, "vid", AudioEvent::LookedUp(CachedAudio::Unavailable(UnavailabilityReason::Private))) {
            AudioAction::Fail(YtError::VideoUnavailable { video_id, reason, was_cached }) => {
                assert_eq!(video_id, "vid");
                assert_eq!(reason, UnavailabilityReason::Private);
                assert!(was_cached);
            }
            other => panic!("expected a cached unavailability, got {other:?}"),
        }
    }
}

#[test]
fn misses_download_with_the_archive_and_refresh_skips_the_cache() {
    assert!(matches!(
        audio_step(CachePolicy::Populate, "vid", AudioEvent::LookedUp(CachedAudio::Missing)),
        AudioAction::Download { with_archive: true }
    ));
    assert!(matches!(
        audio_step(CachePolicy::Refresh, "vid", AudioEvent::Started),
        AudioAction::Download { with_archive: true }
    ));
}

#[test]
fn an_archive_skip_is_retried_once_without_the_archive() {
    let skipped = || Err(YtError::ArchiveSkippedMissing("vid".into()));
    assert!(matches!(
        audio_step(CachePolicy::Populate, "vid", AudioEvent::Downloaded { with_archive: true, outcome: skipped() }),
        AudioAction::Download { with_archive: false }
    ));
    assert!(matches!(
        audio_step(CachePolicy::Populate, "vid", AudioEvent::Downloaded { with_archive: false, outcome: skipped() }),
        AudioAction::Fail(YtError::ArchiveSkippedMissing(_))
    ));
    assert!(matches!(
        audio_step(
            CachePolicy::Populate,
            "vid",
            AudioEvent::Downloaded { with_archive: true, outcome: Err(YtError::YtDlpFailed("boom".into())) }
        ),
        AudioAction::Fail(YtError::YtDlpFailed(_))
    ));
}

#[test]
fn downloads_are_committed_and_unavailability_is_recorded() {
    let downloaded = DownloadedAudio { path: PathBuf::from("/s/vid.m4a"), format: AudioFormat::M4a };
    match audio_step(CachePolicy::Populate, "vid", AudioEvent::Downloaded { with_archive: true, outcome: Ok(downloaded) }) {
        AudioAction::Commit(d) => assert_eq!(d.path, PathBuf::from("/s/vid.m4a")),
        other => panic!("expected a commit, got {other:?}"),
    }
    let unavailable = |id: &str| {
        Err(YtError::VideoUnavailable {
            video_id: id.into(),
            reason: UnavailabilityReason::Removed,
            was_cached: false,
        })
    };
    match audio_step(CachePolicy::Refresh, "vid", AudioEvent::Downloaded { with_archive: true, outcome: unavailable("vid") }) {
        AudioAction::RecordUnavailable { reason, error: YtError::VideoUnavailable { video_id, was_cached, .. } } => {
            assert_eq!(reason, UnavailabilityReason::Removed);
            assert_eq!(video_id, "vid");
            assert!(!was_cached);
        }
        other => panic!("expected a record, got {other:?}"),
    }
    match audio_step(CachePolicy::Refresh, "vid", AudioEvent::Downloaded { with_archive: true, outcome: unavailable("zzz") }) {
        AudioAction::Fail(YtError::InvalidData(text)) => {
            assert_eq!(text, "downloader reported unavailability for the wrong video")
        }
        other => panic!("expected invalid data, got {other:?}"),
    }
}

fn current() -> AudioProvenance {
    fresh_reference("vid", "Title", SHA, AudioFormat::M4a, 5, fingerprint(1_000))
}

#[test]
fn a_reference_is_examined_at_its_object() {
    match reference_step(current(), "vid", ReferenceEvent::Loaded) {
        ReferenceAction::Examine { object_file, .. } => assert_eq!(object_file, format!("objects/{SHA}.m4a")),
        other => panic!("expected an examination, got {other:?}"),
    }
    assert!(matches!(reference_step(current(), "other", ReferenceEvent::Loaded), ReferenceAction::Miss));
}

#[test]
fn unusable_objects_are_misses() {
    assert!(matches!(reference_step(current(), "vid", ReferenceEvent::Examined(None)), ReferenceAction::Miss));
    let empty = ObjectStat { is_file: true, len: 0 };
    assert!(matches!(
        reference_step(current(), "vid", ReferenceEvent::Examined(Some((empty, Ok(fingerprint(1_000)))))),
        ReferenceAction::Miss
    ));
}

#[test]
fn an_unchanged_fingerprint_is_served_without_hashing() {
    match reference_step(current(), "vid", ReferenceEvent::Examined(Some((usable(), Ok(fingerprint(1_000)))))) {
        ReferenceAction::Serve { reference, rewrite, format, byte_size } => {
            assert!(!rewrite);
            assert_eq!(reference.content_sha256, SHA);
            assert_eq!(format, AudioFormat::M4a);
            assert_eq!(byte_size, 44);
        }
        other => panic!("expected a hit, got {other:?}"),
    }
}

#[test]
fn a_legacy_reference_is_upgraded_without_hashing() {
    let legacy = AudioProvenance {
        pipeline_version: LEGACY_AUDIO_PIPELINE_VERSION.into(),
        video_id: "vid".into(),
        source_url: "https://old.example/vid".into(),
        title: "Title".into(),
        content_sha256: SHA.into(),
        object_file: format!("objects/{SHA}.wav"),
        downloaded_unix_seconds: 3,
        format: None,
        content_type: None,
        fingerprint: None,
    };
    match reference_step(legacy, "vid", ReferenceEvent::Examined(Some((usable(), Ok(fingerprint(9)))))) {
        ReferenceAction::Serve { reference, rewrite, format, .. } => {
            assert!(rewrite);
            assert_eq!(format, AudioFormat::Wav);
            assert_eq!(reference.pipeline_version, AUDIO_PIPELINE_VERSION);
            assert_eq!(reference.fingerprint, Some(fingerprint(9)));
        }
        other => panic!("expected an upgrade, got {other:?}"),
    }
}

#[test]
fn a_changed_fingerprint_is_hashed_then_repaired_or_quarantined() {
    match reference_step(current(), "vid", ReferenceEvent::Examined(Some((usable(), Ok(fingerprint(2_000)))))) {
        ReferenceAction::Hash { current: c, .. } => assert_eq!(c, fingerprint(2_000)),
        other => panic!("expected a hash, got {other:?}"),
    }
    match reference_step(current(), "vid", ReferenceEvent::Hashed { current: fingerprint(2_000), content: fed(b"abc") }) {
        ReferenceAction::Serve { reference, rewrite, .. } => {
            assert!(rewrite);
            assert_eq!(reference.fingerprint, Some(fingerprint(2_000)));
        }
        other => panic!("expected a repaired hit, got {other:?}"),
    }
    assert!(matches!(
        reference_step(current(), "vid", ReferenceEvent::Hashed { current: fingerprint(2_000), content: fed(b"abd") }),
        ReferenceAction::QuarantineMiss
    ));
}

#[test]
fn a_fingerprint_error_of_a_usable_object_is_passed_on() {
    let failed = Err(YtError::InvalidData("no time".into()));
    assert!(matches!(
        reference_step(current(), "vid", ReferenceEvent::Examined(Some((usable(), failed)))),
        ReferenceAction::Fail(YtError::InvalidData(_))
    ));
}

#[test]
fn a_strong_validation_hashes_the_whole_object() {
    match strong_step(current(), "vid", StrongEvent::Loaded) {
        StrongAction::Examine { object_file, .. } => assert_eq!(object_file, format!("objects/{SHA}.m4a")),
        other => panic!("expected an examination, got {other:?}"),
    }
    assert!(matches!(strong_step(current(), "vid", StrongEvent::Examined(usable())), StrongAction::Hash { .. }));
    match strong_step(current(), "vid", StrongEvent::Examined(ObjectStat { is_file: false, len: 44 })) {
        StrongAction::Fail(YtError::InvalidData(text)) => assert_eq!(text, "audio object is not a regular file"),
        other => panic!("expected a failure, got {other:?}"),
    }
    match strong_step(current(), "other", StrongEvent::Loaded) {
        StrongAction::Fail(YtError::InvalidData(text)) => assert_eq!(text, "audio reference identity mismatch"),
        other => panic!("expected an identity failure, got {other:?}"),
    }
}

#[test]
fn a_strong_validation_quarantines_only_a_wrong_digest() {
    match strong_step(current(), "vid", StrongEvent::Hashed { content: fed(b"abd"), current: Ok(fingerprint(7)) }) {
        StrongAction::QuarantineFail(YtError::InvalidData(text)) => {
            assert_eq!(text, "audio object failed strong integrity validation")
        }
        other => panic!("expected a quarantine, got {other:?}"),
    }
    match strong_step(current(), "vid", StrongEvent::Hashed { content: fed(b"abc"), current: Ok(fingerprint(7)) }) {
        StrongAction::Store { reference, format, byte_size } => {
            assert_eq!(reference.fingerprint, Some(fingerprint(7)));
            assert_eq!(reference.pipeline_version, AUDIO_PIPELINE_VERSION);
            assert_eq!(format, AudioFormat::M4a);
            assert_eq!(byte_size, 44);
        }
        other => panic!("expected a store, got {other:?}"),
    }
}
