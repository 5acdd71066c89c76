use loob::{
    check_audio_reference, check_playlist_entries, content_object, digest_matches, ContentHasher, check_download_location, check_downloaded_file, check_strong_digest, check_strong_object,
    check_unavailable_report, collect_prepared_playlist, current_unavailable_record,
    fresh_reference, hit_action, manifest_key, needs_content_check, object_file_name,
    object_placement, reference_error, refingerprint_reference, retry_without_archive,
    unavailable_record, upgrade_reference, usable_object, validate_manifest, AudioFormat,
    AudioProvenance, AudioResult, CacheOutcome, DownloadedAudio, FileFingerprint, HitAction,
    ObjectPlacement, ObjectStat, PlaylistVideo, PreparedAudio, ReferenceFault, UnavailabilityReason,
    YoutubeCache, YtError, AUDIO_PIPELINE_VERSION, LEGACY_AUDIO_PIPELINE_VERSION,
    MANIFEST_PIPELINE_VERSION, UNAVAILABLE_PIPELINE_VERSION,
};
use std::path::PathBuf;

const SHA: &str = "0123456789abcdef0123456789abcdef0123456789abcdef0123456789abcdef";

fn fingerprint() -> FileFingerprint {
    FileFingerprint {
        byte_size: 44,
        modified_unix_nanos: 1_000,
    }
}

fn current_reference(format: AudioFormat) -> AudioProvenance {
    fresh_reference("vid_1", "Title", SHA, format, 5, fingerprint())
}

fn legacy_reference() -> AudioProvenance {
    AudioProvenance {
        pipeline_version: LEGACY_AUDIO_PIPELINE_VERSION.into(),
        video_id: "vid_1".into(),
        source_url: "https://old.example/vid_1".into(),
        title: "Title".into(),
        content_sha256: SHA.into(),
        object_file: format!("objects/{SHA}.wav"),
        downloaded_unix_seconds: 3,
        format: None,
        content_type: None,
        fingerprint: None,
    }
}

fn invalid_data_text(error: YtError) -> String {
    match error {
        YtError::InvalidData(text) => text,
        other => panic!("expected InvalidData, got {other:?}"),
    }
}

#[test]
fn fresh_references_are_content_addressed() {
    let p = current_reference(AudioFormat::M4a);
    assert_eq!(p.pipeline_version, AUDIO_PIPELINE_VERSION);
    assert_eq!(p.source_url, "https://www.youtube.com/watch?v=vid_1");
    assert_eq!(p.object_file, format!("objects/{SHA}.m4a"));
    assert_eq!(p.content_type.as_deref(), Some("audio/mp4"));
    assert_eq!(p.fingerprint, Some(fingerprint()));
    assert_eq!(object_file_name(SHA, AudioFormat::Wav), format!("objects/{SHA}.wav"));
}

#[test]
fn current_reference_is_accepted() {
    let plan = check_audio_reference(&current_reference(AudioFormat::M4a), "vid_1").unwrap();
    assert_eq!(plan.format, AudioFormat::M4a);
    assert_eq!(plan.object_file, format!("objects/{SHA}.m4a"));
    assert!(!plan.legacy);
}

#[test]
fn legacy_reference_is_accepted_as_wav() {
    let plan = check_audio_reference(&legacy_reference(), "vid_1").unwrap();
    assert_eq!(plan.format, AudioFormat::Wav);
    assert!(plan.legacy);
}

#[test]
fn references_for_another_video_or_digest_are_refused() {
    assert_eq!(
        check_audio_reference(&current_reference(AudioFormat::Wav), "vid_2").unwrap_err(),
        ReferenceFault::IdentityMismatch
    );
    let mut p = current_reference(AudioFormat::Wav);
    p.content_sha256 = SHA.to_uppercase();
    assert_eq!(
        check_audio_reference(&p, "vid_1").unwrap_err(),
        ReferenceFault::IdentityMismatch
    );
}

#[test]
fn current_references_need_the_canonical_source_and_matching_types() {
    let mut p = current_reference(AudioFormat::Wav);
    p.source_url = "https://youtu.be/vid_1".into();
    assert_eq!(
        check_audio_reference(&p, "vid_1").unwrap_err(),
        ReferenceFault::PipelineMismatch
    );
    let mut p = current_reference(AudioFormat::Wav);
    p.content_type = Some("audio/mp4".into());
    assert_eq!(
        check_audio_reference(&p, "vid_1").unwrap_err(),
        ReferenceFault::FormatMismatch
    );
    let mut p = current_reference(AudioFormat::Wav);
    p.format = None;
    assert_eq!(
        check_audio_reference(&p, "vid_1").unwrap_err(),
        ReferenceFault::FormatMismatch
    );
    let mut p = legacy_reference();
    p.fingerprint = Some(fingerprint());
    assert_eq!(
        check_audio_reference(&p, "vid_1").unwrap_err(),
        ReferenceFault::PipelineMismatch
    );
}

#[test]
fn object_paths_must_be_the_content_address() {
    let mut p = current_reference(AudioFormat::Wav);
    p.object_file = format!("objects/../{SHA}.wav");
    assert_eq!(
        check_audio_reference(&p, "vid_1").unwrap_err(),
        ReferenceFault::UnsafeObject
    );
    let mut p = current_reference(AudioFormat::Wav);
    p.object_file = format!("objects/{SHA}.m4a");
    assert_eq!(
        check_audio_reference(&p, "vid_1").unwrap_err(),
        ReferenceFault::UnsafeObject
    );
}

#[test]
fn reference_faults_read_as_invalid_data() {
    assert_eq!(
        invalid_data_text(reference_error(ReferenceFault::IdentityMismatch)),
        "audio reference identity mismatch"
    );
    assert_eq!(
        invalid_data_text(reference_error(ReferenceFault::PipelineMismatch)),
        "audio reference pipeline or canonical source mismatch"
    );
    assert_eq!(
        invalid_data_text(reference_error(ReferenceFault::FormatMismatch)),
        "audio reference format or content type mismatch"
    );
    assert_eq!(
        invalid_data_text(reference_error(ReferenceFault::UnsafeObject)),
        "unsafe audio object reference"
    );
}

#[test]
fn hits_trust_matching_fingerprints_and_rehash_changed_objects() {
    let stored = fingerprint();
    let changed = FileFingerprint {
        byte_size: 44,
        modified_unix_nanos: 2_000,
    };
    assert_eq!(hit_action(false, Some(stored), stored), HitAction::Trust);
    assert_eq!(hit_action(false, Some(stored), changed), HitAction::Rehash);
    assert_eq!(hit_action(false, None, stored), HitAction::Rehash);
    assert_eq!(hit_action(true, None, stored), HitAction::Upgrade);
    assert!(usable_object(Some(ObjectStat { is_file: true, len: 1 })));
    assert!(!usable_object(Some(ObjectStat { is_file: true, len: 0 })));
    assert!(!usable_object(Some(ObjectStat { is_file: false, len: 9 })));
    assert!(!usable_object(None));
}

#[test]
fn legacy_upgrade_keeps_the_content_binding() {
    let upgraded = upgrade_reference(legacy_reference(), "vid_1", AudioFormat::Wav, fingerprint());
    assert_eq!(upgraded.pipeline_version, AUDIO_PIPELINE_VERSION);
    assert_eq!(upgraded.source_url, "https://www.youtube.com/watch?v=vid_1");
    assert_eq!(upgraded.format, Some(AudioFormat::Wav));
    assert_eq!(upgraded.content_type.as_deref(), Some("audio/wav"));
    assert_eq!(upgraded.fingerprint, Some(fingerprint()));
    assert_eq!(upgraded.content_sha256, SHA);
    assert_eq!(upgraded.downloaded_unix_seconds, 3);
    let plan = check_audio_reference(&upgraded, "vid_1").unwrap();
    assert!(!plan.legacy);

    let mut p = current_reference(AudioFormat::M4a);
    p.source_url = "stale".into();
    let changed = FileFingerprint {
        byte_size: 45,
        modified_unix_nanos: 9,
    };
    let refreshed = refingerprint_reference(p, "vid_1", changed);
    assert_eq!(refreshed.source_url, "https://www.youtube.com/watch?v=vid_1");
    assert_eq!(refreshed.fingerprint, Some(changed));
    assert_eq!(refreshed.format, Some(AudioFormat::M4a));
}

#[test]
fn unavailability_records_are_bound_to_their_video() {
    let record = unavailable_record("vid_1", "Gone", UnavailabilityReason::Removed, 77);
    assert_eq!(record.pipeline_version, UNAVAILABLE_PIPELINE_VERSION);
    assert_eq!(record.status, "unavailable");
    assert_eq!(record.source_url, "https://www.youtube.com/watch?v=vid_1");
    assert!(current_unavailable_record(&record, "vid_1"));
    assert!(!current_unavailable_record(&record, "vid_2"));
    let mut stale = record.clone();
    stale.status = "available".into();
    assert!(!current_unavailable_record(&stale, "vid_1"));
}

#[test]
fn only_archive_skips_are_retried() {
    let skipped: Result<DownloadedAudio, YtError> = Err(YtError::ArchiveSkippedMissing("v".into()));
    assert!(retry_without_archive(&skipped));
    let failed: Result<DownloadedAudio, YtError> = Err(YtError::YtDlpFailed("x".into()));
    assert!(!retry_without_archive(&failed));
    let ok: Result<DownloadedAudio, YtError> = Ok(DownloadedAudio {
        path: PathBuf::from("/s/v.wav"),
        format: AudioFormat::Wav,
    });
    assert!(!retry_without_archive(&ok));
}

#[test]
fn unavailability_for_another_video_is_refused() {
    assert!(check_unavailable_report("abc", "abc").is_ok());
    assert_eq!(
        invalid_data_text(check_unavailable_report("abd", "abc").unwrap_err()),
        "downloader reported unavailability for the wrong video"
    );
}

#[test]
fn downloads_must_be_nonempty_files_inside_staging_with_their_extension() {
    assert!(check_downloaded_file(ObjectStat { is_file: true, len: 10 }).is_ok());
    assert_eq!(
        invalid_data_text(check_downloaded_file(ObjectStat { is_file: true, len: 0 }).unwrap_err()),
        "downloaded audio is not a nonempty regular file"
    );
    assert_eq!(
        invalid_data_text(check_downloaded_file(ObjectStat { is_file: false, len: 5 }).unwrap_err()),
        "downloaded audio is not a nonempty regular file"
    );
    assert!(check_download_location(b"/c/staging/v", b"/c/staging/v/v.M4A", b"v.M4A", AudioFormat::M4a).is_ok());
    assert_eq!(
        invalid_data_text(
            check_download_location(b"/c/s", b"/c/other/v.wav", b"v.wav", AudioFormat::Wav).unwrap_err()
        ),
        "downloader returned audio outside staging or with the wrong extension"
    );
    assert_eq!(
        invalid_data_text(
            check_download_location(b"/c/s", b"/c/s/v.wav", b"v.wav", AudioFormat::M4a).unwrap_err()
        ),
        "downloader returned audio outside staging or with the wrong extension"
    );
    assert_eq!(
        invalid_data_text(check_download_location(b"/c/s", b"/c/s/v", b"v", AudioFormat::Wav).unwrap_err()),
        "downloader returned audio outside staging or with the wrong extension"
    );
}

#[test]
fn identical_objects_are_reused_and_others_quarantined() {
    let same = Some(ObjectStat { is_file: true, len: 10 });
    assert!(needs_content_check(same, 10));
    assert!(!needs_content_check(same, 11));
    assert_eq!(object_placement(same, 10, true), ObjectPlacement::ReuseExisting);
    assert_eq!(object_placement(same, 10, false), ObjectPlacement::QuarantineThenCommit);
    assert_eq!(object_placement(same, 11, true), ObjectPlacement::QuarantineThenCommit);
    assert_eq!(
        object_placement(Some(ObjectStat { is_file: false, len: 10 }), 10, true),
        ObjectPlacement::QuarantineThenCommit
    );
    assert_eq!(object_placement(None, 10, false), ObjectPlacement::Commit);
}

#[test]
fn strong_validation_requires_a_file_and_its_digest() {
    assert!(check_strong_object(ObjectStat { is_file: true, len: 3 }).is_ok());
    assert_eq!(
        invalid_data_text(check_strong_object(ObjectStat { is_file: false, len: 3 }).unwrap_err()),
        "audio object is not a regular file"
    );
    assert!(check_strong_digest(SHA, SHA).is_ok());
    assert_eq!(
        invalid_data_text(check_strong_digest(&"0".repeat(64), SHA).unwrap_err()),
        "audio object failed strong integrity validation"
    );
}

#[test]
fn manifests_are_checked_in_order() {
    let ids = vec!["a".to_string(), "b c".to_string(), "../d".to_string()];
    let url = "https://www.youtube.com/playlist?list=PL1";
    assert!(validate_manifest(MANIFEST_PIPELINE_VERSION, url, url, &ids[..1]).is_ok());
    assert_eq!(
        invalid_data_text(validate_manifest("v0", url, "other", &ids).unwrap_err()),
        "manifest pipeline version mismatch"
    );
    assert_eq!(
        invalid_data_text(validate_manifest(MANIFEST_PIPELINE_VERSION, url, "other", &ids).unwrap_err()),
        "manifest source URL mismatch"
    );
    assert_eq!(
        invalid_data_text(validate_manifest(MANIFEST_PIPELINE_VERSION, url, url, &ids).unwrap_err()),
        "unsafe video id: b c"
    );
}

#[test]
fn manifest_keys_are_sha256_of_the_canonical_url() {
    assert_eq!(
        manifest_key("abc"),
        "ba7816bf8f01cfea414140de5dae2223b00361a396177a9cb410ff61f20015ad"
    );
    assert_eq!(
        manifest_key(""),
        "e3b0c44298fc1c149afbf4c8996fb92427ae41e4649b934ca495991b7852b855"
    );
}

fn videos(ids: &[&str]) -> Vec<PlaylistVideo> {
    ids.iter()
        .map(|id| PlaylistVideo {
            id: id.to_string(),
            title: format!("Title {id}"),
        })
        .collect()
}

fn ready(id: &str, cached: bool) -> AudioResult {
    Some(Ok(CacheOutcome {
        value: PreparedAudio {
            path: PathBuf::from(format!("/c/{id}.wav")),
            content_sha256: SHA.into(),
            format: AudioFormat::Wav,
            byte_size: 10,
        },
        was_cached: cached,
    }))
}

fn unavailable(id: &str) -> AudioResult {
    Some(Err(YtError::VideoUnavailable {
        video_id: id.into(),
        reason: UnavailabilityReason::Private,
        was_cached: true,
    }))
}

#[test]
fn prepared_playlists_keep_order_and_skip_unavailable_tracks() {
    let v = videos(&["a", "b", "c"]);
    let results = vec![ready("a", true), unavailable("b"), ready("c", false)];
    let prepared = collect_prepared_playlist("List".into(), true, &v, results).unwrap();
    assert_eq!(prepared.title, "List");
    assert!(prepared.manifest_was_cached);
    assert_eq!(prepared.tracks.len(), 2);
    assert_eq!(prepared.tracks[0].video_id, "a");
    assert_eq!(prepared.tracks[0].title, "Title a");
    assert!(prepared.tracks[0].was_cached);
    assert_eq!(prepared.tracks[1].video_id, "c");
    assert_eq!(prepared.tracks[1].path, PathBuf::from("/c/c.wav"));
    assert!(!prepared.tracks[1].was_cached);
    assert_eq!(prepared.skipped.len(), 1);
    assert_eq!(prepared.skipped[0].video_id, "b");
    assert_eq!(prepared.skipped[0].title, "Title b");
    assert_eq!(prepared.skipped[0].reason, UnavailabilityReason::Private);
}

#[test]
fn all_unavailable_tracks_give_an_empty_preparation() {
    let v = videos(&["a", "b"]);
    let prepared =
        collect_prepared_playlist("L".into(), false, &v, vec![unavailable("a"), unavailable("b")]).unwrap();
    assert!(prepared.tracks.is_empty());
    assert_eq!(prepared.skipped.len(), 2);
}

#[test]
fn the_first_fatal_error_stops_the_playlist() {
    let v = videos(&["a", "b", "c", "d"]);
    let results = vec![
        unavailable("x"),
        None,
        Some(Err(YtError::YtDlpFailed("first".into()))),
        Some(Err(YtError::OfflineMiss("second".into()))),
    ];
    match collect_prepared_playlist("L".into(), false, &v, results) {
        Err(YtError::YtDlpFailed(text)) => assert_eq!(text, "first"),
        other => panic!("unexpected {other:?}"),
    }
}

#[test]
fn unavailability_of_another_video_is_invalid_data() {
    let v = videos(&["a", "b"]);
    let results = vec![ready("a", true), unavailable("z")];
    assert_eq!(
        invalid_data_text(collect_prepared_playlist("L".into(), false, &v, results).unwrap_err()),
        "downloader reported unavailability for the wrong video"
    );
}

#[test]
fn youtube_cache_counts_strong_validations() {
    let mut cache = YoutubeCache::new(PathBuf::from("/cache"), ());
    assert_eq!(cache.full_hash_count(), 0);
    assert_eq!(cache.root(), &PathBuf::from("/cache"));
    cache.record_full_hashes(2);
    cache.record_full_hashes(1);
    assert_eq!(cache.full_hash_count(), 3);
}

#[test]
fn fingerprints_cap_the_modification_time() {
    let f = loob::file_fingerprint(5, Some(7)).unwrap();
    assert_eq!((f.byte_size, f.modified_unix_nanos), (5, 7));
    let capped = loob::file_fingerprint(5, Some(u128::MAX)).unwrap();
    assert_eq!(capped.modified_unix_nanos, u64::MAX);
    assert_eq!(
        invalid_data_text(loob::file_fingerprint(5, None).unwrap_err()),
        "audio object modification time predates Unix epoch"
    );
}

#[test]
fn quarantine_names_carry_time_and_process() {
    assert_eq!(loob::quarantine_object_name("ab", 12, 34, Some("m4a")), "ab-12-34.m4a");
    assert_eq!(loob::quarantine_object_name("ab", 12, 34, None), "ab-12-34.bin");
    assert_eq!(loob::quarantine_reference_name(Some("v.json"), 5, 6), "v.json-5-6");
    assert_eq!(loob::quarantine_reference_name(None, 5, 6), "invalid.json-5-6");
}

#[test]
fn listing_entries_need_an_identifier() {
    let (video, url) = loob::manifest_video(Some("abc"), None).unwrap();
    assert_eq!(video.id, "abc");
    assert_eq!(video.title, "Unknown");
    assert_eq!(url, "https://www.youtube.com/watch?v=abc");
    let (video, _) = loob::manifest_video(Some("abc"), Some("Song")).unwrap();
    assert_eq!(video.title, "Song");
    assert_eq!(
        invalid_data_text(loob::manifest_video(Some(""), Some("x")).unwrap_err()),
        "playlist entry has no video id"
    );
    assert_eq!(
        invalid_data_text(loob::manifest_video(None, None).unwrap_err()),
        "playlist entry has no video id"
    );
    assert_eq!(loob::manifest_title(None), "Untitled playlist");
    assert_eq!(loob::manifest_title(Some("Mix")), "Mix");
}

fn fed(bytes: &[u8]) -> ContentHasher {
    let mut hasher = ContentHasher::new();
    hasher.update(bytes);
    hasher
}

#[test]
fn downloaded_objects_are_named_by_the_digest_of_their_bytes() {
    let (digest, object_file) = content_object(fed(b"abc"), AudioFormat::M4a);
    assert_eq!(digest, "ba7816bf8f01cfea414140de5dae2223b00361a396177a9cb410ff61f20015ad");
    assert_eq!(object_file, format!("objects/{digest}.m4a"));
    assert!(digest_matches(fed(b"abc"), &digest));
    assert!(!digest_matches(fed(b"abd"), &digest));
}

#[test]
fn a_flat_playlist_must_list_its_entries() {
    assert!(check_playlist_entries(true).is_ok());
    assert_eq!(invalid_data_text(check_playlist_entries(false).unwrap_err()), "playlist has no entries");
}

#[test]
fn written_references_are_accepted_when_read_back() {
    let fresh = current_reference(AudioFormat::M4a);
    let plan = check_audio_reference(&fresh, "vid_1").unwrap();
    assert_eq!(plan.format, AudioFormat::M4a);
    assert_eq!(plan.object_file, format!("objects/{SHA}.m4a"));
    assert!(!plan.legacy);
    assert_eq!(hit_action(plan.legacy, fresh.fingerprint, fingerprint()), HitAction::Trust);

    let changed = FileFingerprint { byte_size: 44, modified_unix_nanos: 9 };
    let repaired = refingerprint_reference(fresh, "vid_1", changed);
    let plan = check_audio_reference(&repaired, "vid_1").unwrap();
    assert!(!plan.legacy);
    assert_eq!(hit_action(plan.legacy, repaired.fingerprint, changed), HitAction::Trust);

    let upgraded = upgrade_reference(legacy_reference(), "vid_1", AudioFormat::Wav, changed);
    let plan = check_audio_reference(&upgraded, "vid_1").unwrap();
    assert_eq!(plan.format, AudioFormat::Wav);
    assert_eq!(plan.object_file, format!("objects/{SHA}.wav"));
    assert!(!plan.legacy);
    assert_eq!(hit_action(plan.legacy, upgraded.fingerprint, changed), HitAction::Trust);
}
