use loob::{
    archive_skipped, canonical_playlist_url, canonical_playlist_url_from_parts,
    canonical_video_url, classify_video_unavailability, user_youtube_error, valid_sha256,
    validate_playlist_id, validate_video_id, AudioFormat, CachePolicy, PlaylistIdentity, UnavailabilityReason,
    UrlParts, YtError,
};

fn invalid_data_text(error: YtError) -> String {
    match error {
        YtError::InvalidData(text) => text,
        other => panic!("expected InvalidData, got {other:?}"),
    }
}

#[test]
fn classifies_conservative_per_video_unavailability_messages() {
    let cases = [
        (
            "ERROR: [youtube] GANhRMjf7OY: Video unavailable. This video is not available",
            UnavailabilityReason::Unavailable,
        ),
        (
            "ERROR: [youtube] GANhRMjf7OY: Private video. Sign in if you've been granted access",
            UnavailabilityReason::Private,
        ),
        (
            "ERROR: [youtube] GANhRMjf7OY: Video unavailable. This video has been removed by the uploader",
            UnavailabilityReason::Removed,
        ),
    ];
    for (message, expected) in cases {
        assert_eq!(
            classify_video_unavailability(message, "GANhRMjf7OY"),
            Some(expected)
        );
    }
}

#[test]
fn does_not_misclassify_systemic_or_unrelated_errors() {
    let cases = [
        "ERROR: [youtube] GANhRMjf7OY: Unable to download API page: connection timed out",
        "ERROR: [youtube] GANhRMjf7OY: Sign in to confirm you're not a bot",
        "ERROR: [youtube] GANhRMjf7OY: Video unavailable. Sign in to confirm your age",
        "ERROR: [youtube] OTHER: Video unavailable. This video is not available",
        "malformed output mentioning video unavailable",
    ];
    for message in cases {
        assert_eq!(classify_video_unavailability(message, "GANhRMjf7OY"), None);
    }
}

#[test]
fn the_first_classifying_line_decides() {
    let stderr = "WARNING: retrying\n  error: [youtube] abc_1: This video is unavailable  \r\nERROR: [youtube] abc_1: Private video";
    assert_eq!(
        classify_video_unavailability(stderr, "ABC_1"),
        Some(UnavailabilityReason::Unavailable)
    );
    assert_eq!(classify_video_unavailability("", "abc"), None);
}

#[test]
fn identifiers_are_ascii_words_and_dashes() {
    assert!(validate_video_id("GANhRMjf7OY").is_ok());
    assert!(validate_video_id("a-b_c").is_ok());
    assert_eq!(
        invalid_data_text(validate_video_id("../x").unwrap_err()),
        "unsafe video id: ../x"
    );
    assert_eq!(
        invalid_data_text(validate_video_id("").unwrap_err()),
        "unsafe video id: "
    );
    assert!(validate_playlist_id("PLabc-_1").is_ok());
    assert_eq!(
        invalid_data_text(validate_playlist_id("PL x").unwrap_err()),
        "unsafe playlist id: PL x"
    );
}

#[test]
fn sha256_text_must_be_lowercase_hex_of_64_digits() {
    assert!(valid_sha256(&"a0".repeat(32)));
    assert!(!valid_sha256(&"A0".repeat(32)));
    assert!(!valid_sha256(&"a0".repeat(31)));
    assert!(!valid_sha256(&format!("{}g", "a".repeat(63))));
}

#[test]
fn watch_urls_are_canonical() {
    assert_eq!(
        canonical_video_url("abc"),
        "https://www.youtube.com/watch?v=abc"
    );
}

#[test]
fn playlist_urls_resolve_to_the_canonical_playlist() {
    assert_eq!(
        canonical_playlist_url("https://www.youtube.com/watch?v=abc&list=PL123&index=2").unwrap(),
        "https://www.youtube.com/playlist?list=PL123"
    );
    assert_eq!(
        canonical_playlist_url("https://YouTu.be/abc?list=PL123").unwrap(),
        "https://www.youtube.com/playlist?list=PL123"
    );
    assert_eq!(
        canonical_playlist_url("https://music.youtube.com/playlist?si=x&list=PL9&list=PL8").unwrap(),
        "https://www.youtube.com/playlist?list=PL9"
    );
}

#[test]
fn non_playlist_requests_are_refused() {
    assert_eq!(
        invalid_data_text(canonical_playlist_url("https://example.com/?list=PL1").unwrap_err()),
        "enter a YouTube playlist URL containing a valid list parameter"
    );
    assert_eq!(
        invalid_data_text(canonical_playlist_url("https://www.youtube.com/watch?v=abc").unwrap_err()),
        "enter a YouTube playlist URL containing a valid list parameter"
    );
    assert_eq!(
        invalid_data_text(
            canonical_playlist_url("https://www.youtube.com/playlist?list=PL%201").unwrap_err()
        ),
        "unsafe playlist id: PL 1"
    );
    assert_eq!(
        invalid_data_text(canonical_playlist_url("not a url").unwrap_err()),
        "invalid YouTube URL: relative URL without a base"
    );
}

#[test]
fn identity_of_a_parsed_url() {
    let parts = UrlParts {
        host: Some("WWW.YOUTUBE.COM".to_string()),
        query: vec![
            ("v".to_string(), "abc".to_string()),
            ("list".to_string(), "PLx".to_string()),
        ],
    };
    let identity = PlaylistIdentity::from_parts("ignored", Ok(parts)).unwrap();
    assert_eq!(identity.canonical_url, "https://www.youtube.com/playlist?list=PLx");
    assert_eq!(identity.fetch_url, identity.canonical_url);
    assert!(identity.is_playlist);

    let single = PlaylistIdentity::from_parts(
        "https://example.com/v",
        Ok(UrlParts {
            host: Some("example.com".to_string()),
            query: vec![],
        }),
    )
    .unwrap();
    assert_eq!(single.canonical_url, "https://example.com/v");
    assert!(!single.is_playlist);

    assert_eq!(
        invalid_data_text(
            canonical_playlist_url_from_parts("x", Err("empty host".to_string())).unwrap_err()
        ),
        "invalid YouTube URL: empty host"
    );
    let from_request = PlaylistIdentity::from_request("https://youtube.com/playlist?list=PL7").unwrap();
    assert_eq!(from_request.fetch_url, "https://www.youtube.com/playlist?list=PL7");
}

#[test]
fn archive_skips_are_recognised_only_with_an_archive() {
    assert!(archive_skipped("[download] abc: has already been recorded in the archive", true));
    assert!(archive_skipped("ARCHIVE ... ALREADY", true));
    assert!(!archive_skipped("[download] abc: has already been recorded in the archive", false));
    assert!(!archive_skipped("[download] finished", true));
}

#[test]
fn audio_formats_have_extensions_and_media_types() {
    assert_eq!(AudioFormat::M4a.extension(), "m4a");
    assert_eq!(AudioFormat::Wav.extension(), "wav");
    assert_eq!(AudioFormat::M4a.content_type(), "audio/mp4");
    assert_eq!(AudioFormat::Wav.content_type(), "audio/wav");
    assert_eq!(UnavailabilityReason::Private.user_message(), "Private video");
    assert_eq!(UnavailabilityReason::Removed.user_message(), "Removed video");
    assert_eq!(UnavailabilityReason::Unavailable.user_message(), "Unavailable video");
}

#[test]
fn youtube_errors_read_as_user_messages() {
    assert_eq!(
        user_youtube_error(YtError::YtDlpNotFound),
        "yt-dlp is not installed or is unavailable on the application path."
    );
    assert_eq!(
        user_youtube_error(YtError::InvalidData("bad".into())),
        "Invalid playlist URL or data: bad"
    );
    assert_eq!(
        user_youtube_error(YtError::YtDlpFailed("first\r\nsecond".into())),
        "YouTube could not provide this playlist: first"
    );
    assert_eq!(
        user_youtube_error(YtError::YtDlpFailed(String::new())),
        "YouTube could not provide this playlist: unknown YouTube error"
    );
    assert_eq!(
        user_youtube_error(YtError::ArchiveSkippedMissing("abc".into())),
        "Cached download state for track abc could not be recovered."
    );
    assert_eq!(
        user_youtube_error(YtError::VideoUnavailable {
            video_id: "abc".into(),
            reason: UnavailabilityReason::Private,
            was_cached: false,
        }),
        "A playlist track is unavailable and could not be prepared."
    );
    assert_eq!(
        user_youtube_error(YtError::OfflineMiss("x".into())),
        "Required playlist audio is not available in the cache."
    );
    assert_eq!(
        user_youtube_error(YtError::Io(std::io::Error::new(
            std::io::ErrorKind::Other,
            "disk full"
        ))),
        "Could not store playlist audio locally: disk full"
    );
    let json = serde_json::from_str::<serde_json::Value>("{").unwrap_err();
    assert_eq!(
        user_youtube_error(YtError::Json(json)),
        "YouTube returned playlist data the app could not read."
    );
}

#[test]
fn failed_runs_report_unavailability_or_the_failure() {
    match loob::failed_run_error("ERROR: [youtube] abc: Private video", "abc") {
        YtError::VideoUnavailable {
            video_id,
            reason,
            was_cached,
        } => {
            assert_eq!(video_id, "abc");
            assert_eq!(reason, UnavailabilityReason::Private);
            assert!(!was_cached);
        }
        other => panic!("unexpected {other:?}"),
    }
    match loob::failed_run_error("ERROR: network down", "abc") {
        YtError::YtDlpFailed(text) => assert_eq!(text, "ERROR: network down"),
        other => panic!("unexpected {other:?}"),
    }
}

#[test]
fn runs_without_output_are_archive_skips_or_failures() {
    match loob::missing_output_error("abc has already been recorded in the archive", "abc", true) {
        YtError::ArchiveSkippedMissing(id) => assert_eq!(id, "abc"),
        other => panic!("unexpected {other:?}"),
    }
    match loob::missing_output_error("  [download] done \n", "abc", false) {
        YtError::YtDlpFailed(text) => assert_eq!(
            text,
            "yt-dlp exited successfully but produced no WAV for abc: [download] done"
        ),
        other => panic!("unexpected {other:?}"),
    }
    let downloader = loob::Downloader::new(std::path::PathBuf::from("/tmp/audio"));
    assert_eq!(downloader.output_dir(), &std::path::PathBuf::from("/tmp/audio"));
    let _backend = loob::RealYtDlp::default();
}

#[test]
fn offline_never_fetches_and_refresh_never_reads_the_cache() {
    assert!(CachePolicy::Offline.reads_cache());
    assert!(!CachePolicy::Offline.may_fetch());
    assert!(CachePolicy::Populate.reads_cache());
    assert!(CachePolicy::Populate.may_fetch());
    assert!(!CachePolicy::Refresh.reads_cache());
    assert!(CachePolicy::Refresh.may_fetch());
}
