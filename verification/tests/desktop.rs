use loob::{
    cache_policy, check_cache_options, local_inputs, playlist_request_url,
    unplayable_playlist_message, youtube_inputs, AudioFormat, CachePolicy, PreparedAudioTrack,
    PreparedPlaylist, SkippedTrack, UnavailabilityReason,
};
use std::path::PathBuf;

fn track(id: &str) -> PreparedAudioTrack {
    PreparedAudioTrack {
        video_id: id.into(),
        title: format!("Song {id}"),
        path: PathBuf::from(format!("/cache/{id}.m4a")),
        was_cached: true,
        content_sha256: "ab".repeat(32),
        format: AudioFormat::M4a,
        byte_size: 3,
    }
}

fn skipped(id: &str) -> SkippedTrack {
    SkippedTrack {
        video_id: id.into(),
        title: "Gone".into(),
        reason: UnavailabilityReason::Removed,
    }
}

#[test]
fn playlist_requests_are_trimmed_and_must_not_be_empty() {
    assert_eq!(
        playlist_request_url("  https://youtube.com/playlist?list=PL1 \n"),
        Ok("https://youtube.com/playlist?list=PL1".to_string())
    );
    assert_eq!(
        playlist_request_url(" \t "),
        Err("Enter a YouTube playlist URL.".to_string())
    );
}

#[test]
fn playlists_without_playable_tracks_are_explained() {
    let empty = PreparedPlaylist {
        title: "L".into(),
        manifest_was_cached: false,
        tracks: vec![],
        skipped: vec![],
    };
    assert_eq!(
        unplayable_playlist_message(&empty),
        Some("That playlist does not contain any tracks.".to_string())
    );
    let gone = PreparedPlaylist {
        skipped: vec![skipped("a"), skipped("b"), skipped("c")],
        ..empty.clone()
    };
    assert_eq!(
        unplayable_playlist_message(&gone),
        Some("None of the 3 playlist tracks are currently available.".to_string())
    );
    let playable = PreparedPlaylist {
        tracks: vec![track("a")],
        ..gone
    };
    assert_eq!(unplayable_playlist_message(&playable), None);
}

#[test]
fn prepared_tracks_become_trusted_analysis_inputs() {
    let inputs = youtube_inputs(vec![track("x1"), track("y2")]);
    assert_eq!(inputs.len(), 2);
    assert_eq!(inputs[0].task_id, "x1-0");
    assert_eq!(inputs[1].task_id, "y2-1");
    assert_eq!(inputs[1].title, "Song y2");
    assert_eq!(inputs[1].path, PathBuf::from("/cache/y2.m4a"));
    assert_eq!(inputs[1].content_sha256, Some("ab".repeat(32)));
}

#[test]
fn local_files_become_numbered_inputs_titled_by_their_stems() {
    let inputs = local_inputs(vec![
        (PathBuf::from("/m/One.wav"), b"/m/One.wav".to_vec()),
        (PathBuf::from("/m/"), b"/m/\xff.mp3".to_vec()),
    ]);
    assert_eq!(inputs[0].task_id, "local-0");
    assert_eq!(inputs[0].title, "One");
    assert_eq!(inputs[0].content_sha256, None);
    assert_eq!(inputs[1].task_id, "local-1");
    assert_eq!(inputs[1].title, "Untitled track");
}

#[test]
fn command_line_flags_choose_the_cache_policy() {
    assert_eq!(cache_policy(true, true), CachePolicy::Refresh);
    assert_eq!(cache_policy(false, true), CachePolicy::Populate);
    assert_eq!(cache_policy(false, false), CachePolicy::Offline);
    assert_eq!(check_cache_options(false, false, 0), Ok(()));
    assert_eq!(check_cache_options(true, true, 2), Ok(()));
    assert_eq!(
        check_cache_options(true, true, 0),
        Err("--optimize requires a positive --audio-limit".to_string())
    );
    assert_eq!(
        check_cache_options(false, true, 0),
        Err("--verify requires a positive --audio-limit".to_string())
    );
}
