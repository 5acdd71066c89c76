//! The desktop commands' decisions: which request is accepted, which
//! playlist can be played, and which analysis inputs a selection becomes.
use std::path::PathBuf;
use vstd::prelude::*;

use crate::features::{display_title, title_for, AudioInput};
use crate::media::{decimal_digits, decimal_text};
use crate::text::{chars_of, extend_chars, string_from_chars, trim, trim_chars};
use crate::youtube::{CachePolicy, PreparedAudioTrack, PreparedPlaylist};

verus! {

broadcast use vstd::string::group_string_axioms;

/// A playlist request is its URL without surrounding whitespace; an empty
/// one is refused.
pub fn playlist_request_url(raw: &str) -> (url: Result<String, String>)
    ensures
        trim(raw@).len() > 0 ==> (url matches Ok(u) && u@ == trim(raw@)),
        trim(raw@).len() == 0 ==> (url matches Err(message) && message@ == "Enter a YouTube playlist URL."@),
{
    let trimmed = trim_chars(chars_of(raw).as_slice());
    if trimmed.len() == 0 {
        Err(String::from_str("Enter a YouTube playlist URL."))
    } else {
        Ok(string_from_chars(trimmed.as_slice()))
    }
}

/// Why a prepared playlist cannot be played: it has no tracks at all, or
/// every track was skipped as unavailable.
pub open spec fn unplayable_message(tracks: nat, skipped: nat) -> Option<Seq<char>> {
    if tracks > 0 {
        None
    } else if skipped == 0 {
        Some("That playlist does not contain any tracks."@)
    } else {
        Some("None of the "@ + decimal_digits(skipped) + " playlist tracks are currently available."@)
    }
}

/// The message for a prepared playlist without playable tracks, if it has
/// none.
pub fn unplayable_playlist_message(prepared: &PreparedPlaylist) -> (message: Option<String>)
    ensures
        match unplayable_message(prepared.tracks@.len(), prepared.skipped@.len()) {
            Some(text) => message matches Some(m) && m@ == text,
            None => message is None,
        },
{
    if prepared.tracks.len() > 0 {
        return None;
    }
    if prepared.skipped.len() == 0 {
        return Some(String::from_str("That playlist does not contain any tracks."));
    }
    let mut text = chars_of("None of the ");
    extend_chars(&mut text, decimal_text(prepared.skipped.len() as u64).as_slice());
    extend_chars(&mut text, chars_of(" playlist tracks are currently available.").as_slice());
    Some(string_from_chars(text.as_slice()))
}

/// The analysis input made from the prepared track at `index`: task
/// `<video id>-<index>`, its title and object, and its digest as trusted.
pub open spec fn is_youtube_input(input: AudioInput, track: PreparedAudioTrack, index: int) -> bool {
    &&& input.task_id@ == track.video_id@ + "-"@ + decimal_digits(index as nat)
    &&& input.title == track.title
    &&& input.path == track.path
    &&& input.content_sha256 == Some(track.content_sha256)
}

/// The analysis inputs of a prepared playlist's tracks, in order.
pub fn youtube_inputs(tracks: Vec<PreparedAudioTrack>) -> (inputs: Vec<AudioInput>)
    ensures
        inputs@.len() == tracks@.len(),
        forall|i: int| 0 <= i < tracks@.len() ==> is_youtube_input(#[trigger] inputs@[i], tracks@[i], i),
{
    let ghost given = tracks@;
    let total = tracks.len();
    assert(given.len() == total);
    let mut rest = tracks;
    let mut inputs: Vec<AudioInput> = Vec::new();
    let mut i: usize = 0;
    while rest.len() > 0
        invariant
            rest@ == given.skip(i as int),
            0 <= i <= given.len(),
            given.len() <= usize::MAX,
            inputs@.len() == i,
            forall|k: int| 0 <= k < i ==> is_youtube_input(#[trigger] inputs@[k], given[k], k),
        decreases rest.len(),
    {
        assert(i < given.len());
        assert(rest@[0] == given[i as int]);
        let track = rest.remove(0);
        assert(rest@ =~= given.skip(i + 1));
        let mut task_id = chars_of(track.video_id.as_str());
        extend_chars(&mut task_id, chars_of("-").as_slice());
        extend_chars(&mut task_id, decimal_text(i as u64).as_slice());
        inputs.push(
            AudioInput {
                task_id: string_from_chars(task_id.as_slice()),
                title: track.title,
                path: track.path,
                content_sha256: Some(track.content_sha256),
            },
        );
        i = i + 1;
    }
    inputs
}

/// The analysis input made from the selected file at `index`.
pub open spec fn is_local_input(input: AudioInput, path: PathBuf, path_bytes: Seq<u8>, index: int) -> bool {
    &&& input.task_id@ == "local-"@ + decimal_digits(index as nat)
    &&& input.title@ == title_for(path_bytes)
    &&& input.path == path
    &&& input.content_sha256 is None
}

/// The analysis inputs of selected local files, each given with the bytes
/// of its path: task `local-<index>`, titled by the file's stem, hashed
/// normally.
pub fn local_inputs(files: Vec<(PathBuf, Vec<u8>)>) -> (inputs: Vec<AudioInput>)
    ensures
        inputs@.len() == files@.len(),
        forall|i: int|
            0 <= i < files@.len() ==> is_local_input(#[trigger] inputs@[i], files@[i].0, files@[i].1@, i),
{
    let ghost given = files@;
    let total = files.len();
    assert(given.len() == total);
    let mut rest = files;
    let mut inputs: Vec<AudioInput> = Vec::new();
    let mut i: usize = 0;
    while rest.len() > 0
        invariant
            rest@ == given.skip(i as int),
            0 <= i <= given.len(),
            given.len() <= usize::MAX,
            inputs@.len() == i,
            forall|k: int|
                0 <= k < i ==> is_local_input(#[trigger] inputs@[k], given[k].0, given[k].1@, k),
        decreases rest.len(),
    {
        assert(i < given.len());
        assert(rest@[0] == given[i as int]);
        let (path, bytes) = rest.remove(0);
        assert(rest@ =~= given.skip(i + 1));
        let mut task_id = chars_of("local-");
        extend_chars(&mut task_id, decimal_text(i as u64).as_slice());
        let title = display_title(bytes.as_slice());
        inputs.push(
            AudioInput {
                task_id: string_from_chars(task_id.as_slice()),
                title,
                path,
                content_sha256: None,
            },
        );
        i = i + 1;
    }
    inputs
}


/// The cache policy the command line asks for: a refresh, else populating,
/// else cache-only.
pub fn cache_policy(refresh: bool, populate: bool) -> (policy: CachePolicy)
    ensures
        policy == if refresh {
            CachePolicy::Refresh
        } else if populate {
            CachePolicy::Populate
        } else {
            CachePolicy::Offline
        },
{
    if refresh {
        CachePolicy::Refresh
    } else if populate {
        CachePolicy::Populate
    } else {
        CachePolicy::Offline
    }
}

/// Optimizing or verifying cached audio needs a positive audio limit.
pub fn check_cache_options(optimize: bool, verify: bool, audio_limit: usize) -> (result: Result<(), String>)
    ensures
        optimize && audio_limit == 0 ==> (result matches Err(m) && m@
            == "--optimize requires a positive --audio-limit"@),
        !(optimize && audio_limit == 0) && verify && audio_limit == 0 ==> (result matches Err(m) && m@
            == "--verify requires a positive --audio-limit"@),
        !(optimize && audio_limit == 0) && !(verify && audio_limit == 0) ==> result is Ok,
{
    if optimize && audio_limit == 0 {
        return Err(String::from_str("--optimize requires a positive --audio-limit"));
    }
    if verify && audio_limit == 0 {
        return Err(String::from_str("--verify requires a positive --audio-limit"));
    }
    Ok(())
}

} // verus!
