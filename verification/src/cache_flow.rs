//! The steps of the YouTube cache's requests: given the policy and what the
//! last piece of outside work found (a cache lookup, a download, a file's
//! metadata, a digest), what a manifest request, an audio request and the
//! reading of a cached audio reference do next.  The caller performs each
//! action and reports what it found as the next event.
use vstd::prelude::*;

use crate::audio_cache::{
    check_audio_reference, check_strong_digest, check_strong_object, check_unavailable_report,
    fault_message, hit_action, hit_action_for, integrity_message, not_regular_message, reference_error,
    is_refingerprinted_reference, is_upgraded_reference, reference_check, refingerprint_reference,
    upgrade_reference, wrong_video_message, DownloadedAudio, HitAction, ObjectStat,
};
use crate::media::{hex_text, sha256_of, ContentHasher};
use crate::text::{chars_of, extend_chars, same_chars, string_from_chars};
use crate::youtube::{
    is_invalid_data, AudioFormat, AudioProvenance, CachePolicy, FileFingerprint, UnavailabilityReason,
    YtError,
};

verus! {

broadcast use vstd::string::group_string_axioms;

/// The error is an offline miss whose text is exactly `text`.
pub open spec fn is_offline_miss(error: YtError, text: Seq<char>) -> bool {
    error matches YtError::OfflineMiss(t) && t@ == text
}

fn offline_miss(prefix: &str, name: &str) -> (error: YtError)
    ensures
        is_offline_miss(error, prefix@ + name@),
{
    let mut text = chars_of(prefix);
    extend_chars(&mut text, chars_of(name).as_slice());
    YtError::OfflineMiss(string_from_chars(text.as_slice()))
}

/// What a playlist manifest request found in the cache.
#[derive(Debug, Clone, Copy, PartialEq, Eq)]
pub enum ManifestEvent {
    /// The request starts (its identity is known and its lock held).
    Started,
    /// The cache was read: `found` when it held a current manifest for the
    /// request's canonical URL.
    LookedUp { found: bool },
}

/// What a playlist manifest request does next.
#[derive(Debug)]
pub enum ManifestAction {
    /// Read the cached manifest and report what was found.
    LookUp,
    /// Answer with the cached manifest.
    ServeCached,
    /// Fetch the manifest from the backend, check it and store it.
    Fetch,
    /// Answer with this error.
    Fail(YtError),
}

/// The next step of a manifest request for `url` under `policy`: every
/// policy but `Refresh` reads the cache first and answers a hit from it; a
/// miss is fetched, except offline, where it is an error.
pub fn manifest_step(policy: CachePolicy, url: &str, event: ManifestEvent) -> (action: ManifestAction)
    ensures
        match event {
            ManifestEvent::Started => if policy != CachePolicy::Refresh {
                action is LookUp
            } else {
                action is Fetch
            },
            ManifestEvent::LookedUp { found } => if found {
                action is ServeCached
            } else if policy == CachePolicy::Offline {
                action matches ManifestAction::Fail(e) && is_offline_miss(e, "playlist manifest "@ + url@)
            } else {
                action is Fetch
            },
        },
        policy == CachePolicy::Offline ==> !(action is Fetch),
        event matches ManifestEvent::LookedUp { found } && found ==> action is ServeCached,
{
    match event {
        ManifestEvent::Started => {
            if policy.reads_cache() {
                ManifestAction::LookUp
            } else {
                ManifestAction::Fetch
            }
        },
        ManifestEvent::LookedUp { found } => {
            if found {
                ManifestAction::ServeCached
            } else if !policy.may_fetch() {
                ManifestAction::Fail(offline_miss("playlist manifest ", url))
            } else {
                ManifestAction::Fetch
            }
        },
    }
}

/// What the audio cache held for a video.
#[derive(Debug, Clone, Copy, PartialEq, Eq)]
pub enum CachedAudio {
    /// A usable reference to a valid object.
    Available,
    /// A current record that the video is unavailable, for this reason.
    Unavailable(UnavailabilityReason),
    /// Nothing usable.
    Missing,
}

/// What an audio request found.
#[derive(Debug)]
pub enum AudioEvent {
    /// The request starts (the video identifier is valid and its lock held).
    Started,
    /// The cache was read.
    LookedUp(CachedAudio),
    /// A download ran, with or without the download archive.
    Downloaded { with_archive: bool, outcome: Result<DownloadedAudio, YtError> },
}

/// What an audio request does next.
#[derive(Debug)]
pub enum AudioAction {
    /// Read the video's reference and report what it holds.
    LookUp,
    /// Answer with the cached audio.
    ServeCached,
    /// Download the audio into the staging directory.
    Download { with_archive: bool },
    /// Check the downloaded file and commit it as a content-addressed object.
    Commit(DownloadedAudio),
    /// Record that the video is unavailable for `reason`, then answer with
    /// `error`.
    RecordUnavailable { reason: UnavailabilityReason, error: YtError },
    /// Answer with this error.
    Fail(YtError),
}

/// What an audio request does when the cache holds nothing usable: offline
/// it fails, otherwise it downloads with the archive.
pub open spec fn is_audio_miss_action(policy: CachePolicy, video_id: Seq<char>, action: AudioAction) -> bool {
    if policy == CachePolicy::Offline {
        action matches AudioAction::Fail(e) && is_offline_miss(e, "audio for "@ + video_id)
    } else {
        action matches AudioAction::Download { with_archive } && with_archive
    }
}

fn audio_miss(policy: CachePolicy, video_id: &str) -> (action: AudioAction)
    ensures
        is_audio_miss_action(policy, video_id@, action),
{
    if policy.may_fetch() {
        AudioAction::Download { with_archive: true }
    } else {
        AudioAction::Fail(offline_miss("audio for ", video_id))
    }
}

/// The next step of an audio request for `video_id` under `policy`.
///
/// Every policy but `Refresh` reads the cache first; a usable reference is
/// served and a current unavailability record answers with its reason, so
/// neither reaches the backend.  A miss fails offline and otherwise
/// downloads with the archive; a download the archive skipped is tried
/// once more without it.  A confirmed unavailability of this video is
/// recorded and reported, one blamed on another video is invalid data, any
/// other failure is passed on, and a finished download is committed.
pub fn audio_step(policy: CachePolicy, video_id: &str, event: AudioEvent) -> (action: AudioAction)
    ensures
        match event {
            AudioEvent::Started => if policy != CachePolicy::Refresh {
                action is LookUp
            } else {
                is_audio_miss_action(policy, video_id@, action)
            },
            AudioEvent::LookedUp(found) => match found {
                CachedAudio::Available => action is ServeCached,
                CachedAudio::Unavailable(reason) => action matches AudioAction::Fail(
                    YtError::VideoUnavailable { video_id: v, reason: r, was_cached },
                ) && v@ == video_id@ && r == reason && was_cached,
                CachedAudio::Missing => is_audio_miss_action(policy, video_id@, action),
            },
            AudioEvent::Downloaded { with_archive, outcome } => match outcome {
                Ok(d) => action == AudioAction::Commit(d),
                Err(YtError::ArchiveSkippedMissing(s)) => if with_archive {
                    action == AudioAction::Download { with_archive: false }
                } else {
                    action == AudioAction::Fail(YtError::ArchiveSkippedMissing(s))
                },
                Err(YtError::VideoUnavailable { video_id: reported, reason, .. }) => if reported@
                    == video_id@ {
                    action matches AudioAction::RecordUnavailable {
                        reason: r,
                        error: YtError::VideoUnavailable { video_id: v, reason: r2, was_cached },
                    } && r == reason && r2 == reason && v == reported && !was_cached
                } else {
                    action matches AudioAction::Fail(e) && is_invalid_data(e, wrong_video_message())
                },
                Err(e) => action == AudioAction::Fail(e),
            },
        },
        policy == CachePolicy::Offline && !(event is Downloaded) ==> !(action is Download),
        event matches AudioEvent::LookedUp(found) && !(found is Missing) ==> !(action is Download),
{
    match event {
        AudioEvent::Started => {
            if policy.reads_cache() {
                AudioAction::LookUp
            } else {
                audio_miss(policy, video_id)
            }
        },
        AudioEvent::LookedUp(found) => match found {
            CachedAudio::Available => AudioAction::ServeCached,
            CachedAudio::Unavailable(reason) => AudioAction::Fail(
                YtError::VideoUnavailable { video_id: String::from_str(video_id), reason, was_cached: true },
            ),
            CachedAudio::Missing => audio_miss(policy, video_id),
        },
        AudioEvent::Downloaded { with_archive, outcome } => match outcome {
            Ok(d) => AudioAction::Commit(d),
            Err(YtError::ArchiveSkippedMissing(s)) => {
                if with_archive {
                    AudioAction::Download { with_archive: false }
                } else {
                    AudioAction::Fail(YtError::ArchiveSkippedMissing(s))
                }
            },
            Err(YtError::VideoUnavailable { video_id: reported, reason, was_cached: _ }) => {
                match check_unavailable_report(reported.as_str(), video_id) {
                    Ok(()) => AudioAction::RecordUnavailable {
                        reason,
                        error: YtError::VideoUnavailable { video_id: reported, reason, was_cached: false },
                    },
                    Err(e) => AudioAction::Fail(e),
                }
            },
            Err(e) => AudioAction::Fail(e),
        },
    }
}

/// What reading a cached audio reference found.
#[derive(Debug)]
pub enum ReferenceEvent {
    /// The reference was read and parsed.
    Loaded,
    /// The object it names was examined: its metadata and the fingerprint
    /// taken from that metadata, or `None` when it has no metadata.
    Examined(Option<(ObjectStat, Result<FileFingerprint, YtError>)>),
    /// The object, whose current fingerprint is `current`, was fed to
    /// `content` from its first byte to its last.
    Hashed { current: FileFingerprint, content: ContentHasher },
}

/// What reading a cached audio reference does next.
#[derive(Debug)]
pub enum ReferenceAction {
    /// The reference gives no cache hit.
    Miss,
    /// Examine the object at `object_file` below the audio directory.
    Examine { reference: AudioProvenance, object_file: String },
    /// Hash the object: it changed since it was fingerprinted.
    Hash { reference: AudioProvenance, current: FileFingerprint },
    /// Quarantine the reference: the object no longer holds its content.
    QuarantineMiss,
    /// Serve the object under `reference`, writing the reference first when
    /// `rewrite`.
    Serve { reference: AudioProvenance, rewrite: bool, format: AudioFormat, byte_size: u64 },
    /// Answer with this error.
    Fail(YtError),
}

/// The next step of reading `reference`, the cached reference of
/// `video_id`.
///
/// A reference that fails its checks, or whose object is not a nonempty
/// regular file, is a miss.  An unchanged fingerprint is served without
/// reading the audio; a legacy reference is upgraded without a hash; a
/// changed fingerprint is hashed, and the object is served with its new
/// fingerprint when the SHA-256 of its bytes is the recorded digest, or the
/// reference is quarantined.
pub fn reference_step(reference: AudioProvenance, video_id: &str, event: ReferenceEvent) -> (action: ReferenceAction)
    ensures
        match reference_check(reference, video_id@) {
            Err(_) => action is Miss,
            Ok((format, object_file, legacy)) => match event {
                ReferenceEvent::Loaded => action matches ReferenceAction::Examine { reference: r, object_file: o }
                    && r == reference && o@ == object_file,
                ReferenceEvent::Examined(examined) => match examined {
                    None => action is Miss,
                    Some((stat, current)) => if !(stat.is_file && stat.len > 0) {
                        action is Miss
                    } else {
                        match current {
                            Err(e) => action == ReferenceAction::Fail(e),
                            Ok(c) => match hit_action_for(legacy, reference.fingerprint, c) {
                                HitAction::Trust => action == ReferenceAction::Serve {
                                    reference,
                                    rewrite: false,
                                    format,
                                    byte_size: c.byte_size,
                                },
                                HitAction::Upgrade => action matches ReferenceAction::Serve {
                                    reference: r,
                                    rewrite,
                                    format: f,
                                    byte_size,
                                } && is_upgraded_reference(reference, r, video_id@, format, c) && rewrite && f
                                    == format && byte_size == c.byte_size,
                                HitAction::Rehash => action == ReferenceAction::Hash { reference, current: c },
                            },
                        }
                    },
                },
                ReferenceEvent::Hashed { current, content } => if hex_text(sha256_of(content.fed()))
                    != reference.content_sha256@ {
                    action is QuarantineMiss
                } else {
                    action matches ReferenceAction::Serve { reference: r, rewrite, format: f, byte_size }
                        && is_refingerprinted_reference(reference, r, video_id@, current) && rewrite && f
                        == format && byte_size == current.byte_size
                },
            },
        },
{
    let plan = match check_audio_reference(&reference, video_id) {
        Ok(plan) => plan,
        Err(_) => {
            return ReferenceAction::Miss;
        },
    };
    match event {
        ReferenceEvent::Loaded => ReferenceAction::Examine { reference, object_file: plan.object_file },
        ReferenceEvent::Examined(examined) => match examined {
            None => ReferenceAction::Miss,
            Some((stat, current)) => {
                if !(stat.is_file && stat.len > 0) {
                    return ReferenceAction::Miss;
                }
                let current = match current {
                    Ok(c) => c,
                    Err(e) => {
                        return ReferenceAction::Fail(e);
                    },
                };
                match hit_action(plan.legacy, reference.fingerprint, current) {
                    HitAction::Trust => ReferenceAction::Serve {
                        reference,
                        rewrite: false,
                        format: plan.format,
                        byte_size: current.byte_size,
                    },
                    HitAction::Upgrade => {
                        let upgraded = upgrade_reference(reference, video_id, plan.format, current);
                        ReferenceAction::Serve {
                            reference: upgraded,
                            rewrite: true,
                            format: plan.format,
                            byte_size: current.byte_size,
                        }
                    },
                    HitAction::Rehash => ReferenceAction::Hash { reference, current },
                }
            },
        },
        ReferenceEvent::Hashed { current, content } => {
            let digest = content.finish_hex();
            if !same_chars(chars_of(digest.as_str()).as_slice(), chars_of(reference.content_sha256.as_str()).as_slice()) {
                return ReferenceAction::QuarantineMiss;
            }
            let updated = refingerprint_reference(reference, video_id, current);
            ReferenceAction::Serve {
                reference: updated,
                rewrite: true,
                format: plan.format,
                byte_size: current.byte_size,
            }
        },
    }
}


/// What an explicit strong validation of a cached reference found.
#[derive(Debug)]
pub enum StrongEvent {
    /// The reference was read and parsed.
    Loaded,
    /// The metadata of the object it names.
    Examined(ObjectStat),
    /// The object was fed to `content` from its first byte to its last;
    /// `current` is the fingerprint taken from its metadata.
    Hashed { content: ContentHasher, current: Result<FileFingerprint, YtError> },
}

/// What an explicit strong validation does next.
#[derive(Debug)]
pub enum StrongAction {
    /// Examine the object at `object_file` below the audio directory.
    Examine { reference: AudioProvenance, object_file: String },
    /// Hash the whole object.
    Hash { reference: AudioProvenance },
    /// Quarantine the reference, then answer with this error.
    QuarantineFail(YtError),
    /// Write `reference`, then serve the object under it.
    Store { reference: AudioProvenance, format: AudioFormat, byte_size: u64 },
    /// Answer with this error.
    Fail(YtError),
}

/// The next step of an explicit strong validation of `reference`, the
/// cached reference of `video_id`: the reference must pass its checks and
/// name a nonempty regular file, whose whole content is hashed.  Only a
/// digest other than the recorded one quarantines the reference; a
/// matching one rewrites it as a current reference with the object's
/// fingerprint.
pub fn strong_step(reference: AudioProvenance, video_id: &str, event: StrongEvent) -> (action: StrongAction)
    ensures
        match reference_check(reference, video_id@) {
            Err(fault) => action matches StrongAction::Fail(e) && is_invalid_data(e, fault_message(fault)),
            Ok((format, object_file, _)) => match event {
                StrongEvent::Loaded => action matches StrongAction::Examine { reference: r, object_file: o }
                    && r == reference && o@ == object_file,
                StrongEvent::Examined(stat) => if stat.is_file && stat.len > 0 {
                    action == StrongAction::Hash { reference }
                } else {
                    action matches StrongAction::Fail(e) && is_invalid_data(e, not_regular_message())
                },
                StrongEvent::Hashed { content, current } => if hex_text(sha256_of(content.fed()))
                    != reference.content_sha256@ {
                    action matches StrongAction::QuarantineFail(e) && is_invalid_data(e, integrity_message())
                } else {
                    match current {
                        Err(e) => action == StrongAction::Fail(e),
                        Ok(c) => action matches StrongAction::Store { reference: r, format: f, byte_size }
                            && is_upgraded_reference(reference, r, video_id@, format, c) && f == format
                            && byte_size == c.byte_size,
                    }
                },
            },
        },
{
    let plan = match check_audio_reference(&reference, video_id) {
        Ok(plan) => plan,
        Err(fault) => {
            return StrongAction::Fail(reference_error(fault));
        },
    };
    match event {
        StrongEvent::Loaded => StrongAction::Examine { reference, object_file: plan.object_file },
        StrongEvent::Examined(stat) => match check_strong_object(stat) {
            Ok(()) => StrongAction::Hash { reference },
            Err(e) => StrongAction::Fail(e),
        },
        StrongEvent::Hashed { content, current } => {
            let digest = content.finish_hex();
            if let Err(e) = check_strong_digest(digest.as_str(), reference.content_sha256.as_str()) {
                return StrongAction::QuarantineFail(e);
            }
            match current {
                Err(e) => StrongAction::Fail(e),
                Ok(c) => {
                    let upgraded = upgrade_reference(reference, video_id, plan.format, c);
                    StrongAction::Store { reference: upgraded, format: plan.format, byte_size: c.byte_size }
                },
            }
        },
    }
}

} // verus!
