//! The decisions of the content-addressed YouTube audio cache: which stored
//! references are trusted, how they are upgraded or re-fingerprinted, what a
//! download must look like before it is committed, and how the results of a
//! playlist's downloads become a prepared playlist.
use std::path::PathBuf;
use vstd::prelude::*;
use vstd::string::StringSliceAdditionalSpecFns;

use crate::media::{hex, hex_text, sha256_digest, sha256_of, ContentHasher};
use crate::paths::{extension, is_safe_object_path, lemma_object_path_is_safe, objects_dir_name, path_begins_with, path_extension, path_starts_with, safe_object_reference};
use crate::media::ascii_lower_bytes;
use crate::text::{chars_of, extend_chars, lemma_ascii_encoding, same_chars, string_from_chars};
use crate::youtube::{
    canonical_video_url, format_content_type, format_extension, invalid_data, is_invalid_data,
    is_lower_hex_char, is_lower_sha256, is_safe_id, valid_sha256, validate_video_id, video_url, AudioFormat,
    AudioProvenance, CacheOutcome, FileFingerprint, PreparedAudio, PreparedAudioTrack,
    PreparedPlaylist, SkippedTrack, UnavailabilityReason, UnavailableAudioProvenance, YtError,
};

verus! {

broadcast use vstd::string::group_string_axioms;

/// Pipeline version written into current audio references.
pub const AUDIO_PIPELINE_VERSION: &'static str = "yt-dlp-audio-reference-v2";

/// Pipeline version of the first, WAV-only audio references.
pub const LEGACY_AUDIO_PIPELINE_VERSION: &'static str = "yt-dlp-wav-v1";

/// Pipeline version of records of unavailable videos.
pub const UNAVAILABLE_PIPELINE_VERSION: &'static str = "yt-dlp-unavailability-v1";

/// Pipeline version of playlist manifests.
pub const MANIFEST_PIPELINE_VERSION: &'static str = "yt-dlp-flat-playlist-v1";

/// Whether two strings hold the same characters.
fn same_text(a: &str, b: &str) -> (eq: bool)
    ensures
        eq == (a@ == b@),
{
    let x = chars_of(a);
    let y = chars_of(b);
    same_chars(x.as_slice(), y.as_slice())
}

/// `objects/<sha256>.<extension>`: where an object lives below the cache's
/// audio directory.
pub open spec fn object_file_text(content_sha256: Seq<char>, format: AudioFormat) -> Seq<char> {
    "objects/"@ + content_sha256 + "."@ + format_extension(format)
}

/// Whether the bytes fed to `content` have the recorded SHA-256 digest.
pub fn digest_matches(content: ContentHasher, recorded_sha256: &str) -> (matches: bool)
    ensures
        matches == (hex_text(sha256_of(content.fed())) == recorded_sha256@),
{
    let digest = content.finish_hex();
    same_chars(chars_of(digest.as_str()).as_slice(), chars_of(recorded_sha256).as_slice())
}

/// The digest of downloaded audio and the object that will hold it: the
/// lowercase hexadecimal SHA-256 of the bytes fed to `content` and the
/// content-addressed path for that digest and the audio's format.
pub fn content_object(content: ContentHasher, format: AudioFormat) -> (named: (String, String))
    ensures
        named.0@ == hex_text(sha256_of(content.fed())),
        crate::youtube::is_lower_sha256(named.0@),
        named.1@ == object_file_text(named.0@, format),
{
    let content_sha256 = content.finish_hex();
    let object_file = object_file_name(content_sha256.as_str(), format);
    (content_sha256, object_file)
}

/// The relative path of the object holding audio with this digest.
pub fn object_file_name(content_sha256: &str, format: AudioFormat) -> (name: String)
    ensures
        name@ == object_file_text(content_sha256@, format),
{
    let mut chars = chars_of("objects/");
    extend_chars(&mut chars, chars_of(content_sha256).as_slice());
    extend_chars(&mut chars, chars_of(".").as_slice());
    extend_chars(&mut chars, chars_of(format.extension()).as_slice());
    string_from_chars(chars.as_slice())
}

/// Why a stored audio reference cannot be used.
#[derive(Debug, Clone, Copy, PartialEq, Eq)]
pub enum ReferenceFault {
    /// It names another video or carries no valid digest.
    IdentityMismatch,
    /// It was written by another pipeline or for another source URL.
    PipelineMismatch,
    /// Its format and media type do not agree.
    FormatMismatch,
    /// Its object path is not the content-addressed path it must be.
    UnsafeObject,
}

/// The message that explains a reference fault.
pub open spec fn fault_message(fault: ReferenceFault) -> Seq<char> {
    match fault {
        ReferenceFault::IdentityMismatch => "audio reference identity mismatch"@,
        ReferenceFault::PipelineMismatch => "audio reference pipeline or canonical source mismatch"@,
        ReferenceFault::FormatMismatch => "audio reference format or content type mismatch"@,
        ReferenceFault::UnsafeObject => "unsafe audio object reference"@,
    }
}

impl ReferenceFault {
    pub fn message(self) -> (message: &'static str)
        ensures
            message@ == fault_message(self),
    {
        match self {
            ReferenceFault::IdentityMismatch => "audio reference identity mismatch",
            ReferenceFault::PipelineMismatch => "audio reference pipeline or canonical source mismatch",
            ReferenceFault::FormatMismatch => "audio reference format or content type mismatch",
            ReferenceFault::UnsafeObject => "unsafe audio object reference",
        }
    }
}

/// What a usable reference says: the audio's format, the object's relative
/// path and whether the reference is a legacy one.
#[derive(Debug)]
pub struct ReferencePlan {
    pub format: AudioFormat,
    pub object_file: String,
    pub legacy: bool,
}

/// A reference of the first pipeline: WAV audio, written before formats,
/// media types and fingerprints were recorded.
pub open spec fn is_legacy_reference(p: AudioProvenance) -> bool {
    &&& p.pipeline_version@ == LEGACY_AUDIO_PIPELINE_VERSION@
    &&& p.format is None
    &&& p.content_type is None
    &&& p.fingerprint is None
}

/// The audio format a reference establishes for `video_id`, or why it
/// establishes none.
pub open spec fn reference_format(p: AudioProvenance, video_id: Seq<char>) -> Result<
    AudioFormat,
    ReferenceFault,
> {
    if is_legacy_reference(p) {
        Ok(AudioFormat::Wav)
    } else if p.pipeline_version@ == AUDIO_PIPELINE_VERSION@ && p.source_url@ == video_url(video_id) {
        match p.format {
            Some(format) => if p.content_type matches Some(ct) && ct@ == format_content_type(format) {
                Ok(format)
            } else {
                Err(ReferenceFault::FormatMismatch)
            },
            None => Err(ReferenceFault::FormatMismatch),
        }
    } else {
        Err(ReferenceFault::PipelineMismatch)
    }
}

/// How a stored reference is judged for `video_id`: its format, object path
/// and legacy status, or the first fault found.
pub open spec fn reference_check(p: AudioProvenance, video_id: Seq<char>) -> Result<
    (AudioFormat, Seq<char>, bool),
    ReferenceFault,
> {
    if p.video_id@ != video_id || !is_lower_sha256(p.content_sha256@) {
        Err(ReferenceFault::IdentityMismatch)
    } else {
        match reference_format(p, video_id) {
            Err(fault) => Err(fault),
            Ok(format) => {
                let expected = object_file_text(p.content_sha256@, format);
                if p.object_file@ != expected || !is_safe_object_path(
                    vstd::utf8::encode_utf8(p.object_file@),
                ) {
                    Err(ReferenceFault::UnsafeObject)
                } else {
                    Ok((format, expected, is_legacy_reference(p)))
                }
            },
        }
    }
}

/// Judges a stored audio reference for the video `video_id`.
pub fn check_audio_reference(provenance: &AudioProvenance, video_id: &str) -> (result: Result<
    ReferencePlan,
    ReferenceFault,
>)
    ensures
        result matches Ok(plan) ==> reference_check(*provenance, video_id@) == Ok::<
            (AudioFormat, Seq<char>, bool),
            ReferenceFault,
        >((plan.format, plan.object_file@, plan.legacy)),
        result matches Err(fault) ==> reference_check(*provenance, video_id@) == Err::<
            (AudioFormat, Seq<char>, bool),
            ReferenceFault,
        >(fault),
{
    if !same_text(provenance.video_id.as_str(), video_id) || !valid_sha256(
        provenance.content_sha256.as_str(),
    ) {
        return Err(ReferenceFault::IdentityMismatch);
    }
    let legacy = same_text(provenance.pipeline_version.as_str(), LEGACY_AUDIO_PIPELINE_VERSION)
        && provenance.format.is_none() && provenance.content_type.is_none()
        && provenance.fingerprint.is_none();
    let format = if legacy {
        AudioFormat::Wav
    } else {
        let canonical = canonical_video_url(video_id);
        if same_text(provenance.pipeline_version.as_str(), AUDIO_PIPELINE_VERSION) && same_text(
            provenance.source_url.as_str(),
            canonical.as_str(),
        ) {
            match provenance.format {
                Some(format) => {
                    let agrees = match &provenance.content_type {
                        Some(ct) => same_text(ct.as_str(), format.content_type()),
                        None => false,
                    };
                    if agrees {
                        format
                    } else {
                        return Err(ReferenceFault::FormatMismatch);
                    }
                },
                None => {
                    return Err(ReferenceFault::FormatMismatch);
                },
            }
        } else {
            return Err(ReferenceFault::PipelineMismatch);
        }
    };
    let expected = object_file_name(provenance.content_sha256.as_str(), format);
    if !same_text(provenance.object_file.as_str(), expected.as_str()) || !safe_object_reference(
        provenance.object_file.as_str(),
    ) {
        return Err(ReferenceFault::UnsafeObject);
    }
    Ok(ReferencePlan { format, object_file: expected, legacy })
}

/// The error a strong validation reports for a reference fault.
pub fn reference_error(fault: ReferenceFault) -> (error: YtError)
    ensures
        is_invalid_data(error, fault_message(fault)),
{
    invalid_data(chars_of(fault.message()).as_slice())
}


/// What `symlink_metadata` says of a path: whether it is a regular file (a
/// symbolic link is not) and its length.
#[derive(Debug, Clone, Copy, PartialEq, Eq)]
pub struct ObjectStat {
    pub is_file: bool,
    pub len: u64,
}

/// A cached object can be served: it exists as a nonempty regular file.
pub open spec fn is_usable_object(stat: Option<ObjectStat>) -> bool {
    stat matches Some(s) && s.is_file && s.len > 0
}

/// Whether the object a reference names can be served.
pub fn usable_object(stat: Option<ObjectStat>) -> (usable: bool)
    ensures
        usable == is_usable_object(stat),
{
    match stat {
        Some(s) => s.is_file && s.len > 0,
        None => false,
    }
}

/// What a cache hit on a usable object needs before it is served.
#[derive(Debug, Clone, Copy, PartialEq, Eq)]
pub enum HitAction {
    /// The stored fingerprint matches the object: serve it as is.
    Trust,
    /// A legacy reference: record the current fingerprint and format, trusting
    /// its content-addressed commit without hashing.
    Upgrade,
    /// The object changed since it was fingerprinted: hash it again.
    Rehash,
}

/// The action a hit takes, given the reference's legacy status, its stored
/// fingerprint and the object's current fingerprint.
pub open spec fn hit_action_for(legacy: bool, stored: Option<FileFingerprint>, current: FileFingerprint) -> HitAction {
    if legacy {
        HitAction::Upgrade
    } else if stored != Some(current) {
        HitAction::Rehash
    } else {
        HitAction::Trust
    }
}

/// Decides what a cache hit needs before the object is served.
pub fn hit_action(legacy: bool, stored: Option<FileFingerprint>, current: FileFingerprint) -> (action: HitAction)
    ensures
        action == hit_action_for(legacy, stored, current),
{
    if legacy {
        return HitAction::Upgrade;
    }
    let same = match stored {
        Some(f) => f.byte_size == current.byte_size && f.modified_unix_nanos == current.modified_unix_nanos,
        None => false,
    };
    if same {
        HitAction::Trust
    } else {
        HitAction::Rehash
    }
}

/// `new` is `old` rewritten as a current reference for `video_id`: current
/// pipeline, canonical source URL, the given format with its media type, and
/// the given fingerprint; every other field is kept.
pub open spec fn is_upgraded_reference(
    old: AudioProvenance,
    new: AudioProvenance,
    video_id: Seq<char>,
    format: AudioFormat,
    fingerprint: FileFingerprint,
) -> bool {
    &&& new.pipeline_version@ == AUDIO_PIPELINE_VERSION@
    &&& new.source_url@ == video_url(video_id)
    &&& new.format == Some(format)
    &&& new.content_type matches Some(ct) && ct@ == format_content_type(format)
    &&& new.fingerprint == Some(fingerprint)
    &&& new.video_id == old.video_id
    &&& new.title == old.title
    &&& new.content_sha256 == old.content_sha256
    &&& new.object_file == old.object_file
    &&& new.downloaded_unix_seconds == old.downloaded_unix_seconds
}

/// Rewrites a reference as a current one: used when a legacy reference is
/// first served and after a strong validation.
pub fn upgrade_reference(
    provenance: AudioProvenance,
    video_id: &str,
    format: AudioFormat,
    fingerprint: FileFingerprint,
) -> (upgraded: AudioProvenance)
    ensures
        is_upgraded_reference(provenance, upgraded, video_id@, format, fingerprint),
{
    let mut p = provenance;
    p.pipeline_version = String::from_str(AUDIO_PIPELINE_VERSION);
    p.source_url = canonical_video_url(video_id);
    p.format = Some(format);
    p.content_type = Some(String::from_str(format.content_type()));
    p.fingerprint = Some(fingerprint);
    p
}

/// `new` is `old` with the canonical source URL of `video_id` and the given
/// fingerprint; every other field is kept.
pub open spec fn is_refingerprinted_reference(
    old: AudioProvenance,
    new: AudioProvenance,
    video_id: Seq<char>,
    fingerprint: FileFingerprint,
) -> bool {
    &&& new.source_url@ == video_url(video_id)
    &&& new.fingerprint == Some(fingerprint)
    &&& new.pipeline_version == old.pipeline_version
    &&& new.video_id == old.video_id
    &&& new.title == old.title
    &&& new.content_sha256 == old.content_sha256
    &&& new.object_file == old.object_file
    &&& new.downloaded_unix_seconds == old.downloaded_unix_seconds
    &&& new.format == old.format
    &&& new.content_type == old.content_type
}

/// Records the object's current fingerprint after a matching strong hash.
pub fn refingerprint_reference(provenance: AudioProvenance, video_id: &str, fingerprint: FileFingerprint) -> (updated:
    AudioProvenance)
    ensures
        is_refingerprinted_reference(provenance, updated, video_id@, fingerprint),
{
    let mut p = provenance;
    p.source_url = canonical_video_url(video_id);
    p.fingerprint = Some(fingerprint);
    p
}

/// A reference for freshly downloaded audio committed as an object.
pub open spec fn is_fresh_reference(
    p: AudioProvenance,
    video_id: Seq<char>,
    title: Seq<char>,
    content_sha256: Seq<char>,
    format: AudioFormat,
    downloaded_unix_seconds: u64,
    fingerprint: FileFingerprint,
) -> bool {
    &&& p.pipeline_version@ == AUDIO_PIPELINE_VERSION@
    &&& p.video_id@ == video_id
    &&& p.source_url@ == video_url(video_id)
    &&& p.title@ == title
    &&& p.content_sha256@ == content_sha256
    &&& p.object_file@ == object_file_text(content_sha256, format)
    &&& p.downloaded_unix_seconds == downloaded_unix_seconds
    &&& p.format == Some(format)
    &&& p.content_type matches Some(ct) && ct@ == format_content_type(format)
    &&& p.fingerprint == Some(fingerprint)
}

/// The reference written after a download is committed.
pub fn fresh_reference(
    video_id: &str,
    title: &str,
    content_sha256: &str,
    format: AudioFormat,
    downloaded_unix_seconds: u64,
    fingerprint: FileFingerprint,
) -> (provenance: AudioProvenance)
    ensures
        is_fresh_reference(
            provenance,
            video_id@,
            title@,
            content_sha256@,
            format,
            downloaded_unix_seconds,
            fingerprint,
        ),
{
    AudioProvenance {
        pipeline_version: String::from_str(AUDIO_PIPELINE_VERSION),
        video_id: String::from_str(video_id),
        source_url: canonical_video_url(video_id),
        title: String::from_str(title),
        content_sha256: String::from_str(content_sha256),
        object_file: object_file_name(content_sha256, format),
        downloaded_unix_seconds,
        format: Some(format),
        content_type: Some(String::from_str(format.content_type())),
        fingerprint: Some(fingerprint),
    }
}

/// A record of unavailability is current and about this video.
pub open spec fn is_current_unavailable(record: UnavailableAudioProvenance, video_id: Seq<char>) -> bool {
    &&& record.pipeline_version@ == UNAVAILABLE_PIPELINE_VERSION@
    &&& record.status@ == "unavailable"@
    &&& record.video_id@ == video_id
}

/// Whether a stored record of unavailability holds for `video_id`.
pub fn current_unavailable_record(record: &UnavailableAudioProvenance, video_id: &str) -> (current: bool)
    ensures
        current == is_current_unavailable(*record, video_id@),
{
    same_text(record.pipeline_version.as_str(), UNAVAILABLE_PIPELINE_VERSION) && same_text(
        record.status.as_str(),
        "unavailable",
    ) && same_text(record.video_id.as_str(), video_id)
}

/// The record written when the downloader confirms that a video is
/// unavailable.
pub fn unavailable_record(
    video_id: &str,
    title: &str,
    reason: UnavailabilityReason,
    detected_unix_seconds: u64,
) -> (record: UnavailableAudioProvenance)
    ensures
        is_current_unavailable(record, video_id@),
        record.source_url@ == video_url(video_id@),
        record.title@ == title@,
        record.reason == reason,
        record.detected_unix_seconds == detected_unix_seconds,
{
    UnavailableAudioProvenance {
        pipeline_version: String::from_str(UNAVAILABLE_PIPELINE_VERSION),
        status: String::from_str("unavailable"),
        video_id: String::from_str(video_id),
        source_url: canonical_video_url(video_id),
        title: String::from_str(title),
        reason,
        detected_unix_seconds,
    }
}


/// Audio a downloader left in the staging directory.
#[derive(Debug)]
pub struct DownloadedAudio {
    pub path: PathBuf,
    pub format: AudioFormat,
}

/// A download is tried once more, without the download archive, exactly when
/// the archive made `yt-dlp` skip a video whose audio is missing.
pub fn retry_without_archive(downloaded: &Result<DownloadedAudio, YtError>) -> (retry: bool)
    ensures
        retry == (downloaded matches Err(YtError::ArchiveSkippedMissing(_))),
{
    match downloaded {
        Err(YtError::ArchiveSkippedMissing(_)) => true,
        _ => false,
    }
}

/// The message for a downloader that blamed another video.
pub open spec fn wrong_video_message() -> Seq<char> {
    "downloader reported unavailability for the wrong video"@
}

/// A report of unavailability must be about the video that was asked for.
pub fn check_unavailable_report(reported_video_id: &str, video_id: &str) -> (result: Result<(), YtError>)
    ensures
        result is Ok <==> reported_video_id@ == video_id@,
        result matches Err(e) ==> is_invalid_data(e, wrong_video_message()),
{
    if same_text(reported_video_id, video_id) {
        Ok(())
    } else {
        Err(invalid_data(chars_of("downloader reported unavailability for the wrong video").as_slice()))
    }
}

/// The message for a download that is not a nonempty regular file.
pub open spec fn not_a_file_message() -> Seq<char> {
    "downloaded audio is not a nonempty regular file"@
}

/// The message for a download outside staging or with the wrong extension.
pub open spec fn misplaced_message() -> Seq<char> {
    "downloader returned audio outside staging or with the wrong extension"@
}

/// The downloaded file's extension is its format's, ignoring ASCII case.
pub open spec fn has_format_extension(path: Seq<u8>, format: AudioFormat) -> bool {
    path_extension(path) matches Some(ext) && ascii_lower_bytes(ext) == vstd::utf8::encode_utf8(
        format_extension(format),
    )
}

/// Where a download must be before it is committed: inside the staging
/// directory once both are canonicalized, with its format's extension.
pub open spec fn is_well_placed_download(
    canonical_staging: Seq<u8>,
    canonical_download: Seq<u8>,
    download_path: Seq<u8>,
    format: AudioFormat,
) -> bool {
    path_begins_with(canonical_download, canonical_staging) && has_format_extension(download_path, format)
}

/// A download must be a nonempty regular file.
pub fn check_downloaded_file(stat: ObjectStat) -> (result: Result<(), YtError>)
    ensures
        result is Ok <==> stat.is_file && stat.len > 0,
        result matches Err(e) ==> is_invalid_data(e, not_a_file_message()),
{
    if !stat.is_file || stat.len == 0 {
        Err(invalid_data(chars_of("downloaded audio is not a nonempty regular file").as_slice()))
    } else {
        Ok(())
    }
}

fn extension_bytes(format: AudioFormat) -> (ext: Vec<u8>)
    ensures
        ext@ == vstd::utf8::encode_utf8(format_extension(format)),
{
    let text = format.extension();
    proof {
        reveal_strlit("m4a");
        reveal_strlit("wav");
        vstd::string::is_ascii_spec_bytes(text);
    }
    let bytes = text.as_bytes();
    let mut out: Vec<u8> = Vec::new();
    let mut i: usize = 0;
    while i < bytes.len()
        invariant
            0 <= i <= bytes@.len(),
            out@ == bytes@.take(i as int),
        decreases bytes.len() - i,
    {
        assert(bytes@.take(i + 1) =~= out@.push(bytes@[i as int]));
        out.push(bytes[i]);
        i = i + 1;
    }
    assert(bytes@.take(bytes@.len() as int) =~= bytes@);
    out
}

/// Checks where a download landed before it is committed to the object
/// store.
pub fn check_download_location(
    canonical_staging: &[u8],
    canonical_download: &[u8],
    download_path: &[u8],
    format: AudioFormat,
) -> (result: Result<(), YtError>)
    ensures
        result is Ok <==> is_well_placed_download(canonical_staging@, canonical_download@, download_path@, format),
        result matches Err(e) ==> is_invalid_data(e, misplaced_message()),
{
    let inside = path_starts_with(canonical_download, canonical_staging);
    let right_extension = match extension(download_path) {
        Some(ext) => {
            let lower = crate::media::lower_bytes(ext.as_slice());
            let expected = extension_bytes(format);
            crate::media::bytes_are(lower.as_slice(), expected.as_slice())
        },
        None => false,
    };
    if !inside || !right_extension {
        return Err(
            invalid_data(
                chars_of("downloader returned audio outside staging or with the wrong extension").as_slice(),
            ),
        );
    }
    Ok(())
}


/// How a downloaded file enters the object store.
#[derive(Debug, Clone, Copy, PartialEq, Eq)]
pub enum ObjectPlacement {
    /// The object is already stored with this content: the download is
    /// dropped.
    ReuseExisting,
    /// Something else sits at the object's path: it is quarantined, then the
    /// download is moved there.
    QuarantineThenCommit,
    /// Nothing is stored there yet: the download is moved there.
    Commit,
}

/// An existing object is only worth hashing when it is a regular file of the
/// download's length.
pub open spec fn existing_needs_hash(existing: Option<ObjectStat>, download_len: u64) -> bool {
    existing matches Some(s) && s.is_file && s.len == download_len
}

/// Whether the object already at the destination must be hashed to compare
/// it with the download.
pub fn needs_content_check(existing: Option<ObjectStat>, download_len: u64) -> (check: bool)
    ensures
        check == existing_needs_hash(existing, download_len),
{
    match existing {
        Some(s) => s.is_file && s.len == download_len,
        None => false,
    }
}

/// Where a download goes: an identical stored object is reused, anything else
/// at the destination is quarantined first.
pub open spec fn placement_for(existing: Option<ObjectStat>, download_len: u64, content_matches: bool) -> ObjectPlacement {
    if existing_needs_hash(existing, download_len) && content_matches {
        ObjectPlacement::ReuseExisting
    } else if existing is Some {
        ObjectPlacement::QuarantineThenCommit
    } else {
        ObjectPlacement::Commit
    }
}

/// Decides how a download enters the object store; `content_matches` says
/// whether the existing object hashed to the download's digest (it is only
/// consulted when that object needed hashing).
pub fn object_placement(existing: Option<ObjectStat>, download_len: u64, content_matches: bool) -> (placement:
    ObjectPlacement)
    ensures
        placement == placement_for(existing, download_len, content_matches),
{
    if needs_content_check(existing, download_len) && content_matches {
        ObjectPlacement::ReuseExisting
    } else if existing.is_some() {
        ObjectPlacement::QuarantineThenCommit
    } else {
        ObjectPlacement::Commit
    }
}

/// The message of a strong validation that finds no regular file.
pub open spec fn not_regular_message() -> Seq<char> {
    "audio object is not a regular file"@
}

/// The message of a strong validation whose hash disagrees.
pub open spec fn integrity_message() -> Seq<char> {
    "audio object failed strong integrity validation"@
}

/// A strong validation first requires a nonempty regular file.
pub fn check_strong_object(stat: ObjectStat) -> (result: Result<(), YtError>)
    ensures
        result is Ok <==> stat.is_file && stat.len > 0,
        result matches Err(e) ==> is_invalid_data(e, not_regular_message()),
{
    if !stat.is_file || stat.len == 0 {
        Err(invalid_data(chars_of("audio object is not a regular file").as_slice()))
    } else {
        Ok(())
    }
}

/// A strong validation then requires the object's digest to be the one
/// recorded.
pub fn check_strong_digest(actual_sha256: &str, recorded_sha256: &str) -> (result: Result<(), YtError>)
    ensures
        result is Ok <==> actual_sha256@ == recorded_sha256@,
        result matches Err(e) ==> is_invalid_data(e, integrity_message()),
{
    if same_text(actual_sha256, recorded_sha256) {
        Ok(())
    } else {
        Err(invalid_data(chars_of("audio object failed strong integrity validation").as_slice()))
    }
}

/// The manifest of a playlist is current and belongs to the request: its
/// pipeline version, its source URL, then each video identifier in turn.
pub open spec fn manifest_check(
    pipeline_version: Seq<char>,
    canonical_url: Seq<char>,
    expected_url: Seq<char>,
    video_ids: Seq<Seq<char>>,
) -> Option<Seq<char>> {
    if pipeline_version != MANIFEST_PIPELINE_VERSION@ {
        Some("manifest pipeline version mismatch"@)
    } else if canonical_url != expected_url {
        Some("manifest source URL mismatch"@)
    } else if exists|i: int| 0 <= i < video_ids.len() && !is_safe_id(#[trigger] video_ids[i]) {
        let i = choose|i: int|
            0 <= i < video_ids.len() && !is_safe_id(#[trigger] video_ids[i]) && forall|k: int|
                0 <= k < i ==> is_safe_id(#[trigger] video_ids[k]);
        Some("unsafe video id: "@ + video_ids[i])
    } else {
        None
    }
}

/// The identifiers as character sequences.
pub open spec fn ids_view(ids: Seq<String>) -> Seq<Seq<char>> {
    ids.map_values(|id: String| id@)
}

/// Checks a playlist manifest against the playlist it should describe.
pub fn validate_manifest(pipeline_version: &str, canonical_url: &str, expected_url: &str, video_ids: &[String]) -> (result:
    Result<(), YtError>)
    ensures
        match manifest_check(pipeline_version@, canonical_url@, expected_url@, ids_view(video_ids@)) {
            None => result is Ok,
            Some(message) => result matches Err(e) && is_invalid_data(e, message),
        },
{
    if !same_text(pipeline_version, MANIFEST_PIPELINE_VERSION) {
        return Err(invalid_data(chars_of("manifest pipeline version mismatch").as_slice()));
    }
    if !same_text(canonical_url, expected_url) {
        return Err(invalid_data(chars_of("manifest source URL mismatch").as_slice()));
    }
    let ghost ids = ids_view(video_ids@);
    let mut i: usize = 0;
    while i < video_ids.len()
        invariant
            ids == ids_view(video_ids@),
            pipeline_version@ == MANIFEST_PIPELINE_VERSION@,
            canonical_url@ == expected_url@,
            0 <= i <= video_ids@.len(),
            forall|k: int| 0 <= k < i ==> is_safe_id(#[trigger] ids[k]),
        decreases video_ids.len() - i,
    {
        assert(ids[i as int] == video_ids@[i as int]@);
        match validate_video_id(video_ids[i].as_str()) {
            Ok(()) => {},
            Err(e) => {
                proof {
                    let c = choose|c: int|
                        0 <= c < ids.len() && !is_safe_id(#[trigger] ids[c]) && forall|k: int|
                            0 <= k < c ==> is_safe_id(#[trigger] ids[k]);
                    assert(0 <= i < ids.len() && !is_safe_id(ids[i as int]) && forall|k: int|
                        0 <= k < i ==> is_safe_id(#[trigger] ids[k]));
                    if c < i {
                        assert(is_safe_id(ids[c]));
                    } else if c > i {
                        assert(is_safe_id(ids[i as int]));
                    }
                }
                return Err(e);
            },
        }
        i = i + 1;
    }
    Ok(())
}

/// The cache key of a playlist manifest: the lowercase hexadecimal SHA-256
/// of its canonical URL's UTF-8 bytes.
pub fn manifest_key(canonical_url: &str) -> (key: String)
    ensures
        key@ == hex_text(sha256_of(canonical_url.spec_bytes())),
{
    let digest = sha256_digest(canonical_url.as_bytes());
    hex(digest.as_slice())
}

/// A playlist entry as the cache uses it: the video's identifier and title.
#[derive(Debug, Clone)]
pub struct PlaylistVideo {
    pub id: String,
    pub title: String,
}

/// What became of one playlist entry: nothing (its worker stopped), its
/// audio, or an error.
pub type AudioResult = Option<Result<CacheOutcome<PreparedAudio>, YtError>>;

/// An error other than a confirmed unavailability stops the playlist.
pub open spec fn is_fatal_result(r: AudioResult) -> bool {
    r matches Some(Err(e)) && !(e is VideoUnavailable)
}

/// `i` is the first entry with a fatal error.
pub open spec fn is_first_fatal(results: Seq<AudioResult>, i: int) -> bool {
    &&& 0 <= i < results.len()
    &&& is_fatal_result(results[i])
    &&& forall|k: int| 0 <= k < i ==> !is_fatal_result(#[trigger] results[k])
}

/// The entry reports another video as unavailable.
pub open spec fn blames_other_video(r: AudioResult, video_id: Seq<char>) -> bool {
    r matches Some(Err(YtError::VideoUnavailable { video_id: v, .. })) && v@ != video_id
}

/// A prepared track, its texts as character sequences.
pub open spec fn track_view(t: PreparedAudioTrack) -> (Seq<char>, Seq<char>, PathBuf, bool, Seq<char>, AudioFormat, u64) {
    (t.video_id@, t.title@, t.path, t.was_cached, t.content_sha256@, t.format, t.byte_size)
}

/// A skipped track, its texts as character sequences.
pub open spec fn skipped_view(t: SkippedTrack) -> (Seq<char>, Seq<char>, UnavailabilityReason) {
    (t.video_id@, t.title@, t.reason)
}

/// The tracks prepared from the first `n` entries, in playlist order.
pub open spec fn prepared_tracks(videos: Seq<PlaylistVideo>, results: Seq<AudioResult>, n: int) -> Seq<
    (Seq<char>, Seq<char>, PathBuf, bool, Seq<char>, AudioFormat, u64),
>
    decreases n,
{
    if n <= 0 {
        seq![]
    } else {
        let before = prepared_tracks(videos, results, n - 1);
        match results[n - 1] {
            Some(Ok(audio)) => before.push(
                (
                    videos[n - 1].id@,
                    videos[n - 1].title@,
                    audio.value.path,
                    audio.was_cached,
                    audio.value.content_sha256@,
                    audio.value.format,
                    audio.value.byte_size,
                ),
            ),
            _ => before,
        }
    }
}

/// The tracks skipped among the first `n` entries, in playlist order.
pub open spec fn skipped_tracks(videos: Seq<PlaylistVideo>, results: Seq<AudioResult>, n: int) -> Seq<
    (Seq<char>, Seq<char>, UnavailabilityReason),
>
    decreases n,
{
    if n <= 0 {
        seq![]
    } else {
        let before = skipped_tracks(videos, results, n - 1);
        match results[n - 1] {
            Some(Err(YtError::VideoUnavailable { video_id, reason, .. })) => before.push(
                (video_id@, videos[n - 1].title@, reason),
            ),
            _ => before,
        }
    }
}

/// The playlist prepared from every entry's result.
pub open spec fn is_prepared_playlist(
    p: PreparedPlaylist,
    title: String,
    manifest_was_cached: bool,
    videos: Seq<PlaylistVideo>,
    results: Seq<AudioResult>,
) -> bool {
    &&& p.title == title
    &&& p.manifest_was_cached == manifest_was_cached
    &&& p.tracks@.map_values(|t: PreparedAudioTrack| track_view(t)) == prepared_tracks(
        videos,
        results,
        results.len() as int,
    )
    &&& p.skipped@.map_values(|t: SkippedTrack| skipped_view(t)) == skipped_tracks(
        videos,
        results,
        results.len() as int,
    )
}

/// Assembles a prepared playlist from the entries' results, in playlist
/// order.  The first fatal error, by position, is the playlist's error; then
/// an unavailability reported for another video is refused; otherwise every
/// ready entry becomes a track and every unavailable one a skipped track.
pub fn collect_prepared_playlist(
    title: String,
    manifest_was_cached: bool,
    videos: &Vec<PlaylistVideo>,
    results: Vec<AudioResult>,
) -> (outcome: Result<PreparedPlaylist, YtError>)
    requires
        results@.len() == videos@.len(),
    ensures
        (exists|i: int| is_first_fatal(results@, i)) ==> outcome is Err && Some(
            Err::<CacheOutcome<PreparedAudio>, YtError>(outcome->Err_0),
        ) == results@[choose|i: int| is_first_fatal(results@, i)],
        !(exists|i: int| is_first_fatal(results@, i)) && (exists|i: int|
            0 <= i < results@.len() && blames_other_video(#[trigger] results@[i], videos@[i].id@))
            ==> outcome is Err && is_invalid_data(outcome->Err_0, wrong_video_message()),
        !(exists|i: int| is_first_fatal(results@, i)) && !(exists|i: int|
            0 <= i < results@.len() && blames_other_video(#[trigger] results@[i], videos@[i].id@))
            ==> outcome is Ok && is_prepared_playlist(
            outcome->Ok_0,
            title,
            manifest_was_cached,
            videos@,
            results@,
        ),
{
    let ghost given = results@;
    let mut slots = results;
    let mut i: usize = 0;
    while i < slots.len()
        invariant
            slots@ == given,
            given == results@,
            0 <= i <= slots@.len(),
            forall|k: int| 0 <= k < i ==> !is_fatal_result(#[trigger] given[k]),
        decreases slots.len() - i,
    {
        let fatal = match &slots[i] {
            Some(Err(YtError::VideoUnavailable { .. })) => false,
            Some(Err(_)) => true,
            _ => false,
        };
        if fatal {
            proof {
                assert(is_first_fatal(given, i as int));
                let c = choose|c: int| is_first_fatal(given, c);
                if c < i {
                    assert(!is_fatal_result(given[c]));
                } else if c > i {
                    assert(!is_fatal_result(given[i as int]));
                }
            }
            let mut slot: AudioResult = None;
            slots.set_and_swap(i, &mut slot);
            match slot {
                Some(Err(error)) => {
                    return Err(error);
                },
                _ => {
                    proof {
                        assert(false);
                    }
                    return Err(invalid_data(chars_of("").as_slice()));
                },
            }
        }
        i = i + 1;
    }
    assert(!(exists|c: int| is_first_fatal(given, c)));
    let mut tracks: Vec<PreparedAudioTrack> = Vec::new();
    let mut skipped: Vec<SkippedTrack> = Vec::new();
    let mut i: usize = 0;
    while i < slots.len()
        invariant
            slots@.len() == given.len(),
            given == results@,
            given.len() == videos@.len(),
            0 <= i <= slots@.len(),
            forall|k: int| 0 <= k < given.len() ==> !is_fatal_result(#[trigger] given[k]),
            forall|k: int| i <= k < given.len() ==> #[trigger] slots@[k] == given[k],
            forall|k: int| 0 <= k < i ==> !blames_other_video(#[trigger] given[k], videos@[k].id@),
            tracks@.map_values(|t: PreparedAudioTrack| track_view(t)) == prepared_tracks(
                videos@,
                given,
                i as int,
            ),
            skipped@.map_values(|t: SkippedTrack| skipped_view(t)) == skipped_tracks(
                videos@,
                given,
                i as int,
            ),
        decreases slots.len() - i,
    {
        let mut slot: AudioResult = None;
        slots.set_and_swap(i, &mut slot);
        assert(slot == given[i as int]);
        let ghost tracks_before = tracks@.map_values(|t: PreparedAudioTrack| track_view(t));
        let ghost skipped_before = skipped@.map_values(|t: SkippedTrack| skipped_view(t));
        match slot {
            None => {},
            Some(Ok(audio)) => {
                let track = PreparedAudioTrack {
                    video_id: videos[i].id.clone(),
                    title: videos[i].title.clone(),
                    path: audio.value.path,
                    was_cached: audio.was_cached,
                    content_sha256: audio.value.content_sha256,
                    format: audio.value.format,
                    byte_size: audio.value.byte_size,
                };
                tracks.push(track);
                assert(tracks@.map_values(|t: PreparedAudioTrack| track_view(t)) =~= tracks_before.push(
                    track_view(track),
                ));
            },
            Some(Err(YtError::VideoUnavailable { video_id, reason, was_cached })) => {
                if !(video_id == videos[i].id) {
                    return Err(
                        invalid_data(
                            chars_of("downloader reported unavailability for the wrong video").as_slice(),
                        ),
                    );
                }
                let track = SkippedTrack { video_id, title: videos[i].title.clone(), reason };
                skipped.push(track);
                assert(skipped@.map_values(|t: SkippedTrack| skipped_view(t)) =~= skipped_before.push(
                    skipped_view(track),
                ));
            },
            Some(Err(error)) => {
                proof {
                    assert(is_fatal_result(given[i as int]));
                }
                return Err(error);
            },
        }
        i = i + 1;
    }
    Ok(PreparedPlaylist { title, manifest_was_cached, tracks, skipped })
}

/// The layered YouTube cache under a root directory, with the backend that
/// fetches manifests and audio, and the number of strong whole-file
/// validations it has performed (a normal fingerprint hit performs none).
#[derive(Debug)]
pub struct YoutubeCache<B> {
    root: PathBuf,
    backend: B,
    full_hashes: usize,
}

impl<B> YoutubeCache<B> {
    /// The cache's root directory.
    pub closed spec fn root_dir(&self) -> PathBuf {
        self.root
    }

    /// The cache's backend.
    pub closed spec fn backend_of(&self) -> B {
        self.backend
    }

    /// How many strong whole-file validations were performed.
    pub closed spec fn full_hashes(&self) -> usize {
        self.full_hashes
    }

    /// A cache under `root` that fetches through `backend`.
    pub fn new(root: PathBuf, backend: B) -> (cache: YoutubeCache<B>)
        ensures
            cache.root_dir() == root,
            cache.backend_of() == backend,
            cache.full_hashes() == 0,
    {
        YoutubeCache { root, backend, full_hashes: 0 }
    }

    /// Number of strong whole-file validations performed by this cache.
    pub fn full_hash_count(&self) -> (count: usize)
        ensures
            count == self.full_hashes(),
    {
        self.full_hashes
    }

    /// The cache's root directory.
    pub fn root(&self) -> (root: &PathBuf)
        ensures
            *root == self.root_dir(),
    {
        &self.root
    }

    /// The cache's backend.
    pub fn backend(&self) -> (backend: &B)
        ensures
            *backend == self.backend_of(),
    {
        &self.backend
    }

    /// Counts `count` more strong validations; like an atomic counter, the
    /// count wraps around at its largest value.
    pub fn record_full_hashes(&mut self, count: usize)
        ensures
            final(self).full_hashes() == if old(self).full_hashes() + count > usize::MAX {
                old(self).full_hashes() + count - usize::MAX - 1
            } else {
                old(self).full_hashes() + count
            },
            final(self).root_dir() == old(self).root_dir(),
            final(self).backend_of() == old(self).backend_of(),
    {
        self.full_hashes = self.full_hashes.wrapping_add(count);
    }
}

/// The fingerprint of an object of `len` bytes modified `modified_nanos`
/// nanoseconds after the Unix epoch (`None`: before it); the time is capped at
/// the largest value a fingerprint holds.
pub fn file_fingerprint(len: u64, modified_nanos: Option<u128>) -> (result: Result<FileFingerprint, YtError>)
    ensures
        modified_nanos matches Some(n) ==> (result matches Ok(f) && f.byte_size == len
            && f.modified_unix_nanos == if n <= u64::MAX as u128 {
            n as u64
        } else {
            u64::MAX
        }),
        modified_nanos is None ==> (result matches Err(e) && is_invalid_data(
            e,
            "audio object modification time predates Unix epoch"@,
        )),
{
    match modified_nanos {
        Some(n) => {
            let nanos: u64 = if n <= 0xffff_ffff_ffff_ffffu128 {
                n as u64
            } else {
                0xffff_ffff_ffff_ffffu64
            };
            Ok(FileFingerprint { byte_size: len, modified_unix_nanos: nanos })
        },
        None => Err(invalid_data(chars_of("audio object modification time predates Unix epoch").as_slice())),
    }
}

/// `<digest>-<time>-<process>.<extension>`: where a displaced object goes in
/// quarantine (`bin` when it has no extension).
pub open spec fn quarantine_object_text(hash: Seq<char>, now: u64, pid: u32, extension: Option<Seq<char>>) -> Seq<char> {
    let ext = match extension {
        Some(e) => e,
        None => "bin"@,
    };
    hash + "-"@ + crate::media::decimal_digits(now as nat) + "-"@ + crate::media::decimal_digits(pid as nat) + "."@
        + ext
}

/// The quarantine name of an object displaced from the store.
pub fn quarantine_object_name(hash: &str, now: u64, pid: u32, extension: Option<&str>) -> (name: String)
    ensures
        name@ == quarantine_object_text(
            hash@,
            now,
            pid,
            match extension {
                Some(e) => Some(e@),
                None => None,
            },
        ),
{
    let mut chars = chars_of(hash);
    extend_chars(&mut chars, chars_of("-").as_slice());
    extend_chars(&mut chars, crate::media::decimal_text(now).as_slice());
    extend_chars(&mut chars, chars_of("-").as_slice());
    extend_chars(&mut chars, crate::media::decimal_text(pid as u64).as_slice());
    extend_chars(&mut chars, chars_of(".").as_slice());
    match extension {
        Some(e) => extend_chars(&mut chars, chars_of(e).as_slice()),
        None => extend_chars(&mut chars, chars_of("bin").as_slice()),
    }
    string_from_chars(chars.as_slice())
}

/// `<file name>-<time>-<process>`: where a corrupt reference goes in
/// quarantine (`invalid.json` when its name is not text).
pub open spec fn quarantine_reference_text(file_name: Option<Seq<char>>, now: u64, pid: u32) -> Seq<char> {
    let name = match file_name {
        Some(n) => n,
        None => "invalid.json"@,
    };
    name + "-"@ + crate::media::decimal_digits(now as nat) + "-"@ + crate::media::decimal_digits(pid as nat)
}

/// The quarantine name of a reference that failed validation.
pub fn quarantine_reference_name(file_name: Option<&str>, now: u64, pid: u32) -> (name: String)
    ensures
        name@ == quarantine_reference_text(
            match file_name {
                Some(n) => Some(n@),
                None => None,
            },
            now,
            pid,
        ),
{
    let mut chars = match file_name {
        Some(n) => chars_of(n),
        None => chars_of("invalid.json"),
    };
    extend_chars(&mut chars, chars_of("-").as_slice());
    extend_chars(&mut chars, crate::media::decimal_text(now).as_slice());
    extend_chars(&mut chars, chars_of("-").as_slice());
    extend_chars(&mut chars, crate::media::decimal_text(pid as u64).as_slice());
    string_from_chars(chars.as_slice())
}

/// The message for a flat playlist that lists no entries.
pub open spec fn no_entries_message() -> Seq<char> {
    "playlist has no entries"@
}

/// A flat playlist listing must carry its list of entries.
pub fn check_playlist_entries(listed: bool) -> (result: Result<(), YtError>)
    ensures
        result is Ok <==> listed,
        result matches Err(e) ==> is_invalid_data(e, no_entries_message()),
{
    if listed {
        Ok(())
    } else {
        Err(invalid_data(chars_of("playlist has no entries").as_slice()))
    }
}

/// A playlist entry read from `yt-dlp`'s listing: it needs a non-empty
/// identifier; a missing title reads `Unknown`.  Returns the entry and its
/// canonical watch URL.
pub fn manifest_video(id: Option<&str>, title: Option<&str>) -> (entry: Result<(PlaylistVideo, String), YtError>)
    ensures
        (id matches Some(i) && i@.len() > 0) ==> (entry matches Ok((video, url)) && video.id@ == id->0@
            && video.title@ == match title {
            Some(t) => t@,
            None => "Unknown"@,
        } && url@ == video_url(id->0@)),
        !(id matches Some(i) && i@.len() > 0) ==> (entry matches Err(e) && is_invalid_data(
            e,
            "playlist entry has no video id"@,
        )),
{
    let id_text = match id {
        Some(i) => i,
        None => {
            return Err(invalid_data(chars_of("playlist entry has no video id").as_slice()));
        },
    };
    if chars_of(id_text).len() == 0 {
        return Err(invalid_data(chars_of("playlist entry has no video id").as_slice()));
    }
    let title_text = match title {
        Some(t) => String::from_str(t),
        None => String::from_str("Unknown"),
    };
    Ok((PlaylistVideo { id: String::from_str(id_text), title: title_text }, canonical_video_url(id_text)))
}

/// A playlist's title as listed, `Untitled playlist` when it has none.
pub fn manifest_title(title: Option<&str>) -> (text: String)
    ensures
        text@ == match title {
            Some(t) => t@,
            None => "Untitled playlist"@,
        },
{
    match title {
        Some(t) => String::from_str(t),
        None => String::from_str("Untitled playlist"),
    }
}


/// A reference that passes the check is bound to the video it was asked for
/// and names its object by its content digest, confined to the object store:
/// `objects/<sha256>.<extension of its format>`.
pub proof fn lemma_accepted_reference_is_confined(p: AudioProvenance, video_id: Seq<char>)
    requires
        reference_check(p, video_id) is Ok,
    ensures
        p.video_id@ == video_id,
        is_lower_sha256(p.content_sha256@),
        p.object_file@ == object_file_text(p.content_sha256@, reference_check(p, video_id)->Ok_0.0),
        is_safe_object_path(vstd::utf8::encode_utf8(p.object_file@)),
        reference_check(p, video_id)->Ok_0.2 ==> reference_check(p, video_id)->Ok_0.0 == AudioFormat::Wav,
{
}


/// The content-addressed path of a lowercase SHA-256 digest is a safe
/// object path: `objects/<digest>.<extension>`.
pub proof fn lemma_object_file_is_safe(content_sha256: Seq<char>, format: AudioFormat)
    requires
        is_lower_sha256(content_sha256),
    ensures
        is_safe_object_path(vstd::utf8::encode_utf8(object_file_text(content_sha256, format))),
{
    reveal_strlit("objects/");
    reveal_strlit(".");
    reveal_strlit("m4a");
    reveal_strlit("wav");
    let s = object_file_text(content_sha256, format);
    let ext = format_extension(format);
    assert(ext.len() == 3);
    assert(s.len() == 76);
    assert(s[7] == '/');
    assert forall|i: int| 0 <= i < s.len() implies (#[trigger] s[i] as u32) < 128 by {
        if 8 <= i < 72 {
            assert(s[i] == content_sha256[i - 8]);
            assert(is_lower_hex_char(content_sha256[i - 8]));
        } else if i >= 73 {
            assert(s[i] == ext[i - 73]);
        }
    }
    lemma_ascii_encoding(s);
    let b = vstd::utf8::encode_utf8(s);
    assert(b.take(7) =~= objects_dir_name()) by {
        assert forall|i: int| 0 <= i < 7 implies b.take(7)[i] == objects_dir_name()[i] by {
            assert(b[i] as u32 == s[i] as u32);
        }
    }
    assert(b[7] as u32 == s[7] as u32);
    assert forall|i: int| 8 <= i < b.len() implies b[i] != 47u8 by {
        assert(b[i] as u32 == s[i] as u32);
        if 8 <= i < 72 {
            assert(s[i] == content_sha256[i - 8]);
            assert(is_lower_hex_char(content_sha256[i - 8]));
        } else if i >= 73 {
            assert(s[i] == ext[i - 73]);
        }
    }
    lemma_object_path_is_safe(b);
}

/// A reference written for freshly committed audio is accepted when it is
/// read back for the same video, naming the object it was written for, and
/// while the object keeps the fingerprint it was written with it is served
/// without reading the audio.
pub proof fn lemma_fresh_reference_reads_back(
    p: AudioProvenance,
    video_id: Seq<char>,
    title: Seq<char>,
    content_sha256: Seq<char>,
    format: AudioFormat,
    downloaded_unix_seconds: u64,
    fingerprint: FileFingerprint,
)
    requires
        is_fresh_reference(p, video_id, title, content_sha256, format, downloaded_unix_seconds, fingerprint),
        is_lower_sha256(content_sha256),
    ensures
        reference_check(p, video_id) == Ok::<(AudioFormat, Seq<char>, bool), ReferenceFault>(
            (format, object_file_text(content_sha256, format), false),
        ),
        hit_action_for(false, p.fingerprint, fingerprint) == HitAction::Trust,
{
    lemma_object_file_is_safe(content_sha256, format);
    assert(!is_legacy_reference(p));
    assert(reference_format(p, video_id) == Ok::<AudioFormat, ReferenceFault>(format));
}

/// An accepted reference rewritten as a current one (a legacy reference on
/// its first hit, or after a strong validation) is accepted when read back,
/// with the same format and object and no longer as a legacy reference, and
/// is served without a hash while the object keeps the recorded fingerprint.
pub proof fn lemma_upgraded_reference_reads_back(
    old: AudioProvenance,
    new: AudioProvenance,
    video_id: Seq<char>,
    format: AudioFormat,
    fingerprint: FileFingerprint,
)
    requires
        reference_check(old, video_id) matches Ok((f, _, _)) && f == format,
        is_upgraded_reference(old, new, video_id, format, fingerprint),
    ensures
        reference_check(new, video_id) == Ok::<(AudioFormat, Seq<char>, bool), ReferenceFault>(
            (format, old.object_file@, false),
        ),
        hit_action_for(false, new.fingerprint, fingerprint) == HitAction::Trust,
{
    assert(!is_legacy_reference(new));
    assert(reference_format(new, video_id) == Ok::<AudioFormat, ReferenceFault>(format));
}

/// A current reference whose object was hashed and refingerprinted is
/// accepted when read back, with the same format and object, and is served
/// without a hash while the object keeps its new fingerprint.
pub proof fn lemma_refingerprinted_reference_reads_back(
    old: AudioProvenance,
    new: AudioProvenance,
    video_id: Seq<char>,
    fingerprint: FileFingerprint,
)
    requires
        reference_check(old, video_id) matches Ok((_, _, legacy)) && !legacy,
        is_refingerprinted_reference(old, new, video_id, fingerprint),
    ensures
        reference_check(new, video_id) == Ok::<(AudioFormat, Seq<char>, bool), ReferenceFault>(
            (reference_check(old, video_id)->Ok_0.0, old.object_file@, false),
        ),
        hit_action_for(false, new.fingerprint, fingerprint) == HitAction::Trust,
{
    assert(!is_legacy_reference(new));
    assert(reference_format(new, video_id) == reference_format(old, video_id));
}

} // verus!
