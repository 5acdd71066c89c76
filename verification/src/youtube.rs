//! The YouTube cache's data model and the decisions it makes: playlist and
//! video identities, reference validation, unavailability classification and
//! the assembly of a prepared playlist.
use std::path::PathBuf;
use vstd::prelude::*;

use crate::text::{
    ascii_lower, chars_of, contains_text, extend_chars, has_prefix, has_substring, same_chars,
    split_into_lines, starts_with, string_from_chars, to_ascii_lower, trim, trim_chars, lines,
    char_lines_view, occurs_at,
};

verus! {

broadcast use vstd::string::group_string_axioms;

#[verifier::external_type_specification]
#[verifier::external_body]
pub struct ExPathBuf(PathBuf);

/// `PathBuf::clone` copies a path; nothing about the copy is claimed here.
pub assume_specification[ <PathBuf as Clone>::clone ](path: &PathBuf) -> PathBuf;

#[verifier::external_type_specification]
#[verifier::external_body]
pub struct ExIoError(std::io::Error);

#[verifier::external_type_specification]
#[verifier::external_body]
pub struct ExJsonError(serde_json::Error);

/// Container format of a cached audio object.
#[derive(Debug, Clone, Copy, PartialEq, Eq)]
pub enum AudioFormat {
    M4a,
    Wav,
}

/// File extension of an audio format.
pub open spec fn format_extension(format: AudioFormat) -> Seq<char> {
    match format {
        AudioFormat::M4a => "m4a"@,
        AudioFormat::Wav => "wav"@,
    }
}

/// Media type of an audio format.
pub open spec fn format_content_type(format: AudioFormat) -> Seq<char> {
    match format {
        AudioFormat::M4a => "audio/mp4"@,
        AudioFormat::Wav => "audio/wav"@,
    }
}

impl AudioFormat {
    pub fn extension(self) -> (extension: &'static str)
        ensures
            extension@ == format_extension(self),
    {
        match self {
            AudioFormat::M4a => "m4a",
            AudioFormat::Wav => "wav",
        }
    }

    pub fn content_type(self) -> (content_type: &'static str)
        ensures
            content_type@ == format_content_type(self),
    {
        match self {
            AudioFormat::M4a => "audio/mp4",
            AudioFormat::Wav => "audio/wav",
        }
    }
}

/// Size and modification time of a cached object: the cheap identity that
/// lets a cache hit skip hashing.
#[derive(Debug, Clone, Copy, PartialEq, Eq)]
pub struct FileFingerprint {
    pub byte_size: u64,
    pub modified_unix_nanos: u64,
}

/// Why a video cannot be downloaded.
#[derive(Debug, Clone, Copy, PartialEq, Eq)]
pub enum UnavailabilityReason {
    Private,
    Removed,
    Unavailable,
}

/// The message shown for an unavailability reason.
pub open spec fn reason_message(reason: UnavailabilityReason) -> Seq<char> {
    match reason {
        UnavailabilityReason::Private => "Private video"@,
        UnavailabilityReason::Removed => "Removed video"@,
        UnavailabilityReason::Unavailable => "Unavailable video"@,
    }
}

impl UnavailabilityReason {
    pub fn user_message(self) -> (message: &'static str)
        ensures
            message@ == reason_message(self),
    {
        match self {
            UnavailabilityReason::Private => "Private video",
            UnavailabilityReason::Removed => "Removed video",
            UnavailabilityReason::Unavailable => "Unavailable video",
        }
    }
}

/// Provenance of a downloaded, content-addressed audio object.
#[derive(Debug, Clone)]
pub struct AudioProvenance {
    pub pipeline_version: String,
    pub video_id: String,
    pub source_url: String,
    pub title: String,
    pub content_sha256: String,
    /// Relative content-addressed path below the cache's audio directory.
    pub object_file: String,
    pub downloaded_unix_seconds: u64,
    /// Missing in legacy WAV references.
    pub format: Option<AudioFormat>,
    pub content_type: Option<String>,
    pub fingerprint: Option<FileFingerprint>,
}

/// A confirmed record that a video cannot be downloaded.
#[derive(Debug, Clone)]
pub struct UnavailableAudioProvenance {
    pub pipeline_version: String,
    pub status: String,
    pub video_id: String,
    pub source_url: String,
    pub title: String,
    pub reason: UnavailabilityReason,
    pub detected_unix_seconds: u64,
}

/// A playlist track whose audio is ready in the cache.
#[derive(Debug, Clone)]
pub struct PreparedAudioTrack {
    pub video_id: String,
    pub title: String,
    pub path: PathBuf,
    pub was_cached: bool,
    pub content_sha256: String,
    pub format: AudioFormat,
    pub byte_size: u64,
}

/// Audio resolved for one video.
#[derive(Debug, Clone)]
pub struct PreparedAudio {
    pub path: PathBuf,
    pub content_sha256: String,
    pub format: AudioFormat,
    pub byte_size: u64,
}

/// A playlist whose available tracks are ready, with the tracks skipped as
/// confirmed unavailable.
#[derive(Debug, Clone)]
pub struct PreparedPlaylist {
    pub title: String,
    pub manifest_was_cached: bool,
    pub tracks: Vec<PreparedAudioTrack>,
    pub skipped: Vec<SkippedTrack>,
}

/// A playlist track left out because the video is unavailable.
#[derive(Debug, Clone)]
pub struct SkippedTrack {
    pub video_id: String,
    pub title: String,
    pub reason: UnavailabilityReason,
}

/// How far the cache may go to satisfy a request.
#[derive(Debug, Clone, Copy, PartialEq, Eq)]
pub enum CachePolicy {
    /// Cache only; a miss is an error.
    Offline,
    /// Missing entries may be fetched.
    Populate,
    /// Requested entries are fetched again.
    Refresh,
}

impl CachePolicy {
    /// Whether a cached entry is looked up before anything is fetched:
    /// under every policy but `Refresh`.
    pub fn reads_cache(&self) -> (reads: bool)
        ensures
            reads <==> *self != CachePolicy::Refresh,
    {
        match self {
            CachePolicy::Refresh => false,
            _ => true,
        }
    }

    /// Whether an entry missing from the cache may be fetched: under every
    /// policy but `Offline`, where a miss is an error.
    pub fn may_fetch(&self) -> (fetch: bool)
        ensures
            fetch <==> *self != CachePolicy::Offline,
    {
        match self {
            CachePolicy::Offline => false,
            _ => true,
        }
    }
}

/// A value and whether it came from the cache.
#[derive(Debug, Clone, PartialEq, Eq)]
pub struct CacheOutcome<T> {
    pub value: T,
    pub was_cached: bool,
}

/// Progress of preparing a playlist's audio.
#[derive(Debug, Clone)]
pub enum YoutubeProgress {
    FetchingManifest,
    ManifestReady { title: String, total: usize, was_cached: bool },
    ResolvingAudio { task_id: String, source_index: usize, total: usize, title: String },
    AudioReady {
        task_id: String,
        source_index: usize,
        total: usize,
        title: String,
        was_cached: bool,
    },
    AudioSkipped {
        task_id: String,
        source_index: usize,
        total: usize,
        title: String,
        reason: UnavailabilityReason,
        was_cached: bool,
    },
}

/// Failures of the YouTube cache and of `yt-dlp`.
#[derive(Debug)]
pub enum YtError {
    YtDlpNotFound,
    YtDlpFailed(String),
    ArchiveSkippedMissing(String),
    VideoUnavailable { video_id: String, reason: UnavailabilityReason, was_cached: bool },
    InvalidData(String),
    OfflineMiss(String),
    Io(std::io::Error),
    Json(serde_json::Error),
}

/// The error is an `InvalidData` carrying exactly `message`.
pub open spec fn is_invalid_data(error: YtError, message: Seq<char>) -> bool {
    error matches YtError::InvalidData(text) && text@ == message
}

pub(crate) fn invalid_data(parts: &[char]) -> (error: YtError)
    ensures
        is_invalid_data(error, parts@),
{
    YtError::InvalidData(string_from_chars(parts))
}

/// Characters allowed in playlist and video identifiers.
pub open spec fn is_id_char(c: char) -> bool {
    ||| 'a' <= c <= 'z'
    ||| 'A' <= c <= 'Z'
    ||| '0' <= c <= '9'
    ||| c == '-'
    ||| c == '_'
}

/// A non-empty identifier of ASCII letters, digits, `-` and `_`.
pub open spec fn is_safe_id(id: Seq<char>) -> bool {
    id.len() > 0 && forall|i: int| 0 <= i < id.len() ==> is_id_char(#[trigger] id[i])
}

fn safe_id(id: &[char]) -> (b: bool)
    ensures
        b == is_safe_id(id@),
{
    if id.len() == 0 {
        return false;
    }
    let mut i: usize = 0;
    while i < id.len()
        invariant
            0 <= i <= id@.len(),
            forall|j: int| 0 <= j < i ==> is_id_char(#[trigger] id@[j]),
        decreases id.len() - i,
    {
        let c = id[i];
        if !(('a' <= c && c <= 'z') || ('A' <= c && c <= 'Z') || ('0' <= c && c <= '9') || c
            == '-' || c == '_') {
            return false;
        }
        i = i + 1;
    }
    true
}

/// Accepts a safe video identifier.
pub fn validate_video_id(id: &str) -> (result: Result<(), YtError>)
    ensures
        result is Ok <==> is_safe_id(id@),
        result is Err ==> is_invalid_data(result->Err_0, "unsafe video id: "@ + id@),
{
    let chars = chars_of(id);
    if safe_id(chars.as_slice()) {
        Ok(())
    } else {
        let mut message = chars_of("unsafe video id: ");
        extend_chars(&mut message, chars.as_slice());
        Err(invalid_data(message.as_slice()))
    }
}

/// Accepts a safe playlist identifier.
pub fn validate_playlist_id(id: &str) -> (result: Result<(), YtError>)
    ensures
        result is Ok <==> is_safe_id(id@),
        result is Err ==> is_invalid_data(result->Err_0, "unsafe playlist id: "@ + id@),
{
    let chars = chars_of(id);
    if safe_id(chars.as_slice()) {
        Ok(())
    } else {
        let mut message = chars_of("unsafe playlist id: ");
        extend_chars(&mut message, chars.as_slice());
        Err(invalid_data(message.as_slice()))
    }
}

/// A lowercase hexadecimal digit.
pub open spec fn is_lower_hex_char(c: char) -> bool {
    '0' <= c <= '9' || 'a' <= c <= 'f'
}

/// A lowercase SHA-256 digest in hexadecimal.
pub open spec fn is_lower_sha256(value: Seq<char>) -> bool {
    value.len() == 64 && forall|i: int| 0 <= i < value.len() ==> is_lower_hex_char(#[trigger] value[i])
}

/// Whether the text is a lowercase hexadecimal SHA-256 digest.
pub fn valid_sha256(value: &str) -> (valid: bool)
    ensures
        valid == is_lower_sha256(value@),
{
    let chars = chars_of(value);
    if chars.len() != 64 {
        return false;
    }
    let mut i: usize = 0;
    while i < chars.len()
        invariant
            chars@ == value@,
            chars@.len() == 64,
            0 <= i <= chars@.len(),
            forall|j: int| 0 <= j < i ==> is_lower_hex_char(#[trigger] chars@[j]),
        decreases chars.len() - i,
    {
        let c = chars[i];
        if !(('0' <= c && c <= '9') || ('a' <= c && c <= 'f')) {
            assert(!is_lower_hex_char(chars@[i as int]));
            return false;
        }
        i = i + 1;
    }
    true
}

/// The canonical watch URL of a video.
pub open spec fn video_url(video_id: Seq<char>) -> Seq<char> {
    "https://www.youtube.com/watch?v="@ + video_id
}

pub fn canonical_video_url(video_id: &str) -> (url: String)
    ensures
        url@ == video_url(video_id@),
{
    let mut chars = chars_of("https://www.youtube.com/watch?v=");
    let id = chars_of(video_id);
    extend_chars(&mut chars, id.as_slice());
    string_from_chars(chars.as_slice())
}

/// Host and decoded query pairs of a parsed URL.
pub struct UrlParts {
    pub host: Option<String>,
    pub query: Vec<(String, String)>,
}

/// The host and query pairs as character sequences.
pub open spec fn url_parts_view(parts: UrlParts) -> (Option<Seq<char>>, Seq<(Seq<char>, Seq<char>)>) {
    (
        match parts.host {
            Some(host) => Some(host@),
            None => None,
        },
        parts.query@.map_values(|pair: (String, String)| (pair.0@, pair.1@)),
    )
}

/// What parsing a URL yields: its parts, or the text of the parse error.
pub open spec fn url_outcome_view(outcome: Result<UrlParts, String>) -> Result<
    (Option<Seq<char>>, Seq<(Seq<char>, Seq<char>)>),
    Seq<char>,
> {
    match outcome {
        Ok(parts) => Ok(url_parts_view(parts)),
        Err(text) => Err(text@),
    }
}

/// What `url::Url::parse` makes of a request: the URL's host (`host_str`)
/// and its `application/x-www-form-urlencoded` query pairs (`query_pairs`),
/// or the text of the parse error.
pub uninterp spec fn url_parse_parts(request: Seq<char>) -> Result<
    (Option<Seq<char>>, Seq<(Seq<char>, Seq<char>)>),
    Seq<char>,
>;

/// Parses a URL with `url::Url::parse` and reads its host with `host_str`
/// and its decoded query with `query_pairs`.  The parse depends on the text
/// alone (no base URL), so the result is the named function of the request.
#[verifier::external_body]
fn parse_url_parts(request: &str) -> (outcome: Result<UrlParts, String>)
    ensures
        url_outcome_view(outcome) == url_parse_parts(request@),
{
    match url::Url::parse(request) {
        Ok(parsed) => Ok(UrlParts {
            host: parsed.host_str().map(|host| host.to_string()),
            query: parsed.query_pairs().map(|(key, value)| (key.into_owned(), value.into_owned())).collect(),
        }),
        Err(error) => Err(error.to_string()),
    }
}

/// Cache identity of a playlist request.
pub struct PlaylistIdentity {
    pub canonical_url: String,
    pub fetch_url: String,
    pub is_playlist: bool,
}

/// A host that belongs to YouTube.
pub open spec fn is_youtube_host(host: Seq<char>) -> bool {
    ||| host == "youtube.com"@
    ||| ends_with(host, ".youtube.com"@)
    ||| host == "youtu.be"@
    ||| ends_with(host, ".youtu.be"@)
}

/// The text ends with `suffix`.
pub open spec fn ends_with(s: Seq<char>, suffix: Seq<char>) -> bool {
    suffix.len() <= s.len() && s.skip(s.len() - suffix.len()) == suffix
}

/// Position of the first query pair named `list`.
pub open spec fn is_first_list_pair(query: Seq<(Seq<char>, Seq<char>)>, i: int) -> bool {
    &&& 0 <= i < query.len()
    &&& query[i].0 == "list"@
    &&& forall|k: int| 0 <= k < i ==> #[trigger] query[k].0 != "list"@
}

/// The `list` parameter of a YouTube URL, if it has one.
pub open spec fn playlist_id_of(parts: (Option<Seq<char>>, Seq<(Seq<char>, Seq<char>)>)) -> Option<
    Seq<char>,
> {
    let host = ascii_lower(
        match parts.0 {
            Some(host) => host,
            None => seq![],
        },
    );
    if is_youtube_host(host) && exists|i: int| is_first_list_pair(parts.1, i) {
        Some(parts.1[choose|i: int| is_first_list_pair(parts.1, i)].1)
    } else {
        None
    }
}

/// The canonical URL of a playlist.
pub open spec fn playlist_url(playlist_id: Seq<char>) -> Seq<char> {
    "https://www.youtube.com/playlist?list="@ + playlist_id
}

/// The identity a request is given, once its URL has been parsed to `parsed`:
/// a YouTube URL with a `list` parameter is that playlist, any other URL is
/// itself.
pub open spec fn identity_outcome(
    request: Seq<char>,
    parsed: Result<(Option<Seq<char>>, Seq<(Seq<char>, Seq<char>)>), Seq<char>>,
    outcome: Result<PlaylistIdentity, YtError>,
) -> bool {
    match parsed {
        Err(text) => outcome matches Err(e) && is_invalid_data(e, "invalid YouTube URL: "@ + text),
        Ok(parts) => match playlist_id_of(parts) {
            Some(id) => if is_safe_id(id) {
                outcome matches Ok(identity) && identity.canonical_url@ == playlist_url(id)
                    && identity.fetch_url@ == playlist_url(id) && identity.is_playlist
            } else {
                outcome matches Err(e) && is_invalid_data(e, "unsafe playlist id: "@ + id)
            },
            None => outcome matches Ok(identity) && identity.canonical_url@ == request
                && identity.fetch_url@ == request && !identity.is_playlist,
        },
    }
}

fn has_suffix(chars: &[char], suffix: &[char]) -> (b: bool)
    ensures
        b == ends_with(chars@, suffix@),
{
    if suffix.len() > chars.len() {
        return false;
    }
    let offset = chars.len() - suffix.len();
    let mut k: usize = 0;
    while k < suffix.len()
        invariant
            offset + suffix@.len() == chars.len(),
            0 <= k <= suffix@.len(),
            forall|j: int| 0 <= j < k ==> chars@[offset + j] == #[trigger] suffix@[j],
        decreases suffix.len() - k,
    {
        if chars[offset + k] != suffix[k] {
            assert(chars@.skip(offset as int)[k as int] != suffix@[k as int]);
            return false;
        }
        k = k + 1;
    }
    assert(chars@.skip(offset as int) =~= suffix@);
    true
}

impl PlaylistIdentity {
    /// The identity of a request whose URL parsed to `parsed`.
    pub fn from_parts(request: &str, parsed: Result<UrlParts, String>) -> (outcome: Result<
        PlaylistIdentity,
        YtError,
    >)
        ensures
            identity_outcome(request@, url_outcome_view(parsed), outcome),
    {
        let ghost parsed_view = url_outcome_view(parsed);
        let parts = match parsed {
            Ok(parts) => parts,
            Err(text) => {
                let mut message = chars_of("invalid YouTube URL: ");
                let detail = chars_of(text.as_str());
                extend_chars(&mut message, detail.as_slice());
                return Err(invalid_data(message.as_slice()));
            },
        };
        let ghost view = url_parts_view(parts);
        let host_chars = match &parts.host {
            Some(host) => chars_of(host.as_str()),
            None => Vec::new(),
        };
        let host = to_ascii_lower(host_chars.as_slice());
        assert(host@ == ascii_lower(
            match view.0 {
                Some(h) => h,
                None => seq![],
            },
        ));
        let youtube_com = chars_of("youtube.com");
        let dot_youtube_com = chars_of(".youtube.com");
        let youtu_be = chars_of("youtu.be");
        let dot_youtu_be = chars_of(".youtu.be");
        let is_youtube = same_chars(host.as_slice(), youtube_com.as_slice()) || has_suffix(
            host.as_slice(),
            dot_youtube_com.as_slice(),
        ) || same_chars(host.as_slice(), youtu_be.as_slice()) || has_suffix(
            host.as_slice(),
            dot_youtu_be.as_slice(),
        );
        let mut found: Option<usize> = None;
        if is_youtube {
            let list = chars_of("list");
            let mut i: usize = 0;
            while i < parts.query.len()
                invariant_except_break
                    found is None,
                invariant
                    view == url_parts_view(parts),
                    list@ == "list"@,
                    0 <= i <= parts.query@.len(),
                    forall|k: int| 0 <= k < i ==> #[trigger] view.1[k].0 != "list"@,
                ensures
                    found is None ==> i == parts.query@.len(),
                    found is Some ==> is_first_list_pair(view.1, found->0 as int),
                decreases parts.query.len() - i,
            {
                let key = chars_of(parts.query[i].0.as_str());
                if same_chars(key.as_slice(), list.as_slice()) {
                    found = Some(i);
                    assert(is_first_list_pair(view.1, i as int));
                    break;
                }
                i = i + 1;
            }
            proof {
                if found is None {
                    assert forall|i: int| !is_first_list_pair(view.1, i) by {
                        if 0 <= i < view.1.len() {
                            assert(view.1[i].0 != "list"@);
                        }
                    }
                }
            }
        }
        match found {
            Some(index) => {
                proof {
                    let c = choose|i: int| is_first_list_pair(view.1, i);
                    if c < index as int {
                        assert(view.1[c].0 != "list"@);
                    }
                    if index < c {
                        assert(view.1[index as int].0 != "list"@);
                    }
                }
                let id = chars_of(parts.query[index].1.as_str());
                if !safe_id(id.as_slice()) {
                    let mut message = chars_of("unsafe playlist id: ");
                    extend_chars(&mut message, id.as_slice());
                    return Err(invalid_data(message.as_slice()));
                }
                let mut url = chars_of("https://www.youtube.com/playlist?list=");
                extend_chars(&mut url, id.as_slice());
                Ok(PlaylistIdentity {
                    canonical_url: string_from_chars(url.as_slice()),
                    fetch_url: string_from_chars(url.as_slice()),
                    is_playlist: true,
                })
            },
            None => {
                let text = chars_of(request);
                Ok(PlaylistIdentity {
                    canonical_url: string_from_chars(text.as_slice()),
                    fetch_url: string_from_chars(text.as_slice()),
                    is_playlist: false,
                })
            },
        }
    }

    /// The cache identity of a playlist request.
    pub fn from_request(request: &str) -> (outcome: Result<PlaylistIdentity, YtError>)
        ensures
            identity_outcome(request@, url_parse_parts(request@), outcome),
    {
        let parsed = parse_url_parts(request);
        PlaylistIdentity::from_parts(request, parsed)
    }
}

/// The canonical URL of a YouTube playlist request, given the parse of its
/// URL; a request naming no playlist is refused.
pub open spec fn canonical_playlist_outcome(
    request: Seq<char>,
    parsed: Result<(Option<Seq<char>>, Seq<(Seq<char>, Seq<char>)>), Seq<char>>,
    outcome: Result<String, YtError>,
) -> bool {
    match parsed {
        Err(text) => outcome matches Err(e) && is_invalid_data(e, "invalid YouTube URL: "@ + text),
        Ok(parts) => match playlist_id_of(parts) {
            Some(id) => if is_safe_id(id) {
                outcome matches Ok(url) && url@ == playlist_url(id)
            } else {
                outcome matches Err(e) && is_invalid_data(e, "unsafe playlist id: "@ + id)
            },
            None => outcome matches Err(e) && is_invalid_data(
                e,
                "enter a YouTube playlist URL containing a valid list parameter"@,
            ),
        },
    }
}

fn canonical_from_identity(identity: Result<PlaylistIdentity, YtError>) -> (outcome: Result<String, YtError>)
    ensures
        identity is Ok && identity->Ok_0.is_playlist ==> (outcome is Ok && outcome->Ok_0@
            == identity->Ok_0.canonical_url@),
        identity is Ok && !identity->Ok_0.is_playlist ==> (outcome is Err && is_invalid_data(
            outcome->Err_0,
            "enter a YouTube playlist URL containing a valid list parameter"@,
        )),
        identity is Err ==> (outcome is Err && outcome->Err_0 == identity->Err_0),
{
    match identity {
        Ok(identity) => if identity.is_playlist {
            Ok(identity.canonical_url)
        } else {
            let message = chars_of("enter a YouTube playlist URL containing a valid list parameter");
            Err(invalid_data(message.as_slice()))
        },
        Err(error) => Err(error),
    }
}

/// The canonical URL of a playlist request whose URL parsed to `parsed`.
pub fn canonical_playlist_url_from_parts(request: &str, parsed: Result<UrlParts, String>) -> (outcome:
    Result<String, YtError>)
    ensures
        canonical_playlist_outcome(request@, url_outcome_view(parsed), outcome),
{
    let identity = PlaylistIdentity::from_parts(request, parsed);
    canonical_from_identity(identity)
}

/// The canonical `https://www.youtube.com/playlist?list=<id>` URL of a
/// YouTube playlist request; watch URLs carrying a `list` parameter resolve
/// to the same playlist.
pub fn canonical_playlist_url(request: &str) -> (outcome: Result<String, YtError>)
    ensures
        canonical_playlist_outcome(request@, url_parse_parts(request@), outcome),
{
    let parsed = parse_url_parts(request);
    canonical_playlist_url_from_parts(request, parsed)
}

/// How one line of `yt-dlp` error output classifies the video: only an
/// `ERROR: [youtube] <id>:` line about this very video, with a message that
/// plainly says private, removed or unavailable, counts.
pub open spec fn classify_line(line: Seq<char>, video_id: Seq<char>) -> Option<UnavailabilityReason> {
    let lowered = ascii_lower(trim(line));
    let marker = "error: [youtube] "@ + ascii_lower(video_id) + ":"@;
    if !starts_with(lowered, marker) {
        None
    } else {
        let message = trim(lowered.skip(marker.len() as int));
        if contains_text(message, "private video"@) || contains_text(message, "video is private"@) {
            Some(UnavailabilityReason::Private)
        } else if contains_text(message, "video"@) && contains_text(message, "removed"@) {
            Some(UnavailabilityReason::Removed)
        } else if message == "video unavailable"@ || starts_with(
            message,
            "this video is unavailable"@,
        ) || starts_with(message, "this video is not available"@) || (starts_with(
            message,
            "video unavailable"@,
        ) && (contains_text(message, "this video is unavailable"@) || contains_text(
            message,
            "this video is not available"@,
        ))) {
            Some(UnavailabilityReason::Unavailable)
        } else {
            None
        }
    }
}

fn classify_one_line(line: &[char], marker: &[char]) -> (reason: Option<UnavailabilityReason>)
    ensures
        forall|video_id: Seq<char>|
            marker@ == "error: [youtube] "@ + ascii_lower(video_id) + ":"@ ==> reason
                == #[trigger] classify_line(line@, video_id),
{
    let trimmed = trim_chars(line);
    let lowered = to_ascii_lower(trimmed.as_slice());
    if !has_prefix(lowered.as_slice(), marker) {
        return None;
    }
    let mut rest: Vec<char> = Vec::new();
    let mut i: usize = marker.len();
    while i < lowered.len()
        invariant
            marker@.len() <= i <= lowered@.len(),
            rest@ == lowered@.subrange(marker@.len() as int, i as int),
        decreases lowered.len() - i,
    {
        assert(lowered@.subrange(marker@.len() as int, i + 1) =~= rest@.push(lowered@[i as int]));
        rest.push(lowered[i]);
        i = i + 1;
    }
    assert(rest@ =~= lowered@.skip(marker@.len() as int));
    let message = trim_chars(rest.as_slice());
    let m = message.as_slice();
    if has_substring(m, chars_of("private video").as_slice()) || has_substring(
        m,
        chars_of("video is private").as_slice(),
    ) {
        Some(UnavailabilityReason::Private)
    } else if has_substring(m, chars_of("video").as_slice()) && has_substring(
        m,
        chars_of("removed").as_slice(),
    ) {
        Some(UnavailabilityReason::Removed)
    } else if same_chars(m, chars_of("video unavailable").as_slice()) || has_prefix(
        m,
        chars_of("this video is unavailable").as_slice(),
    ) || has_prefix(m, chars_of("this video is not available").as_slice()) || (has_prefix(
        m,
        chars_of("video unavailable").as_slice(),
    ) && (has_substring(m, chars_of("this video is unavailable").as_slice()) || has_substring(
        m,
        chars_of("this video is not available").as_slice(),
    ))) {
        Some(UnavailabilityReason::Unavailable)
    } else {
        None
    }
}

/// Reads `yt-dlp`'s error output for a confirmed, per-video unavailability:
/// the classification of the first line that classifies at all.  Systemic
/// failures (network, sign-in, age checks) and lines about other videos
/// classify as nothing.
pub fn classify_video_unavailability(stderr: &str, video_id: &str) -> (reason: Option<
    UnavailabilityReason,
>)
    ensures
        reason is None ==> forall|i: int|
            0 <= i < lines(stderr@).len() ==> #[trigger] classify_line(lines(stderr@)[i], video_id@)
                is None,
        reason is Some ==> exists|i: int|
            0 <= i < lines(stderr@).len() && #[trigger] classify_line(lines(stderr@)[i], video_id@)
                == reason && forall|k: int|
                0 <= k < i ==> #[trigger] classify_line(lines(stderr@)[k], video_id@) is None,
{
    let mut marker = chars_of("error: [youtube] ");
    let id = chars_of(video_id);
    let lowered_id = to_ascii_lower(id.as_slice());
    extend_chars(&mut marker, lowered_id.as_slice());
    extend_chars(&mut marker, chars_of(":").as_slice());
    let text = chars_of(stderr);
    let all_lines = split_into_lines(text.as_slice());
    let ghost ls = lines(stderr@);
    let mut i: usize = 0;
    while i < all_lines.len()
        invariant
            char_lines_view(all_lines@) == ls,
            ls == lines(stderr@),
            marker@ == "error: [youtube] "@ + ascii_lower(video_id@) + ":"@,
            0 <= i <= all_lines@.len(),
            forall|k: int| 0 <= k < i ==> #[trigger] classify_line(ls[k], video_id@) is None,
        decreases all_lines.len() - i,
    {
        let found = classify_one_line(all_lines[i].as_slice(), marker.as_slice());
        assert(all_lines@[i as int]@ == ls[i as int]);
        assert(found == classify_line(ls[i as int], video_id@));
        if found.is_some() {
            return found;
        }
        i = i + 1;
    }
    None
}

/// `yt-dlp` reported that its download archive already records the video.
pub open spec fn reports_archive_skip(stdout: Seq<char>) -> bool {
    let lowered = ascii_lower(stdout);
    contains_text(lowered, "archive"@) && (contains_text(lowered, "already"@) || contains_text(
        lowered,
        "recorded"@,
    ))
}

/// Whether a successful `yt-dlp` run that produced no audio was skipped by
/// the download archive that it was given.
pub fn archive_skipped(stdout: &str, used_archive: bool) -> (skipped: bool)
    ensures
        skipped == (used_archive && reports_archive_skip(stdout@)),
{
    if !used_archive {
        return false;
    }
    let lowered = to_ascii_lower(chars_of(stdout).as_slice());
    has_substring(lowered.as_slice(), chars_of("archive").as_slice()) && (has_substring(
        lowered.as_slice(),
        chars_of("already").as_slice(),
    ) || has_substring(lowered.as_slice(), chars_of("recorded").as_slice()))
}

/// The sentence a failed YouTube preparation shows the user, when it does
/// not depend on the operating system (an I/O failure's text does).
pub open spec fn youtube_error_message(error: YtError) -> Option<Seq<char>> {
    match error {
        YtError::YtDlpNotFound => Some("yt-dlp is not installed or is unavailable on the application path."@),
        YtError::InvalidData(message) => Some("Invalid playlist URL or data: "@ + message@),
        YtError::YtDlpFailed(message) => Some(
            "YouTube could not provide this playlist: "@ + if lines(message@).len() > 0 {
                lines(message@)[0]
            } else {
                "unknown YouTube error"@
            },
        ),
        YtError::ArchiveSkippedMissing(video_id) => Some(
            "Cached download state for track "@ + video_id@ + " could not be recovered."@,
        ),
        YtError::VideoUnavailable { .. } => Some("A playlist track is unavailable and could not be prepared."@),
        YtError::OfflineMiss(_) => Some("Required playlist audio is not available in the cache."@),
        YtError::Io(_) => None,
        YtError::Json(_) => Some("YouTube returned playlist data the app could not read."@),
    }
}

/// The `Display` text of an I/O error.  It comes from the operating system's
/// messages, so nothing is claimed of it.
#[verifier::external_body]
fn io_error_text(error: &std::io::Error) -> (text: String) {
    error.to_string()
}

/// The message shown to the user for a failed YouTube preparation; an I/O
/// failure is shown as `Could not store playlist audio locally: ` followed by
/// the error's own text.
pub fn user_youtube_error(error: YtError) -> (message: String)
    ensures
        youtube_error_message(error) matches Some(text) ==> message@ == text,
        error is Io ==> message@.len() >= "Could not store playlist audio locally: "@.len()
            && message@.take("Could not store playlist audio locally: "@.len() as int)
            == "Could not store playlist audio locally: "@,
{
    let mut chars: Vec<char>;
    match error {
        YtError::YtDlpNotFound => {
            chars = chars_of("yt-dlp is not installed or is unavailable on the application path.");
        },
        YtError::InvalidData(message) => {
            chars = chars_of("Invalid playlist URL or data: ");
            extend_chars(&mut chars, chars_of(message.as_str()).as_slice());
        },
        YtError::YtDlpFailed(message) => {
            chars = chars_of("YouTube could not provide this playlist: ");
            let all = split_into_lines(chars_of(message.as_str()).as_slice());
            if all.len() > 0 {
                assert(all@[0]@ == lines(message@)[0]);
                extend_chars(&mut chars, all[0].as_slice());
            } else {
                extend_chars(&mut chars, chars_of("unknown YouTube error").as_slice());
            }
        },
        YtError::ArchiveSkippedMissing(video_id) => {
            chars = chars_of("Cached download state for track ");
            extend_chars(&mut chars, chars_of(video_id.as_str()).as_slice());
            extend_chars(&mut chars, chars_of(" could not be recovered.").as_slice());
        },
        YtError::VideoUnavailable { .. } => {
            chars = chars_of("A playlist track is unavailable and could not be prepared.");
        },
        YtError::OfflineMiss(_) => {
            chars = chars_of("Required playlist audio is not available in the cache.");
        },
        YtError::Io(io) => {
            chars = chars_of("Could not store playlist audio locally: ");
            let ghost prefix = chars@;
            extend_chars(&mut chars, chars_of(io_error_text(&io).as_str()).as_slice());
            assert(chars@.take(prefix.len() as int) =~= prefix);
        },
        YtError::Json(_) => {
            chars = chars_of("YouTube returned playlist data the app could not read.");
        },
    }
    string_from_chars(chars.as_slice())
}

/// The backend that runs the `yt-dlp` program.
#[derive(Debug, Clone, Copy, Default)]
pub struct RealYtDlp;

/// The error of a `yt-dlp` run that exited with failure: a confirmed
/// unavailability of this very video, else the failure with its (trimmed)
/// error output.
pub fn failed_run_error(stderr: &str, video_id: &str) -> (error: YtError)
    ensures
        (forall|i: int|
            0 <= i < lines(stderr@).len() ==> #[trigger] classify_line(lines(stderr@)[i], video_id@) is None)
            ==> (error matches YtError::YtDlpFailed(text) && text@ == stderr@),
        !(forall|i: int|
            0 <= i < lines(stderr@).len() ==> #[trigger] classify_line(lines(stderr@)[i], video_id@) is None)
            ==> (error matches YtError::VideoUnavailable { video_id: v, reason, was_cached } && v@ == video_id@
            && !was_cached && exists|i: int|
            0 <= i < lines(stderr@).len() && #[trigger] classify_line(lines(stderr@)[i], video_id@) == Some(
                reason,
            ) && forall|k: int| 0 <= k < i ==> #[trigger] classify_line(lines(stderr@)[k], video_id@) is None),
{
    match classify_video_unavailability(stderr, video_id) {
        Some(reason) => YtError::VideoUnavailable {
            video_id: String::from_str(video_id),
            reason,
            was_cached: false,
        },
        None => YtError::YtDlpFailed(String::from_str(stderr)),
    }
}

/// The error of a `yt-dlp` run that succeeded without leaving the expected
/// audio file: a skip by the download archive, or a failure that quotes the
/// (trimmed) standard output.
pub fn missing_output_error(stdout: &str, video_id: &str, used_archive: bool) -> (error: YtError)
    ensures
        used_archive && reports_archive_skip(stdout@) ==> (error matches YtError::ArchiveSkippedMissing(id)
            && id@ == video_id@),
        !(used_archive && reports_archive_skip(stdout@)) ==> (error matches YtError::YtDlpFailed(text)
            && text@ == "yt-dlp exited successfully but produced no WAV for "@ + video_id@ + ": "@ + trim(
            stdout@,
        )),
{
    if archive_skipped(stdout, used_archive) {
        YtError::ArchiveSkippedMissing(String::from_str(video_id))
    } else {
        let mut text = chars_of("yt-dlp exited successfully but produced no WAV for ");
        extend_chars(&mut text, chars_of(video_id).as_slice());
        extend_chars(&mut text, chars_of(": ").as_slice());
        extend_chars(&mut text, trim_chars(chars_of(stdout).as_slice()).as_slice());
        YtError::YtDlpFailed(string_from_chars(text.as_slice()))
    }
}

/// The audio downloader that writes `<video id>.wav` files into one
/// directory.
#[derive(Debug)]
pub struct Downloader {
    output_dir: PathBuf,
}

impl Downloader {
    /// The directory the downloader writes into.
    pub closed spec fn dir(&self) -> PathBuf {
        self.output_dir
    }

    /// A downloader writing into `output_dir`.
    pub fn new(output_dir: PathBuf) -> (downloader: Downloader)
        ensures
            downloader.dir() == output_dir,
    {
        Downloader { output_dir }
    }

    /// The directory the downloader writes into.
    pub fn output_dir(&self) -> (dir: &PathBuf)
        ensures
            *dir == self.dir(),
    {
        &self.output_dir
    }
}

/// Watch and playlist URLs that carry the same valid `list` identifier share
/// one identity, however else they differ.
pub proof fn lemma_playlist_variants_share_identity(
    first: Seq<char>,
    second: Seq<char>,
    first_parts: (Option<Seq<char>>, Seq<(Seq<char>, Seq<char>)>),
    second_parts: (Option<Seq<char>>, Seq<(Seq<char>, Seq<char>)>),
    first_identity: Result<PlaylistIdentity, YtError>,
    second_identity: Result<PlaylistIdentity, YtError>,
)
    requires
        identity_outcome(first, Ok(first_parts), first_identity),
        identity_outcome(second, Ok(second_parts), second_identity),
        playlist_id_of(first_parts) is Some,
        playlist_id_of(first_parts) == playlist_id_of(second_parts),
        is_safe_id(playlist_id_of(first_parts)->0),
    ensures
        first_identity is Ok && second_identity is Ok,
        first_identity->Ok_0.canonical_url@ == second_identity->Ok_0.canonical_url@,
        first_identity->Ok_0.is_playlist,
{
}

/// Requests that name no playlist keep their own text as identity, so
/// different single-video URLs never share a cache entry.
pub proof fn lemma_single_requests_stay_distinct(
    first: Seq<char>,
    second: Seq<char>,
    first_parts: (Option<Seq<char>>, Seq<(Seq<char>, Seq<char>)>),
    second_parts: (Option<Seq<char>>, Seq<(Seq<char>, Seq<char>)>),
    first_identity: Result<PlaylistIdentity, YtError>,
    second_identity: Result<PlaylistIdentity, YtError>,
)
    requires
        identity_outcome(first, Ok(first_parts), first_identity),
        identity_outcome(second, Ok(second_parts), second_identity),
        playlist_id_of(first_parts) is None,
        playlist_id_of(second_parts) is None,
        first != second,
    ensures
        first_identity is Ok && second_identity is Ok,
        first_identity->Ok_0.canonical_url@ != second_identity->Ok_0.canonical_url@,
{
}


/// A line of `yt-dlp` output that reports the requested video as plainly
/// unavailable, `ERROR: [youtube] <id>: Video unavailable`, is one line on
/// its own and classifies as unavailable: the track is skipped, not treated
/// as a failure of the whole run.
pub proof fn lemma_plain_unavailable_report(video_id: Seq<char>)
    requires
        is_safe_id(video_id),
    ensures
        ({
            let line = "ERROR: [youtube] "@ + video_id + ": Video unavailable"@;
            &&& lines(line) == seq![line]
            &&& classify_line(line, video_id) == Some(UnavailabilityReason::Unavailable)
        }),
{
    reveal_strlit("ERROR: [youtube] ");
    reveal_strlit(": Video unavailable");
    reveal_strlit("error: [youtube] ");
    reveal_strlit(":");
    reveal_strlit("video unavailable");
    reveal_strlit("private video");
    reveal_strlit("video is private");
    reveal_strlit("removed");
    let p = "ERROR: [youtube] "@;
    let s = ": Video unavailable"@;
    let line = p + video_id + s;
    let n = line.len();
    let k = video_id.len();
    assert forall|i: int| 0 <= i < n implies #[trigger] line[i] != '\n' by {
        if 17 <= i < 17 + k {
            assert(line[i] == video_id[i - 17]);
            assert(is_id_char(video_id[i - 17]));
        } else if i >= 17 + k {
            assert(line[i] == s[i - 17 - k]);
        }
    }
    crate::text::lemma_lines_of_one_line(line, seq![]);
    assert(seq![] + line =~= line);
    assert(line[0] == 'E');
    assert(line[n - 1] == s[18]);
    crate::text::lemma_trim_bounds(line, 0, n as int);
    assert(line.subrange(0, n as int) =~= line);
    let lowered = ascii_lower(line);
    assert(ascii_lower(p) =~= "error: [youtube] "@);
    let lower_tail = ascii_lower(s);
    assert(lowered =~= ascii_lower(p) + ascii_lower(video_id) + lower_tail);
    let marker = "error: [youtube] "@ + ascii_lower(video_id) + ":"@;
    assert(lower_tail[0] == ':');
    assert(lowered.take(marker.len() as int) =~= marker);
    let rest = lowered.skip(marker.len() as int);
    assert(rest =~= lower_tail.skip(1));
    let message = "video unavailable"@;
    assert(rest.skip(1) =~= message);
    assert(rest[0] == ' ');
    crate::text::lemma_trim_bounds(rest, 1, rest.len() as int);
    assert(trim(rest) =~= message);
    assert forall|i: int| 0 <= i < message.len() implies #[trigger] message[i] != 'p' && message[i] != 'r' by {}
    assert(!contains_text(message, "private video"@)) by {
        if contains_text(message, "private video"@) {
            let i = choose|i: int| occurs_at(message, "private video"@, i);
            assert(message.subrange(i, i + 13)[0] == message[i]);
        }
    }
    assert(!contains_text(message, "removed"@)) by {
        if contains_text(message, "removed"@) {
            let i = choose|i: int| occurs_at(message, "removed"@, i);
            assert(message.subrange(i, i + 7)[0] == message[i]);
        }
    }
    assert(!contains_text(message, "video is private"@)) by {
        if contains_text(message, "video is private"@) {
            let i = choose|i: int| occurs_at(message, "video is private"@, i);
            assert(i <= 1);
            assert(message.subrange(i, i + 16)[0] == message[i]);
            assert(message.subrange(i, i + 16)[6] == message[i + 6]);
        }
    }
}

} // verus!
