//! The feature cache's keys and checks, the analysis pipeline's inputs and
//! errors, and the assembly of per-track results in selection order.
use std::path::PathBuf;
use vstd::prelude::*;

use crate::analysis::ANALYSIS_PIPELINE_VERSION;
use crate::optim::OptimError;
use crate::paths::{file_stem, path_stem};
use crate::text::{chars_of, extend_chars, same_chars, string_from_chars};
use crate::youtube::is_lower_sha256;

verus! {

broadcast use vstd::string::group_string_axioms;

/// Whether an analysis came from the feature cache.
#[derive(Debug, Clone, Copy, PartialEq, Eq)]
pub enum CacheStatus {
    Hit,
    Miss,
}

/// The content-addressed cache of derived audio features under a root
/// directory.
#[derive(Debug, Clone)]
pub struct FeatureCache {
    root: PathBuf,
}

impl FeatureCache {
    /// The cache's root directory.
    pub closed spec fn root_dir(&self) -> PathBuf {
        self.root
    }

    /// A feature cache under `root`.
    pub fn new(root: PathBuf) -> (cache: FeatureCache)
        ensures
            cache.root_dir() == root,
    {
        FeatureCache { root }
    }

    /// The cache's root directory.
    pub fn root(&self) -> (root: &PathBuf)
        ensures
            *root == self.root_dir(),
    {
        &self.root
    }
}

/// Failures of the analysis pipeline.
#[derive(Debug)]
pub enum LoobError {
    EmptySelection,
    InvalidConfig(String),
    Analysis { path: String, message: String },
    Cache(String),
    Metric(String),
    Optim(OptimError),
}

/// One track to analyse.
#[derive(Debug, Clone)]
pub struct AudioInput {
    pub task_id: String,
    pub title: String,
    pub path: PathBuf,
    /// Trusted digest supplied by a validated content-addressed source cache;
    /// arbitrary local files leave it empty and are hashed normally.
    pub content_sha256: Option<String>,
}

/// An embedding provider that draws random vectors of `dims` dimensions.
#[derive(Debug)]
pub struct RandomEmbeddingProvider {
    pub dims: usize,
}

impl Default for RandomEmbeddingProvider {
    fn default() -> (provider: RandomEmbeddingProvider)
        ensures
            provider.dims == 768,
    {
        RandomEmbeddingProvider { dims: 768 }
    }
}

/// An ASCII letter or digit.
pub open spec fn is_ascii_alphanumeric(c: char) -> bool {
    ||| 'a' <= c <= 'z'
    ||| 'A' <= c <= 'Z'
    ||| '0' <= c <= '9'
}

/// The fingerprint as it appears in file names: every character that is not
/// an ASCII letter or digit becomes `-`.
pub open spec fn fingerprint_slug_text(fingerprint: Seq<char>) -> Seq<char> {
    Seq::new(
        fingerprint.len(),
        |i: int|
            if is_ascii_alphanumeric(fingerprint[i]) {
                fingerprint[i]
            } else {
                '-'
            },
    )
}

/// The analysis fingerprint made safe for file names.
pub fn fingerprint_slug(fingerprint: &str) -> (slug: String)
    ensures
        slug@ == fingerprint_slug_text(fingerprint@),
{
    let chars = chars_of(fingerprint);
    let mut out: Vec<char> = Vec::new();
    let mut i: usize = 0;
    while i < chars.len()
        invariant
            0 <= i <= chars@.len(),
            out@ == fingerprint_slug_text(chars@).take(i as int),
        decreases chars.len() - i,
    {
        let c = chars[i];
        let kept = if ('a' <= c && c <= 'z') || ('A' <= c && c <= 'Z') || ('0' <= c && c <= '9') {
            c
        } else {
            '-'
        };
        out.push(kept);
        assert(out@ =~= fingerprint_slug_text(chars@).take(i + 1));
        i = i + 1;
    }
    assert(out@ =~= fingerprint_slug_text(chars@));
    string_from_chars(out.as_slice())
}

/// `<digest>-<slug>.json`: the file holding a cached analysis.
pub open spec fn feature_file_text(content_hash: Seq<char>, fingerprint: Seq<char>) -> Seq<char> {
    content_hash + "-"@ + fingerprint_slug_text(fingerprint) + ".json"@
}

/// `feature-<digest>-<slug>.lock`: the lock that serialises one analysis.
pub open spec fn feature_lock_text(content_hash: Seq<char>, fingerprint: Seq<char>) -> Seq<char> {
    "feature-"@ + content_hash + "-"@ + fingerprint_slug_text(fingerprint) + ".lock"@
}

/// The name of the file that caches the analysis of this content under this
/// fingerprint.
pub fn feature_file_name(content_hash: &str, fingerprint: &str) -> (name: String)
    ensures
        name@ == feature_file_text(content_hash@, fingerprint@),
{
    let mut chars = chars_of(content_hash);
    extend_chars(&mut chars, chars_of("-").as_slice());
    let slug = fingerprint_slug(fingerprint);
    extend_chars(&mut chars, chars_of(slug.as_str()).as_slice());
    extend_chars(&mut chars, chars_of(".json").as_slice());
    string_from_chars(chars.as_slice())
}

/// The name of the lock file of that analysis.
pub fn feature_lock_name(content_hash: &str, fingerprint: &str) -> (name: String)
    ensures
        name@ == feature_lock_text(content_hash@, fingerprint@),
{
    let mut chars = chars_of("feature-");
    extend_chars(&mut chars, chars_of(content_hash).as_slice());
    extend_chars(&mut chars, chars_of("-").as_slice());
    let slug = fingerprint_slug(fingerprint);
    extend_chars(&mut chars, chars_of(slug.as_str()).as_slice());
    extend_chars(&mut chars, chars_of(".lock").as_slice());
    string_from_chars(chars.as_slice())
}

/// The message for a trusted digest that is not a SHA-256 digest.
pub open spec fn untrusted_hash_message() -> Seq<char> {
    "trusted content hash is not a lowercase SHA-256 value"@
}

/// A digest handed in as trusted must be a lowercase SHA-256 digest.
pub fn check_trusted_hash(content_hash: &str) -> (result: Result<(), String>)
    ensures
        result is Ok <==> is_lower_sha256(content_hash@),
        result matches Err(message) ==> message@ == untrusted_hash_message(),
{
    if crate::youtube::valid_sha256(content_hash) {
        Ok(())
    } else {
        Err(String::from_str("trusted content hash is not a lowercase SHA-256 value"))
    }
}

/// An analysis belongs under a cache key: same content digest, current
/// pipeline, same fingerprint and a valid chunk timeline.
pub open spec fn matches_cache_key(
    content_sha256: Seq<char>,
    pipeline_version: Seq<char>,
    analysis_fingerprint: Seq<char>,
    valid_timeline: bool,
    expected_hash: Seq<char>,
    expected_fingerprint: Seq<char>,
) -> bool {
    &&& content_sha256 == expected_hash
    &&& pipeline_version == ANALYSIS_PIPELINE_VERSION@
    &&& analysis_fingerprint == expected_fingerprint
    &&& valid_timeline
}

fn same_text(a: &str, b: &str) -> (eq: bool)
    ensures
        eq == (a@ == b@),
{
    same_chars(chars_of(a).as_slice(), chars_of(b).as_slice())
}

/// Whether a stored or computed analysis belongs under the cache key.
pub fn analysis_matches_key(
    content_sha256: &str,
    pipeline_version: &str,
    analysis_fingerprint: &str,
    valid_timeline: bool,
    expected_hash: &str,
    expected_fingerprint: &str,
) -> (matches: bool)
    ensures
        matches == matches_cache_key(
            content_sha256@,
            pipeline_version@,
            analysis_fingerprint@,
            valid_timeline,
            expected_hash@,
            expected_fingerprint@,
        ),
{
    same_text(content_sha256, expected_hash) && same_text(pipeline_version, ANALYSIS_PIPELINE_VERSION)
        && same_text(analysis_fingerprint, expected_fingerprint) && valid_timeline
}

/// The message for a computed analysis that does not belong under its key.
pub open spec fn mismatched_analysis_message() -> Seq<char> {
    "analysis result does not match the cache key, pipeline version, or chunk timeline"@
}

/// A freshly computed analysis is only cached when it belongs under its key.
pub fn check_computed_analysis(
    content_sha256: &str,
    pipeline_version: &str,
    analysis_fingerprint: &str,
    valid_timeline: bool,
    expected_hash: &str,
    expected_fingerprint: &str,
) -> (result: Result<(), String>)
    ensures
        result is Ok <==> matches_cache_key(
            content_sha256@,
            pipeline_version@,
            analysis_fingerprint@,
            valid_timeline,
            expected_hash@,
            expected_fingerprint@,
        ),
        result matches Err(message) ==> message@ == mismatched_analysis_message(),
{
    if analysis_matches_key(
        content_sha256,
        pipeline_version,
        analysis_fingerprint,
        valid_timeline,
        expected_hash,
        expected_fingerprint,
    ) {
        Ok(())
    } else {
        Err(
            String::from_str(
                "analysis result does not match the cache key, pipeline version, or chunk timeline",
            ),
        )
    }
}

/// The message for trusted audio whose bytes changed.
pub open spec fn changed_audio_message() -> Seq<char> {
    "trusted audio object changed and failed integrity validation"@
}

/// When audio with a trusted digest fails to decode, it is hashed: a changed
/// file is reported as such, an intact one with the decoder's error.
pub fn decode_failure(actual_hash: &str, trusted_hash: &str, decode_error: String) -> (message: String)
    ensures
        actual_hash@ != trusted_hash@ ==> message@ == changed_audio_message(),
        actual_hash@ == trusted_hash@ ==> message == decode_error,
{
    if same_text(actual_hash, trusted_hash) {
        decode_error
    } else {
        String::from_str("trusted audio object changed and failed integrity validation")
    }
}

/// The text that bytes encode, if they are valid UTF-8.
pub open spec fn utf8_text(bytes: Seq<u8>) -> Option<Seq<char>> {
    if vstd::utf8::valid_utf8(bytes) {
        Some(vstd::utf8::decode_utf8(bytes))
    } else {
        None
    }
}

/// `std::str::from_utf8`: the bytes as text when they are valid UTF-8, as
/// std documents it.
#[verifier::external_body]
fn text_from_utf8(bytes: &[u8]) -> (text: Option<String>)
    ensures
        text is Some <==> vstd::utf8::valid_utf8(bytes@),
        text matches Some(t) ==> t@ == vstd::utf8::decode_utf8(bytes@),
{
    std::str::from_utf8(bytes).ok().map(|text| text.to_string())
}

/// The title shown for a file: its stem when that is valid UTF-8, else
/// `Untitled track`.
pub open spec fn title_for(path: Seq<u8>) -> Seq<char> {
    match path_stem(path) {
        Some(stem) => match utf8_text(stem) {
            Some(text) => text,
            None => "Untitled track"@,
        },
        None => "Untitled track"@,
    }
}

/// The display title of an audio file given by its path's bytes.
pub fn display_title(path: &[u8]) -> (title: String)
    ensures
        title@ == title_for(path@),
{
    match file_stem(path) {
        Some(stem) => match text_from_utf8(stem.as_slice()) {
            Some(text) => text,
            None => String::from_str("Untitled track"),
        },
        None => String::from_str("Untitled track"),
    }
}

/// The entry holds an error.
pub open spec fn is_error_entry<T>(r: Option<Result<T, LoobError>>) -> bool {
    r matches Some(Err(_))
}

/// The values of the entries that succeeded, in order.
pub open spec fn successful_values<T>(results: Seq<Option<Result<T, LoobError>>>, n: int) -> Seq<T>
    decreases n,
{
    if n <= 0 {
        seq![]
    } else {
        match results[n - 1] {
            Some(Ok(value)) => successful_values(results, n - 1).push(value),
            _ => successful_values(results, n - 1),
        }
    }
}

/// `i` holds the first error.
pub open spec fn is_first_error<T>(results: Seq<Option<Result<T, LoobError>>>, i: int) -> bool {
    &&& 0 <= i < results.len()
    &&& is_error_entry(results[i])
    &&& forall|k: int| 0 <= k < i ==> !is_error_entry(#[trigger] results[k])
}

/// Collects per-track results in selection order: the first error wins,
/// entries that never ran are left out, otherwise every value is kept.
pub fn collect_in_order<T>(results: Vec<Option<Result<T, LoobError>>>) -> (collected: Result<Vec<T>, LoobError>)
    ensures
        (exists|i: int| is_first_error(results@, i)) ==> collected is Err && Some(
            Err::<T, LoobError>(collected->Err_0),
        ) == results@[choose|i: int| is_first_error(results@, i)],
        !(exists|i: int| is_first_error(results@, i)) ==> collected is Ok && collected->Ok_0@
            == successful_values(results@, results@.len() as int),
{
    let ghost given = results@;
    let mut slots = results;
    let mut values: Vec<T> = Vec::new();
    let mut i: usize = 0;
    while i < slots.len()
        invariant
            given == results@,
            slots@.len() == given.len(),
            0 <= i <= slots@.len(),
            forall|k: int| i <= k < given.len() ==> #[trigger] slots@[k] == given[k],
            forall|k: int| 0 <= k < i ==> !is_error_entry(#[trigger] given[k]),
            values@ == successful_values(given, i as int),
        decreases slots.len() - i,
    {
        let mut slot: Option<Result<T, LoobError>> = None;
        slots.set_and_swap(i, &mut slot);
        assert(slot == given[i as int]);
        match slot {
            None => {},
            Some(Ok(value)) => {
                values.push(value);
            },
            Some(Err(error)) => {
                proof {
                    assert(is_first_error(given, i as int));
                    let c = choose|c: int| is_first_error(given, c);
                    if c < i {
                        assert(!is_error_entry(given[c]));
                    } else if c > i {
                        assert(!is_error_entry(given[i as int]));
                    }
                }
                return Err(error);
            },
        }
        i = i + 1;
    }
    assert(!(exists|c: int| is_first_error(given, c)));
    Ok(values)
}


/// The fields of an analysis that decide whether it belongs under a cache
/// key.
#[derive(Debug, Clone)]
pub struct AnalysisKey {
    pub content_sha256: String,
    pub pipeline_version: String,
    pub analysis_fingerprint: String,
    pub valid_timeline: bool,
}

/// The analysis's key fields belong under the cache key.
pub open spec fn key_matches(key: AnalysisKey, expected_hash: Seq<char>, expected_fingerprint: Seq<char>) -> bool {
    matches_cache_key(
        key.content_sha256@,
        key.pipeline_version@,
        key.analysis_fingerprint@,
        key.valid_timeline,
        expected_hash,
        expected_fingerprint,
    )
}

/// What a feature-cache request found.
#[derive(Debug)]
pub enum FeatureEvent {
    /// The request starts (its directories exist and its lock is held).
    Started,
    /// The cached file was read: the key fields of the analysis it holds,
    /// or `None` when there is none or it does not parse.
    Read(Option<AnalysisKey>),
    /// The analysis was computed, with these key fields, or failed.
    Computed(Result<AnalysisKey, String>),
}

/// What a feature-cache request does next.
#[derive(Debug, PartialEq, Eq)]
pub enum FeatureAction {
    /// Read the cached analysis.
    ReadCached,
    /// Answer with the cached analysis, a hit.
    ServeHit,
    /// Compute the analysis.
    Compute,
    /// Store the computed analysis, then answer with it, a miss.
    StoreMiss,
    /// Answer with this error.
    Fail(String),
}

/// The next step of a feature-cache request for an analysis under
/// `expected_hash` and `expected_fingerprint`: a cached analysis that
/// belongs under the key is served without computing; otherwise the
/// analysis is computed once, and stored only when it belongs under the
/// key.
pub fn feature_step(expected_hash: &str, expected_fingerprint: &str, event: FeatureEvent) -> (action: FeatureAction)
    ensures
        match event {
            FeatureEvent::Started => action is ReadCached,
            FeatureEvent::Read(cached) => if cached matches Some(k) && key_matches(
                k,
                expected_hash@,
                expected_fingerprint@,
            ) {
                action is ServeHit
            } else {
                action is Compute
            },
            FeatureEvent::Computed(computed) => match computed {
                Err(message) => action == FeatureAction::Fail(message),
                Ok(k) => if key_matches(k, expected_hash@, expected_fingerprint@) {
                    action is StoreMiss
                } else {
                    action matches FeatureAction::Fail(message) && message@ == mismatched_analysis_message()
                },
            },
        },
{
    match event {
        FeatureEvent::Started => FeatureAction::ReadCached,
        FeatureEvent::Read(cached) => match cached {
            Some(k) => {
                if analysis_matches_key(
                    k.content_sha256.as_str(),
                    k.pipeline_version.as_str(),
                    k.analysis_fingerprint.as_str(),
                    k.valid_timeline,
                    expected_hash,
                    expected_fingerprint,
                ) {
                    FeatureAction::ServeHit
                } else {
                    FeatureAction::Compute
                }
            },
            None => FeatureAction::Compute,
        },
        FeatureEvent::Computed(computed) => match computed {
            Err(message) => FeatureAction::Fail(message),
            Ok(k) => match check_computed_analysis(
                k.content_sha256.as_str(),
                k.pipeline_version.as_str(),
                k.analysis_fingerprint.as_str(),
                k.valid_timeline,
                expected_hash,
                expected_fingerprint,
            ) {
                Ok(()) => FeatureAction::StoreMiss,
                Err(message) => FeatureAction::Fail(message),
            },
        },
    }
}

/// How a selection of tracks is ordered.
#[derive(Debug, PartialEq, Eq)]
pub enum OrderingPlan {
    /// One track is its own order; annealing is skipped for `reason`.
    Single { reason: String },
    /// Two or more tracks: the path is searched.
    Search,
}

/// The reason annealing is skipped for a single track.
pub open spec fn single_track_reason() -> Seq<char> {
    "one usable track requires no path search"@
}

/// How `track_count` selected tracks are ordered: an empty selection is an
/// error, one track needs no search, more are searched.
pub fn ordering_plan(track_count: usize) -> (plan: Result<OrderingPlan, LoobError>)
    ensures
        track_count == 0 <==> plan matches Err(LoobError::EmptySelection),
        track_count == 0 <==> plan is Err,
        track_count == 1 <==> plan matches Ok(OrderingPlan::Single { .. }),
        plan matches Ok(OrderingPlan::Single { reason }) ==> reason@ == single_track_reason(),
        track_count >= 2 <==> plan == Ok::<OrderingPlan, LoobError>(OrderingPlan::Search),
{
    if track_count == 0 {
        Err(LoobError::EmptySelection)
    } else if track_count == 1 {
        Ok(OrderingPlan::Single { reason: String::from_str("one usable track requires no path search") })
    } else {
        Ok(OrderingPlan::Search)
    }
}


/// Features cached under the identity of the earlier ten-second/nine-second
/// coarse cadence never match the current analysis fingerprint: they are
/// misses.
pub proof fn lemma_earlier_cadence_features_miss(
    content_sha256: Seq<char>,
    pipeline_version: Seq<char>,
    valid_timeline: bool,
    expected_hash: Seq<char>,
)
    ensures
        !matches_cache_key(
            content_sha256,
            pipeline_version,
            ANALYSIS_PIPELINE_VERSION@,
            valid_timeline,
            expected_hash,
            crate::analysis::ANALYSIS_FINGERPRINT@,
        ),
{
    crate::analysis::lemma_fingerprint_is_new();
}

} // verus!
