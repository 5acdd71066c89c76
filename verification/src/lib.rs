//! Verified core of loob, a playlist path optimizer: the cost-matrix checks
//! and nearest-neighbour ordering, the audio analysis timeline, the YouTube
//! and feature caches' decisions, the loopback media server's request rules
//! and the desktop window's progress reporting.

pub mod analysis;
pub mod audio_cache;
pub mod cache_flow;
pub mod desktop;
pub mod features;
pub mod media;
pub mod optim;
pub mod paths;
pub mod progress;
pub mod server;
pub mod text;
pub mod youtube;

pub use analysis::{
    analysis_fingerprint, chunk_sample_ranges, frame_starts, lemma_anchored_starts_cover,
    lemma_chunk_starts_cover, lemma_fingerprint_is_new, ANALYSIS_FINGERPRINT, ANALYSIS_PIPELINE_VERSION,
};
pub use audio_cache::{
    check_audio_reference, check_playlist_entries, lemma_fresh_reference_reads_back,
    lemma_object_file_is_safe, lemma_refingerprinted_reference_reads_back,
    lemma_upgraded_reference_reads_back, content_object, digest_matches, lemma_accepted_reference_is_confined, check_download_location, check_downloaded_file, check_strong_digest, check_strong_object,
    check_unavailable_report, collect_prepared_playlist, current_unavailable_record,
    file_fingerprint, fresh_reference, hit_action, manifest_key, manifest_title, manifest_video,
    needs_content_check, object_file_name, object_placement, quarantine_object_name,
    quarantine_reference_name, reference_error, refingerprint_reference, retry_without_archive,
    unavailable_record, upgrade_reference, usable_object, validate_manifest, AudioResult,
    DownloadedAudio, HitAction, ObjectPlacement, ObjectStat, PlaylistVideo, ReferenceFault,
    ReferencePlan, YoutubeCache, AUDIO_PIPELINE_VERSION, LEGACY_AUDIO_PIPELINE_VERSION,
    MANIFEST_PIPELINE_VERSION, UNAVAILABLE_PIPELINE_VERSION,
};
pub use features::{
    analysis_matches_key, check_computed_analysis, check_trusted_hash, collect_in_order,
    decode_failure, display_title, feature_file_name, feature_lock_name, fingerprint_slug,
    feature_step, lemma_earlier_cadence_features_miss, ordering_plan, AnalysisKey, AudioInput, CacheStatus, FeatureAction, FeatureCache,
    FeatureEvent, LoobError, OrderingPlan, RandomEmbeddingProvider,
};
pub use cache_flow::{
    audio_step, manifest_step, reference_step, strong_step, AudioAction, AudioEvent, CachedAudio,
    ManifestAction, ManifestEvent, ReferenceAction, ReferenceEvent, StrongAction, StrongEvent,
};
pub use desktop::{
    cache_policy, check_cache_options, local_inputs, playlist_request_url, unplayable_playlist_message,
    youtube_inputs,
};
pub use media::{
    allowed_origin, hex, lemma_closed_range_is_selected, ContentHasher, lemma_decimal_roundtrip, lemma_media_path_resolves, media_content_type,
    media_path, media_request_target, media_token, next_generation, parse_range,
};
pub use optim::{
    bottleneck_cost, lemma_reverse_keeps_permutation, median_edge_keys, reverse_segment, validate_initial_ordering,
    validate_matrix, GreedyNn, OptimError, NEG_INFINITY_KEY, POS_INFINITY_KEY, ZERO_KEY,
};
pub use paths::{extension, file_name, file_stem, path_starts_with, safe_object_reference};
pub use progress::{
    lemma_analyzed_counts_as_computed, lemma_cache_hit_counts_as_cached,
    lemma_failed_delivery_stays_failed, lemma_failing_caps_completion,
    lemma_finishing_advances_completion, lemma_messages_are_numbered_across_calls,
    lemma_pipeline_messages_are_numbered,
    lemma_snapshot_is_capped, lemma_youtube_messages_are_numbered, ActiveTask, AppProgress,
    OutcomeCounters, Progress, ProgressEvent, ProgressSource, ReporterCall, ReporterState, TaskState,
    WorkPhase, WorkState, DELIVERY_FAILURE, FAST_UPDATE_INTERVAL_NANOS, MAX_ACTIVE_TASKS,
};
pub use server::{
    file_plan, lemma_invalidated_registry_resolves_nothing, lemma_previous_urls_expire,
    lemma_published_urls_resolve, response_headers, route_request, MediaRegistry, RequestMethod,
    ResponseBody, ResponsePlan,
};
pub use youtube::{
    archive_skipped, canonical_playlist_url, canonical_playlist_url_from_parts,
    canonical_video_url, classify_video_unavailability, failed_run_error,
    lemma_plain_unavailable_report, lemma_playlist_variants_share_identity, lemma_single_requests_stay_distinct, missing_output_error,
    user_youtube_error, valid_sha256, validate_playlist_id, validate_video_id, AudioFormat,
    AudioProvenance, CacheOutcome, CachePolicy, Downloader, FileFingerprint, PlaylistIdentity,
    PreparedAudio, PreparedAudioTrack, PreparedPlaylist, RealYtDlp, SkippedTrack,
    UnavailabilityReason, UnavailableAudioProvenance, UrlParts, YoutubeProgress, YtError,
};
