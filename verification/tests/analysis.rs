use loob::{
    analysis_fingerprint, chunk_sample_ranges, frame_starts, ANALYSIS_FINGERPRINT,
    ANALYSIS_PIPELINE_VERSION,
};

#[test]
fn short_track_has_one_partial_chunk_covering_the_track() {
    assert_eq!(chunk_sample_ranges(73, 10), vec![0..73]);
    assert_eq!(chunk_sample_ranges(100, 10), vec![0..100]);
}

#[test]
fn chunks_use_nine_second_hops_and_an_end_anchored_final_window() {
    assert_eq!(
        chunk_sample_ranges(250, 10),
        vec![0..100, 90..190, 150..250]
    );
    assert_eq!(
        chunk_sample_ranges(280, 10),
        vec![0..100, 90..190, 180..280]
    );
}

#[test]
fn aligned_final_window_is_not_duplicated() {
    assert_eq!(chunk_sample_ranges(190, 10), vec![0..100, 90..190]);
}

#[test]
fn fingerprint_is_the_current_analysis_identity() {
    assert_eq!(analysis_fingerprint(), ANALYSIS_FINGERPRINT);
    assert_eq!(analysis_fingerprint(), "dsp-v4-coarse-dense-boundary-fft2048-hop1024");
    assert_ne!(analysis_fingerprint(), "dsp-v2-chunks10s-overlap1s-fft2048-hop1024");
    assert_eq!(
        ANALYSIS_PIPELINE_VERSION,
        "dsp-v2-chunks10s-overlap1s-fft2048-hop1024"
    );
}

#[test]
fn chunks_cover_the_whole_track_at_common_rates() {
    for &(samples, rate) in &[(44_100usize * 37, 44_100u32), (48_000 * 9 + 17, 48_000), (1, 8_000)] {
        let ranges = chunk_sample_ranges(samples, rate);
        assert_eq!(ranges.first().unwrap().start, 0);
        assert_eq!(ranges.last().unwrap().end, samples);
        for pair in ranges.windows(2) {
            assert!(pair[1].start <= pair[0].end, "chunks overlap or touch");
            assert!(pair[1].start > pair[0].start);
        }
    }
}

#[test]
fn chunk_window_is_ten_seconds_of_samples() {
    let ranges = chunk_sample_ranges(44_100 * 25, 44_100);
    assert_eq!(ranges[0], 0..441_000);
    assert_eq!(ranges[1], 396_900..837_900);
    assert_eq!(ranges[2], 661_500..1_102_500);
}

#[test]
fn analysis_frames_hop_and_end_at_the_last_sample() {
    assert_eq!(frame_starts(100, 2048, 1024), vec![0]);
    assert_eq!(frame_starts(2048, 2048, 1024), vec![0]);
    assert_eq!(frame_starts(2049, 2048, 1024), vec![0, 1]);
    assert_eq!(frame_starts(5000, 2048, 1024), vec![0, 1024, 2048, 2952]);
    assert_eq!(frame_starts(4096, 2048, 1024), vec![0, 1024, 2048]);
    assert_eq!(frame_starts(10, 4, 0), vec![0, 1, 2, 3, 4, 5, 6]);
}
