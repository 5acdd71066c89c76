use std::ops::Range;
use vstd::prelude::*;
use vstd::string::*;

verus! {

/// Identity of the DSP analysis pipeline; cached features carry it and are
/// only reused when it matches.
pub const ANALYSIS_PIPELINE_VERSION: &'static str = "dsp-v2-chunks10s-overlap1s-fft2048-hop1024";

/// The fourth analysis identity: the complete coarse and dense-boundary
/// analysis that derived features are cached under.
pub const ANALYSIS_FINGERPRINT: &'static str = "dsp-v4-coarse-dense-boundary-fft2048-hop1024";

/// The fingerprint under which derived DSP features are cached.  It
/// differs from the identity of the earlier ten-second/nine-second coarse
/// cadence, so features cached under that identity are never reused.
pub fn analysis_fingerprint() -> (fingerprint: String)
    ensures
        fingerprint@ == ANALYSIS_FINGERPRINT@,
        fingerprint@ != ANALYSIS_PIPELINE_VERSION@,
{
    proof {
        lemma_fingerprint_is_new();
    }
    String::from_str(ANALYSIS_FINGERPRINT)
}

/// The analysis fingerprint is not the ten-second/nine-second identity.
pub proof fn lemma_fingerprint_is_new()
    ensures
        ANALYSIS_FINGERPRINT@ != ANALYSIS_PIPELINE_VERSION@,
{
    reveal_strlit("dsp-v4-coarse-dense-boundary-fft2048-hop1024");
    reveal_strlit("dsp-v2-chunks10s-overlap1s-fft2048-hop1024");
    assert(ANALYSIS_FINGERPRINT@[5] != ANALYSIS_PIPELINE_VERSION@[5]);
}

/// Samples in one feature chunk: ten seconds of audio.
pub open spec fn chunk_window(sample_rate: nat) -> nat {
    10 * sample_rate
}

/// Distance between consecutive chunk starts: nine seconds, so that
/// neighbouring chunks overlap by one second.
pub open spec fn chunk_hop(sample_rate: nat) -> nat {
    9 * sample_rate
}

/// The `index`-th multiple of the hop.
#[verifier::opaque]
pub open spec fn hop_multiple(index: int, hop: int) -> int {
    index * hop
}

/// Start of every window of `window` samples over `count` samples, `hop`
/// apart: the multiples of the hop that lie before the end-anchored final
/// window, followed by that final window (a single window at zero when the
/// samples fit in one).
pub open spec fn anchored_starts(count: nat, window: nat, hop: nat) -> Seq<int> {
    if count <= window {
        seq![0int]
    } else {
        let final_start = count - window;
        Seq::new(((final_start + hop - 1) / hop as int) as nat, |i: int| hop_multiple(i, hop as int)).push(
            final_start,
        )
    }
}

/// Start sample of every chunk.
pub open spec fn chunk_starts(sample_count: nat, sample_rate: nat) -> Seq<int> {
    anchored_starts(sample_count, chunk_window(sample_rate), chunk_hop(sample_rate))
}

/// Length of every chunk: a full window, or the whole track when it is shorter.
pub open spec fn chunk_length(sample_count: nat, sample_rate: nat) -> nat {
    if sample_count <= chunk_window(sample_rate) {
        sample_count
    } else {
        chunk_window(sample_rate)
    }
}

proof fn lemma_hop_multiple_step(index: int, hop: int)
    ensures
        hop_multiple(index + 1, hop) == hop_multiple(index, hop) + hop,
        hop_multiple(0, hop) == 0,
{
    reveal(hop_multiple);
    assert((index + 1) * hop == index * hop + hop) by (nonlinear_arith);
}

proof fn lemma_ceiling_div(final_start: int, hop: int, k: int)
    requires
        hop > 0,
        k >= 1,
        hop_multiple(k - 1, hop) < final_start,
        final_start <= hop_multiple(k, hop),
    ensures
        (final_start + hop - 1) / hop == k,
{
    reveal(hop_multiple);
    assert((final_start + hop - 1) / hop == k) by (nonlinear_arith)
        requires
            hop > 0,
            k >= 1,
            (k - 1) * hop < final_start,
            final_start <= k * hop,
    ;
}

proof fn lemma_hop_multiple_below(k: int, hop: int, final_start: int)
    requires
        hop > 0,
        k >= 1,
        hop_multiple(k - 1, hop) < final_start,
    ensures
        forall|i: int| 0 <= i < k ==> #[trigger] hop_multiple(i, hop) < final_start,
        forall|i: int| 0 <= i < k ==> 0 <= #[trigger] hop_multiple(i, hop),
{
    reveal(hop_multiple);
    assert forall|i: int| 0 <= i < k implies #[trigger] hop_multiple(i, hop) < final_start
        && 0 <= hop_multiple(i, hop) by {
        assert(i * hop <= (k - 1) * hop) by (nonlinear_arith)
            requires
                hop > 0,
                0 <= i < k,
        ;
        assert(0 <= i * hop) by (nonlinear_arith)
            requires
                hop > 0,
                0 <= i,
        ;
    }
}

/// Anchored window starts rise strictly, begin at zero, and each window
/// begins no later than its predecessor ends; the last window ends with the
/// samples, so the windows leave no sample uncovered.
pub proof fn lemma_anchored_starts_cover(count: nat, window: nat, hop: nat)
    requires
        count > 0,
        window > 0,
        hop > 0,
        hop <= window,
    ensures
        anchored_starts(count, window, hop).len() >= 1,
        anchored_starts(count, window, hop)[0] == 0,
        anchored_starts(count, window, hop).last() + (if count <= window {
            count
        } else {
            window
        }) == count,
        forall|i: int|
            0 <= i < anchored_starts(count, window, hop).len() - 1 ==> {
                &&& #[trigger] anchored_starts(count, window, hop)[i] < anchored_starts(count, window, hop)[i + 1]
                &&& anchored_starts(count, window, hop)[i + 1] <= anchored_starts(count, window, hop)[i] + window
            },
{
    let starts = anchored_starts(count, window, hop);
    let w = window as int;
    let h = hop as int;
    if count > window {
        let f = count - w;
        let k = (f + h - 1) / h;
        assert(k >= 1 && (k - 1) * h < f && f <= k * h) by (nonlinear_arith)
            requires
                h > 0,
                f > 0,
                k == (f + h - 1) / h,
        ;
        assert(hop_multiple(k - 1, h) < f && f <= hop_multiple(k, h)) by {
            reveal(hop_multiple);
        }
        lemma_hop_multiple_step(0, h);
        lemma_hop_multiple_below(k, h, f);
        assert(starts[0] == 0);
        assert forall|i: int| 0 <= i < starts.len() - 1 implies #[trigger] starts[i] < starts[i
            + 1] && starts[i + 1] <= starts[i] + w by {
            lemma_hop_multiple_step(i, h);
            if i + 1 == k {
                lemma_hop_multiple_step(k - 1, h);
            }
        }
    }
}

/// The chunk starts rise strictly, begin at zero, and each chunk begins no
/// later than its predecessor ends, so the chunks leave no sample uncovered.
pub proof fn lemma_chunk_starts_cover(sample_count: nat, sample_rate: nat)
    requires
        sample_count > 0,
        sample_rate > 0,
    ensures
        chunk_starts(sample_count, sample_rate).len() >= 1,
        chunk_starts(sample_count, sample_rate)[0] == 0,
        chunk_starts(sample_count, sample_rate).last() + chunk_length(sample_count, sample_rate)
            == sample_count,
        forall|i: int|
            0 <= i < chunk_starts(sample_count, sample_rate).len() - 1 ==> {
                &&& #[trigger] chunk_starts(sample_count, sample_rate)[i] < chunk_starts(
                    sample_count,
                    sample_rate,
                )[i + 1]
                &&& chunk_starts(sample_count, sample_rate)[i + 1] <= chunk_starts(
                    sample_count,
                    sample_rate,
                )[i] + chunk_length(sample_count, sample_rate)
            },
{
    lemma_anchored_starts_cover(sample_count, chunk_window(sample_rate), chunk_hop(sample_rate));
}

/// Start samples of the analysis frames of `frame` samples over `count`
/// samples, `hop` apart (at least one sample apart), the final frame
/// anchored to the end.
pub fn frame_starts(count: usize, frame: usize, hop: usize) -> (starts: Vec<usize>)
    ensures
        starts@.len() == anchored_starts(count as nat, frame as nat, if hop == 0 { 1 } else { hop as nat }).len(),
        forall|i: int|
            0 <= i < starts@.len() ==> #[trigger] starts@[i] == anchored_starts(
                count as nat,
                frame as nat,
                if hop == 0 { 1 } else { hop as nat },
            )[i],
{
    let step: usize = if hop == 0 { 1 } else { hop };
    let mut starts: Vec<usize> = Vec::new();
    starts.push(0);
    if count <= frame {
        return starts;
    }
    let final_start: usize = count - frame;
    let ghost h = step as int;
    let ghost f = final_start as int;
    proof {
        lemma_hop_multiple_step(0, h);
    }
    let mut start: usize = step;
    let ghost mut k: int = 1;
    while start < final_start
        invariant
            h == step,
            f == final_start,
            0 < f,
            0 < h,
            k >= 1,
            starts@.len() == k,
            hop_multiple(k - 1, h) < f,
            start as int == if hop_multiple(k, h) > usize::MAX {
                usize::MAX as int
            } else {
                hop_multiple(k, h)
            },
            forall|i: int| 0 <= i < k ==> #[trigger] starts@[i] == hop_multiple(i, h),
        decreases usize::MAX - start,
    {
        proof {
            lemma_hop_multiple_step(k, h);
        }
        starts.push(start);
        start = start.saturating_add(step);
        proof {
            k = k + 1;
        }
    }
    proof {
        lemma_ceiling_div(f, h, k);
    }
    starts.push(final_start);
    starts
}

/// Sample ranges of the overlapping ten-second chunks of a decoded track:
/// nine-second hops from the start, with the final window anchored to the
/// end of the track so that the chunks cover every sample.
pub fn chunk_sample_ranges(sample_count: usize, sample_rate: u32) -> (ranges: Vec<Range<usize>>)
    requires
        sample_count > 0,
        sample_rate > 0,
    ensures
        ranges@.len() == chunk_starts(sample_count as nat, sample_rate as nat).len(),
        forall|i: int|
            0 <= i < ranges@.len() ==> {
                &&& #[trigger] ranges@[i].start == chunk_starts(
                    sample_count as nat,
                    sample_rate as nat,
                )[i]
                &&& ranges@[i].end == ranges@[i].start + chunk_length(
                    sample_count as nat,
                    sample_rate as nat,
                )
            },
{
    let window64: u64 = (sample_rate as u64) * 10;
    if (sample_count as u64) <= window64 {
        let mut single: Vec<Range<usize>> = Vec::new();
        single.push(0..sample_count);
        return single;
    }
    let window: usize = window64 as usize;
    let hop: usize = (sample_rate as u64 * 9) as usize;
    let final_start: usize = sample_count - window;
    let ghost w = window as int;
    let ghost h = hop as int;
    let ghost f = final_start as int;
    let mut ranges: Vec<Range<usize>> = Vec::new();
    ranges.push(0..window);
    proof {
        lemma_hop_multiple_step(0, h);
    }
    let mut start: usize = hop;
    let ghost mut k: int = 1;
    while start < final_start
        invariant
            w == window,
            h == hop,
            f == final_start,
            0 < f,
            0 < h,
            f + w == sample_count,
            k >= 1,
            ranges@.len() == k,
            hop_multiple(k - 1, h) < f,
            start as int == if hop_multiple(k, h) > usize::MAX {
                usize::MAX as int
            } else {
                hop_multiple(k, h)
            },
            forall|i: int|
                0 <= i < k ==> #[trigger] ranges@[i].start == hop_multiple(i, h)
                    && ranges@[i].end == ranges@[i].start + w,
        decreases usize::MAX - start,
    {
        proof {
            lemma_hop_multiple_step(k, h);
        }
        ranges.push(start..start + window);
        start = start.saturating_add(hop);
        proof {
            k = k + 1;
        }
    }
    proof {
        lemma_ceiling_div(f, h, k);
    }
    ranges.push(final_start..sample_count);
    ranges
}

} // verus!
