//! Layout of mixed frames in an interleaved output buffer.

use vstd::prelude::*;

verus! {

/// Number of frames that a buffer of `len` samples is cut into when every
/// frame holds `channels` samples and a shorter rest forms a last frame of
/// its own.
pub open spec fn frame_count(len: int, channels: int) -> int {
    (len + channels - 1) / channels
}

/// The buffer that results from `before` when frame `k` receives
/// `outcomes[k]`: a mixed value fills every sample of its frame, a skipped
/// frame keeps what it held.
pub open spec fn rendered<T>(before: Seq<T>, channels: int, outcomes: Seq<Option<T>>) -> Seq<T> {
    Seq::new(before.len(), |i: int| rendered_sample(before, channels, outcomes, i))
}

/// The sample at position `i` of [`rendered`]: the value mixed for the frame
/// that `i` lies in, or what the buffer held there when that frame was
/// skipped.
pub open spec fn rendered_sample<T>(
    before: Seq<T>,
    channels: int,
    outcomes: Seq<Option<T>>,
    i: int,
) -> T {
    match outcomes[i / channels] {
        Some(value) => value,
        None => before[i],
    }
}

/// Writes the outcome of one mix into the samples `start..end` of `data`.
pub fn write_frame<T: Copy>(data: &mut [T], start: usize, end: usize, outcome: Option<T>)
    requires
        start <= end <= old(data)@.len(),
    ensures
        final(data)@.len() == old(data)@.len(),
        forall|i: int|
            0 <= i < old(data)@.len() ==> #[trigger] final(data)@[i] == (if start <= i < end
                && outcome is Some {
                outcome.unwrap()
            } else {
                old(data)@[i]
            }),
{
    if let Some(value) = outcome {
        let mut i: usize = start;
        while i < end
            invariant
                start <= i <= end <= data@.len(),
                data@.len() == old(data)@.len(),
                forall|j: int|
                    0 <= j < data@.len() ==> #[trigger] data@[j] == (if start <= j < i {
                        value
                    } else {
                        old(data)@[j]
                    }),
            decreases end - i,
        {
            data[i] = value;
            i += 1;
        }
    }
}

/// The position `i` lies in frame `k` when frames are `channels` wide.
pub proof fn lemma_frame_of(i: int, k: int, channels: int)
    requires
        channels > 0,
        k * channels <= i < k * channels + channels,
    ensures
        i / channels == k,
{
    assert(i / channels == k) by (nonlinear_arith)
        requires
            channels > 0,
            k * channels <= i < k * channels + channels,
    ;
}

/// A position before the start of frame `k` lies in an earlier frame.
pub proof fn lemma_frame_before(i: int, k: int, channels: int)
    requires
        channels > 0,
        0 <= i < k * channels,
    ensures
        0 <= i / channels < k,
{
    assert(0 <= i / channels < k) by (nonlinear_arith)
        requires
            channels > 0,
            0 <= i < k * channels,
    ;
}

/// A buffer that ends inside or at the end of frame `k` has `k + 1` frames.
pub proof fn lemma_frame_count(len: int, k: int, channels: int)
    requires
        channels > 0,
        k * channels < len <= k * channels + channels,
    ensures
        frame_count(len, channels) == k + 1,
{
    assert((len + channels - 1) / channels == k + 1) by (nonlinear_arith)
        requires
            channels > 0,
            k * channels < len <= k * channels + channels,
    ;
}

/// A frame is handled as a whole: when its mix was skipped every sample of
/// it keeps its value, and when a value was mixed every sample of it holds
/// that one value, so all channels of a frame carry the same signal.
pub proof fn lemma_frame_whole<T>(
    before: Seq<T>,
    channels: int,
    outcomes: Seq<Option<T>>,
    k: int,
)
    requires
        channels > 0,
        0 <= k < outcomes.len(),
    ensures
        forall|i: int|
            #![trigger rendered(before, channels, outcomes)[i]]
            0 <= i < before.len() && k * channels <= i < k * channels + channels ==> rendered(
                before,
                channels,
                outcomes,
            )[i] == (match outcomes[k] {
                Some(value) => value,
                None => before[i],
            }),
{
    assert forall|i: int|
        #![trigger rendered(before, channels, outcomes)[i]]
        0 <= i < before.len() && k * channels <= i < k * channels + channels implies rendered(
        before,
        channels,
        outcomes,
    )[i] == (match outcomes[k] {
        Some(value) => value,
        None => before[i],
    }) by {
        lemma_frame_of(i, k, channels);
    }
}

/// When the mix of every frame was skipped, the buffer is left exactly as
/// it was.
pub proof fn lemma_all_skipped<T>(before: Seq<T>, channels: int, outcomes: Seq<Option<T>>)
    requires
        channels > 0,
        outcomes.len() == frame_count(before.len() as int, channels),
        forall|k: int| 0 <= k < outcomes.len() ==> outcomes[k] is None,
    ensures
        rendered(before, channels, outcomes) == before,
{
    assert forall|i: int| 0 <= i < before.len() implies rendered(before, channels, outcomes)[i]
        == before[i] by {
        lemma_frame_in_range(i, before.len() as int, channels);
    }
    assert(rendered(before, channels, outcomes) =~= before);
}

/// Every position of a buffer lies in one of its frames.
pub proof fn lemma_frame_in_range(i: int, len: int, channels: int)
    requires
        channels > 0,
        0 <= i < len,
    ensures
        0 <= i / channels < frame_count(len, channels),
{
    assert(0 <= i / channels < (len + channels - 1) / channels) by (nonlinear_arith)
        requires
            channels > 0,
            0 <= i < len,
    ;
}

/// Fills an interleaved output buffer frame by frame.
///
/// The buffer is cut into frames of `channels` samples; a shorter rest
/// forms a last frame. For every frame, in order, `mix` is called once: when
/// it returns a value, every sample of the frame is set to it; when it
/// returns `None`, the frame is left as it was.
pub fn render<T: Copy, F: Fn() -> Option<T>>(data: &mut [T], channels: usize, mix: F)
    requires
        channels > 0,
        call_requires(mix, ()),
    ensures
        final(data)@.len() == old(data)@.len(),
        exists|outcomes: Seq<Option<T>>|
            {
                &&& outcomes.len() == frame_count(old(data)@.len() as int, channels as int)
                &&& forall|k: int|
                    0 <= k < outcomes.len() ==> call_ensures(mix, (), #[trigger] outcomes[k])
                &&& final(data)@ == rendered(old(data)@, channels as int, outcomes)
            },
{
    let len: usize = data.len();
    let ghost mut outcomes: Seq<Option<T>> = Seq::empty();
    let mut start: usize = 0;
    proof {
        assert(frame_count(0, channels as int) == 0) by (nonlinear_arith)
            requires
                channels > 0,
        ;
        assert(0 * channels == 0);
    }
    while start < len
        invariant
            channels > 0,
            call_requires(mix, ()),
            len == old(data)@.len(),
            data@.len() == len,
            start <= len,
            start < len ==> start == outcomes.len() * channels,
            start == len ==> outcomes.len() == frame_count(len as int, channels as int),
            forall|k: int|
                0 <= k < outcomes.len() ==> call_ensures(mix, (), #[trigger] outcomes[k]),
            forall|i: int|
                #![trigger data@[i]]
                0 <= i < start ==> data@[i] == rendered_sample(
                    old(data)@,
                    channels as int,
                    outcomes,
                    i,
                ),
            forall|i: int| #![trigger data@[i]] start <= i < len ==> data@[i] == old(data)@[i],
        decreases len - start,
    {
        let end: usize = if len - start < channels {
            len
        } else {
            start + channels
        };
        let outcome = mix();
        let ghost k = outcomes.len() as int;
        let ghost earlier = data@;
        let ghost decided = outcomes;
        write_frame(data, start, end, outcome);
        proof {
            outcomes = outcomes.push(outcome);
            assert((k + 1) * channels == k * channels + channels) by (nonlinear_arith);
            assert forall|i: int| #![trigger data@[i]] 0 <= i < end implies data@[i]
                == rendered_sample(old(data)@, channels as int, outcomes, i) by {
                if i >= start {
                    lemma_frame_of(i, k, channels as int);
                    assert(earlier[i] == old(data)@[i]);
                } else {
                    lemma_frame_before(i, k, channels as int);
                    assert(earlier[i] == data@[i]);
                    assert(outcomes[i / (channels as int)] == decided[i / (channels as int)]);
                }
            }
            assert forall|i: int| #![trigger data@[i]] end <= i < len implies data@[i] == old(
                data,
            )@[i] by {
                assert(earlier[i] == old(data)@[i]);
            }
            if end == len {
                lemma_frame_count(len as int, k, channels as int);
            }
        }
        start = end;
    }
    proof {
        assert(data@ =~= rendered(old(data)@, channels as int, outcomes));
    }
}

} // verus!
