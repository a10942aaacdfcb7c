//! Negotiation of the output stream configuration.
//!
//! An audio device reports the configurations it supports as a list of
//! ranges. The engine plays floating-point samples at one fixed rate, so it
//! takes the first range that has a floating-point sample format and whose
//! sample-rate interval holds that rate.

use vstd::prelude::*;

verus! {

/// The sample rate, in hertz, that the engine asks the device for.
pub const TARGET_SAMPLE_RATE: u32 = 44_100;

/// The type of the samples a device expects.
#[derive(Debug, Clone, Copy, PartialEq, Eq, Structural)]
pub enum SampleFormat {
    /// Signed 8-bit integers.
    I8,
    /// Signed 16-bit integers.
    I16,
    /// Signed 32-bit integers.
    I32,
    /// Signed 64-bit integers.
    I64,
    /// Unsigned 8-bit integers.
    U8,
    /// Unsigned 16-bit integers.
    U16,
    /// Unsigned 32-bit integers.
    U32,
    /// Unsigned 64-bit integers.
    U64,
    /// Single-precision floating-point numbers.
    F32,
    /// Double-precision floating-point numbers.
    F64,
}

impl SampleFormat {
    /// Whether samples of this format are floating-point numbers.
    pub open spec fn floating(self) -> bool {
        self is F32 || self is F64
    }

    /// Whether samples of this format are floating-point numbers.
    pub fn is_float(&self) -> (r: bool)
        ensures
            r == self.floating(),
    {
        match self {
            SampleFormat::F32 | SampleFormat::F64 => true,
            _ => false,
        }
    }
}

/// The parameters a stream is opened with.
#[derive(Debug, Clone, Copy, PartialEq, Eq, Structural)]
pub struct StreamConfig {
    /// Number of interleaved channels in every frame.
    pub channels: u16,
    /// Frames per second.
    pub sample_rate: u32,
}

/// One range of configurations that a device supports: a channel count and
/// a sample format, at any sample rate in a closed interval.
#[derive(Debug, Clone, Copy, PartialEq, Eq, Structural)]
pub struct ConfigRange {
    /// Number of interleaved channels in every frame.
    pub channels: u16,
    /// Lowest supported sample rate, in hertz.
    pub min_sample_rate: u32,
    /// Highest supported sample rate, in hertz.
    pub max_sample_rate: u32,
    /// The type of the samples the device expects.
    pub sample_format: SampleFormat,
}

impl ConfigRange {
    /// The range's sample-rate interval holds `rate`. An interval whose
    /// minimum lies above its maximum holds no rate.
    pub open spec fn contains_rate(self, rate: u32) -> bool {
        self.min_sample_rate <= rate <= self.max_sample_rate
    }

    /// The stream parameters of this range with the sample rate fixed.
    pub open spec fn fixed_at(self, rate: u32) -> StreamConfig {
        StreamConfig { channels: self.channels, sample_rate: rate }
    }

    /// The engine can play through this range at `rate`: the samples are
    /// floating-point and the rate is supported.
    pub open spec fn usable_at(self, rate: u32) -> bool {
        self.sample_format.floating() && self.contains_rate(rate)
    }

    /// Fixes the sample rate of this range, or returns `None` when the
    /// rate lies outside it.
    pub fn try_with_sample_rate(&self, rate: u32) -> (r: Option<StreamConfig>)
        ensures
            r == if self.contains_rate(rate) {
                Some(self.fixed_at(rate))
            } else {
                None::<StreamConfig>
            },
    {
        if self.min_sample_rate <= rate && rate <= self.max_sample_rate {
            Some(StreamConfig { channels: self.channels, sample_rate: rate })
        } else {
            None
        }
    }
}

/// `i` is the position of the first range in `ranges` that is usable at
/// `rate`.
pub open spec fn is_first_usable(ranges: Seq<ConfigRange>, rate: u32, i: int) -> bool {
    &&& 0 <= i < ranges.len()
    &&& ranges[i].usable_at(rate)
    &&& forall|j: int| 0 <= j < i ==> !(#[trigger] ranges[j]).usable_at(rate)
}

/// No range in `ranges` is usable at `rate`.
pub open spec fn none_usable(ranges: Seq<ConfigRange>, rate: u32) -> bool {
    forall|j: int| 0 <= j < ranges.len() ==> !(#[trigger] ranges[j]).usable_at(rate)
}

/// A list of ranges has at most one first usable range, so the choice made
/// by [`select_config`] is determined by the list alone.
pub proof fn lemma_first_usable_unique(ranges: Seq<ConfigRange>, rate: u32, i: int, j: int)
    requires
        is_first_usable(ranges, rate, i),
        is_first_usable(ranges, rate, j),
    ensures
        i == j,
{
    if i < j {
        assert(!ranges[i].usable_at(rate));
    } else if j < i {
        assert(!ranges[j].usable_at(rate));
    }
}

/// A list either has a first usable range or none that is usable, never
/// both.
pub proof fn lemma_usable_or_none(ranges: Seq<ConfigRange>, rate: u32)
    ensures
        none_usable(ranges, rate) <==> !exists|i: int| is_first_usable(ranges, rate, i),
{
    if !none_usable(ranges, rate) {
        let found = choose|j: int| 0 <= j < ranges.len() && (#[trigger] ranges[j]).usable_at(rate);
        lemma_has_first(ranges, rate, found);
    } else {
        assert forall|i: int| !is_first_usable(ranges, rate, i) by {
            if 0 <= i < ranges.len() {
                assert(!ranges[i].usable_at(rate));
            }
        }
    }
}

/// When the range at `found` is usable, some range at or before it is the
/// first usable one.
pub proof fn lemma_has_first(ranges: Seq<ConfigRange>, rate: u32, found: int)
    requires
        0 <= found < ranges.len(),
        ranges[found].usable_at(rate),
    ensures
        exists|i: int| 0 <= i <= found && is_first_usable(ranges, rate, i),
    decreases found,
{
    if exists|j: int| 0 <= j < found && (#[trigger] ranges[j]).usable_at(rate) {
        let earlier = choose|j: int| 0 <= j < found && (#[trigger] ranges[j]).usable_at(rate);
        lemma_has_first(ranges, rate, earlier);
    } else {
        assert(is_first_usable(ranges, rate, found));
    }
}

/// The outcome of a successful negotiation.
#[derive(Debug, Clone, Copy, PartialEq, Eq, Structural)]
pub struct Selection {
    /// Position of the chosen range in the list the device reported.
    pub index: usize,
    /// The parameters to open the stream with.
    pub config: StreamConfig,
}

/// Chooses the configuration to open the output stream with: the first
/// range, in the order the device reported them, that is usable at
/// [`TARGET_SAMPLE_RATE`], fixed to that rate. Returns `None` exactly when
/// no range is usable.
pub fn select_config(ranges: &[ConfigRange]) -> (r: Option<Selection>)
    ensures
        match r {
            Some(s) => is_first_usable(ranges@, TARGET_SAMPLE_RATE, s.index as int)
                && s.config == ranges@[s.index as int].fixed_at(TARGET_SAMPLE_RATE),
            None => none_usable(ranges@, TARGET_SAMPLE_RATE),
        },
{
    let mut i: usize = 0;
    while i < ranges.len()
        invariant
            i <= ranges.len(),
            forall|j: int| 0 <= j < i ==> !(#[trigger] ranges@[j]).usable_at(TARGET_SAMPLE_RATE),
        decreases ranges.len() - i,
    {
        let range = ranges[i];
        if range.sample_format.is_float() {
            if let Some(config) = range.try_with_sample_rate(TARGET_SAMPLE_RATE) {
                return Some(Selection { index: i, config });
            }
        }
        i += 1;
    }
    None
}

} // verus!
