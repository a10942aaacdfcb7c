use vstd::prelude::*;

verus! {

/// The closed set of waveform shapes a voice can be built with.
///
/// A waveform is a stateless tag: it selects which function of the phase a
/// voice evaluates for each sample, and is fixed when the voice is created.
#[derive(Debug, Clone, Copy, PartialEq, Eq, Structural)]
pub enum Waveform {
    /// The sine of the phase taken as a fraction of a full turn.
    Sine,
    /// The sign of the sine: `+1`, `-1`, or `0` exactly at a zero crossing.
    Square,
    /// A linear ramp from `+1` at phase `0` down to `-1` at phase one half
    /// and back up.
    Triangle,
}

} // verus!
