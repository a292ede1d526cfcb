//! Mixing the microphone and system recordings into one track.
use vstd::prelude::*;

verus! {

/// The `i`-th sample of `s`, or silence (0) past its end.
pub open spec fn sample_or_silence(s: Seq<i16>, i: int) -> int {
    if 0 <= i < s.len() {
        s[i] as int
    } else {
        0
    }
}

/// `x` clamped to the range of an `i16`.
pub open spec fn clamp_i16(x: int) -> i16 {
    if x < i16::MIN {
        i16::MIN
    } else if x > i16::MAX {
        i16::MAX
    } else {
        x as i16
    }
}

/// The mix of two tracks: as long as the longer one, the shorter padded with
/// silence, each sample the clamped sum of the two.
pub open spec fn spec_mix(mic: Seq<i16>, sys: Seq<i16>) -> Seq<i16> {
    let len = if mic.len() >= sys.len() { mic.len() } else { sys.len() };
    Seq::new(len, |i: int| clamp_i16(sample_or_silence(mic, i) + sample_or_silence(sys, i)))
}

/// Mix two tracks of 16-bit samples: summed with clamping, the shorter one
/// zero-padded. (The WAV files around them are read and written by the caller.)
pub fn mix_samples(mic: &[i16], sys: &[i16]) -> (mixed: Vec<i16>)
    ensures
        mixed@ == spec_mix(mic@, sys@),
{
    let len = if mic.len() >= sys.len() { mic.len() } else { sys.len() };
    let mut mixed: Vec<i16> = Vec::new();
    let mut i: usize = 0;
    while i < len
        invariant
            len == if mic@.len() >= sys@.len() { mic@.len() } else { sys@.len() },
            i <= len,
            mixed@ == spec_mix(mic@, sys@).take(i as int),
        decreases len - i,
    {
        let m: i32 = if i < mic.len() { mic[i] as i32 } else { 0 };
        let s: i32 = if i < sys.len() { sys[i] as i32 } else { 0 };
        let sum = m + s;
        let clamped: i16 = if sum < i16::MIN as i32 {
            i16::MIN
        } else if sum > i16::MAX as i32 {
            i16::MAX
        } else {
            sum as i16
        };
        mixed.push(clamped);
        i = i + 1;
        assert(mixed@ =~= spec_mix(mic@, sys@).take(i as int));
    }
    assert(spec_mix(mic@, sys@).take(len as int) =~= spec_mix(mic@, sys@));
    mixed
}

/// Law: which track is the microphone and which the system audio does not matter.
pub proof fn lemma_mix_symmetric(a: Seq<i16>, b: Seq<i16>)
    ensures
        spec_mix(a, b) == spec_mix(b, a),
{
    assert(spec_mix(a, b) =~= spec_mix(b, a));
}

/// Law: mixing with an empty track gives back the other track unchanged.
pub proof fn lemma_mix_with_nothing(a: Seq<i16>)
    ensures
        spec_mix(a, Seq::empty()) == a,
{
    assert(spec_mix(a, Seq::empty()) =~= a);
}

/// Law: when no sum leaves the `i16` range, every mixed sample is the exact sum.
pub proof fn lemma_mix_exact_without_overflow(a: Seq<i16>, b: Seq<i16>, i: int)
    requires
        0 <= i < spec_mix(a, b).len(),
        i16::MIN <= sample_or_silence(a, i) + sample_or_silence(b, i) <= i16::MAX,
    ensures
        spec_mix(a, b)[i] == sample_or_silence(a, i) + sample_or_silence(b, i),
{
}

} // verus!
