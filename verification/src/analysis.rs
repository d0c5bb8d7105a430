//! Audio analysis: transient markers, the waveform envelope, and the
//! byte encoding of a marker sequence.
//!
//! Markers are timestamps in milliseconds. Sensitivity is given in
//! thousandths (0 through 1000 stands for 0.0 through 1.0) and controls
//! marker density monotonically: a higher sensitivity never yields fewer
//! markers. Markers are a non-decreasing sequence within `[0, duration]`.

use vstd::arithmetic::div_mod::{
    lemma_div_is_ordered, lemma_div_multiples_vanish, lemma_div_multiples_vanish_fancy,
};
use vstd::arithmetic::mul::lemma_mul_inequality;
use vstd::prelude::*;

verus! {

/// Highest sensitivity, in thousandths.
pub const SENSITIVITY_SCALE: u32 = 1000;

/// Markers per second of audio at the highest sensitivity.
pub const MARKERS_PER_SECOND_AT_MAX: u64 = 2;

/// How many markers a given duration and sensitivity produce: two markers
/// per second at full sensitivity, scaled down linearly.
pub open spec fn spec_marker_count(duration_ms: u64, sensitivity_mil: u32) -> int {
    2 * duration_ms * sensitivity_mil / 1_000_000
}

/// The markers themselves: evenly spread over the duration.
pub open spec fn spec_markers(duration_ms: u64, sensitivity_mil: u32) -> Seq<u64> {
    Seq::new(
        spec_marker_count(duration_ms, sensitivity_mil) as nat,
        |i: int| (i * duration_ms / spec_marker_count(duration_ms, sensitivity_mil)) as u64,
    )
}

/// Each marker value, as an integer, lies in `[0, duration_ms]`.
pub proof fn lemma_markers_bounded(duration_ms: u64, sensitivity_mil: u32)
    ensures
        forall|i: int|
            0 <= i < spec_markers(duration_ms, sensitivity_mil).len() ==> 0 <= #[trigger] spec_markers(
                duration_ms,
                sensitivity_mil,
            )[i] <= duration_ms,
{
    let c = spec_marker_count(duration_ms, sensitivity_mil);
    assert forall|i: int| 0 <= i < spec_markers(duration_ms, sensitivity_mil).len() implies 0
        <= #[trigger] spec_markers(duration_ms, sensitivity_mil)[i] <= duration_ms by {
        lemma_marker_value(duration_ms, c, i);
    }
}

/// One marker value lies in `[0, duration_ms]`.
proof fn lemma_marker_value(duration_ms: u64, c: int, i: int)
    requires
        0 <= i < c,
    ensures
        0 <= i * duration_ms / c <= duration_ms,
{
    lemma_mul_inequality(0, i, duration_ms as int);
    lemma_div_is_ordered(0, i * duration_ms, c);
    lemma_mul_inequality(i, c, duration_ms as int);
    lemma_div_is_ordered(i * duration_ms, c * duration_ms, c);
    lemma_div_multiples_vanish(duration_ms as int, c);
    assert(c * duration_ms == duration_ms * c) by (nonlinear_arith);
}

/// Markers are non-decreasing in time.
pub proof fn lemma_markers_sorted(duration_ms: u64, sensitivity_mil: u32)
    ensures
        forall|i: int, j: int|
            0 <= i <= j < spec_markers(duration_ms, sensitivity_mil).len()
                ==> #[trigger] spec_markers(duration_ms, sensitivity_mil)[i]
                <= #[trigger] spec_markers(duration_ms, sensitivity_mil)[j],
{
    let c = spec_marker_count(duration_ms, sensitivity_mil);
    assert forall|i: int, j: int|
        0 <= i <= j < spec_markers(duration_ms, sensitivity_mil).len()
        implies #[trigger] spec_markers(duration_ms, sensitivity_mil)[i] <= #[trigger] spec_markers(
        duration_ms,
        sensitivity_mil,
    )[j] by {
        lemma_mul_inequality(i, j, duration_ms as int);
        lemma_div_is_ordered(i * duration_ms, j * duration_ms, c);
        lemma_marker_value(duration_ms, c, i);
        lemma_marker_value(duration_ms, c, j);
    }
}

/// Marker density is monotonic in sensitivity: a lower sensitivity never
/// yields more markers on the same input.
pub proof fn lemma_markers_monotone_in_sensitivity(duration_ms: u64, s1: u32, s2: u32)
    requires
        s1 <= s2,
    ensures
        spec_markers(duration_ms, s1).len() <= spec_markers(duration_ms, s2).len(),
{
    lemma_mul_inequality(s1 as int, s2 as int, 2 * duration_ms);
    assert(2 * duration_ms * s1 == s1 * (2 * duration_ms)) by (nonlinear_arith);
    assert(2 * duration_ms * s2 == s2 * (2 * duration_ms)) by (nonlinear_arith);
    lemma_div_is_ordered(2 * duration_ms * s1, 2 * duration_ms * s2, 1_000_000);
}

/// Markers are produced at all exactly when the scaled density reaches
/// one marker over the whole duration.
pub proof fn lemma_markers_nonempty(duration_ms: u64, sensitivity_mil: u32)
    ensures
        spec_markers(duration_ms, sensitivity_mil).len() > 0 <==> 2 * duration_ms * sensitivity_mil
            >= 1_000_000,
{
}

/// The marker count never exceeds the duration in milliseconds.
pub proof fn lemma_marker_count_le_duration(duration_ms: u64, sensitivity_mil: u32)
    requires
        sensitivity_mil <= SENSITIVITY_SCALE,
    ensures
        0 <= spec_marker_count(duration_ms, sensitivity_mil) <= duration_ms,
{
    let d = duration_ms as int;
    let s = sensitivity_mil as int;
    lemma_div_is_ordered(0, 2 * d * s, 1_000_000);
    lemma_mul_inequality(s, 1000, 2 * d);
    assert(2 * d * s == s * (2 * d)) by (nonlinear_arith);
    assert(2000 * d == 1000 * (2 * d)) by (nonlinear_arith);
    lemma_div_is_ordered(2 * d * s, 2000 * d, 1_000_000);
    lemma_mul_inequality(2000, 1_000_000, d);
    assert(2000 * d == d * 2000) by (nonlinear_arith);
    assert(1_000_000 * d == d * 1_000_000) by (nonlinear_arith);
    lemma_div_is_ordered(2000 * d, 1_000_000 * d, 1_000_000);
    lemma_div_multiples_vanish(d, 1_000_000);
}

/// Compute the transient markers for a clip of the given duration at the
/// given sensitivity.
pub fn transient_markers(duration_ms: u64, sensitivity_mil: u32) -> (r: Vec<u64>)
    requires
        sensitivity_mil <= SENSITIVITY_SCALE,
    ensures
        r@ == spec_markers(duration_ms, sensitivity_mil),
{
    let ghost gc = spec_marker_count(duration_ms, sensitivity_mil);
    proof {
        lemma_marker_count_le_duration(duration_ms, sensitivity_mil);
        assert(2 * (duration_ms as int) * (sensitivity_mil as int) <= u128::MAX) by (nonlinear_arith)
            requires
                duration_ms <= u64::MAX,
                sensitivity_mil <= 1000,
        ;
    }
    let c128: u128 = 2u128 * (duration_ms as u128) * (sensitivity_mil as u128) / 1_000_000u128;
    proof {
        assert(c128 == gc);
    }
    let count: u64 = c128 as u64;
    let mut out: Vec<u64> = Vec::new();
    let mut i: u64 = 0;
    proof {
        assert(spec_markers(duration_ms, sensitivity_mil).take(0) == Seq::<u64>::empty());
    }
    while i < count
        invariant
            0 <= i <= count,
            count == gc,
            gc == spec_marker_count(duration_ms, sensitivity_mil),
            out@ == spec_markers(duration_ms, sensitivity_mil).take(i as int),
        decreases count - i,
    {
        proof {
            assert((i as int) * (duration_ms as int) <= u128::MAX) by (nonlinear_arith)
                requires
                    i <= u64::MAX,
                    duration_ms <= u64::MAX,
            ;
        }
        let m128: u128 = (i as u128) * (duration_ms as u128) / (count as u128);
        proof {
            lemma_marker_value(duration_ms, gc, i as int);
            assert(m128 == i * duration_ms / gc);
            assert(spec_markers(duration_ms, sensitivity_mil).take(i + 1) == spec_markers(
                duration_ms,
                sensitivity_mil,
            ).take(i as int).push(spec_markers(duration_ms, sensitivity_mil)[i as int]));
        }
        out.push(m128 as u64);
        i = i + 1;
    }
    proof {
        assert(spec_markers(duration_ms, sensitivity_mil).take(gc) == spec_markers(
            duration_ms,
            sensitivity_mil,
        ));
    }
    out
}

/// The eight big-endian bytes of one marker.
pub open spec fn spec_u64_bytes(x: u64) -> Seq<u8> {
    seq![
        (x >> 56) as u8,
        (x >> 48) as u8,
        (x >> 40) as u8,
        (x >> 32) as u8,
        (x >> 24) as u8,
        (x >> 16) as u8,
        (x >> 8) as u8,
        x as u8,
    ]
}

/// The marker read back from eight big-endian bytes.
pub open spec fn spec_u64_of_bytes(b: Seq<u8>) -> u64
    recommends
        b.len() == 8,
{
    ((b[0] as u64) << 56) | ((b[1] as u64) << 48) | ((b[2] as u64) << 40) | ((b[3] as u64) << 32)
        | ((b[4] as u64) << 24) | ((b[5] as u64) << 16) | ((b[6] as u64) << 8) | (b[7] as u64)
}

/// The byte encoding of a marker sequence: eight big-endian bytes per
/// marker, in order.
pub open spec fn spec_encoded_markers(m: Seq<u64>) -> Seq<u8>
    decreases m.len(),
{
    if m.len() == 0 {
        Seq::empty()
    } else {
        spec_encoded_markers(m.drop_last()) + spec_u64_bytes(m.last())
    }
}

/// The marker sequence read back from its byte encoding.
pub open spec fn spec_decoded_markers(b: Seq<u8>) -> Seq<u64> {
    Seq::new((b.len() / 8) as nat, |i: int| spec_u64_of_bytes(b.subrange(8 * i, 8 * i + 8)))
}

/// Reading eight big-endian bytes back gives the marker they encode.
proof fn lemma_u64_bytes_roundtrip(x: u64)
    ensures
        spec_u64_of_bytes(spec_u64_bytes(x)) == x,
{
    assert((((x >> 56) as u8) as u64) << 56 | (((x >> 48) as u8) as u64) << 48 | (((x >> 40) as u8)
        as u64) << 40 | (((x >> 32) as u8) as u64) << 32 | (((x >> 24) as u8) as u64) << 24 | (((x
        >> 16) as u8) as u64) << 16 | (((x >> 8) as u8) as u64) << 8 | ((x as u8) as u64) == x)
        by (bit_vector);
}

/// The encoding is eight bytes per marker.
pub proof fn lemma_encoded_markers_len(m: Seq<u64>)
    ensures
        spec_encoded_markers(m).len() == 8 * m.len(),
    decreases m.len(),
{
    if m.len() > 0 {
        lemma_encoded_markers_len(m.drop_last());
    }
}

/// The eight bytes of marker `i` sit at offset `8 * i` of the encoding.
proof fn lemma_encoded_markers_slice(m: Seq<u64>, i: int)
    requires
        0 <= i < m.len(),
    ensures
        spec_encoded_markers(m).subrange(8 * i, 8 * i + 8) == spec_u64_bytes(m[i]),
    decreases m.len(),
{
    lemma_encoded_markers_len(m);
    lemma_encoded_markers_len(m.drop_last());
    if i == m.len() - 1 {
        assert(spec_encoded_markers(m).subrange(8 * i, 8 * i + 8) == spec_u64_bytes(m.last()));
    } else {
        lemma_encoded_markers_slice(m.drop_last(), i);
        assert(spec_encoded_markers(m).subrange(8 * i, 8 * i + 8) == spec_encoded_markers(
            m.drop_last(),
        ).subrange(8 * i, 8 * i + 8));
    }
}

/// Round trip: decoding an encoded marker sequence gives it back.
pub proof fn lemma_markers_roundtrip(m: Seq<u64>)
    ensures
        spec_decoded_markers(spec_encoded_markers(m)) == m,
{
    lemma_encoded_markers_len(m);
    let d = spec_decoded_markers(spec_encoded_markers(m));
    assert forall|i: int| 0 <= i < m.len() implies d[i] == m[i] by {
        lemma_encoded_markers_slice(m, i);
        lemma_u64_bytes_roundtrip(m[i]);
    }
    assert(d =~= m);
}

/// Encode a marker sequence as bytes, eight big-endian bytes per marker.
pub fn encode_markers(markers: &Vec<u64>) -> (r: Vec<u8>)
    ensures
        r@ == spec_encoded_markers(markers@),
{
    let mut out: Vec<u8> = Vec::new();
    let mut i: usize = 0;
    proof {
        assert(markers@.take(0) == Seq::<u64>::empty());
    }
    while i < markers.len()
        invariant
            i <= markers@.len(),
            out@ == spec_encoded_markers(markers@.take(i as int)),
        decreases markers@.len() - i,
    {
        let x = markers[i];
        out.push((x >> 56) as u8);
        out.push((x >> 48) as u8);
        out.push((x >> 40) as u8);
        out.push((x >> 32) as u8);
        out.push((x >> 24) as u8);
        out.push((x >> 16) as u8);
        out.push((x >> 8) as u8);
        out.push(x as u8);
        proof {
            assert(markers@.take(i + 1).drop_last() == markers@.take(i as int));
            assert(markers@.take(i + 1).last() == markers@[i as int]);
            assert(out@ == spec_encoded_markers(markers@.take(i as int)) + spec_u64_bytes(
                markers@[i as int],
            ));
        }
        i = i + 1;
    }
    proof {
        assert(markers@.take(markers@.len() as int) == markers@);
    }
    out
}

/// Decode a marker byte blob. Returns `None` exactly when the length is
/// not a multiple of eight.
pub fn decode_markers(bytes: &Vec<u8>) -> (r: Option<Vec<u64>>)
    ensures
        match r {
            Some(v) => bytes@.len() % 8 == 0 && v@ == spec_decoded_markers(bytes@),
            None => bytes@.len() % 8 != 0,
        },
{
    let len = bytes.len();
    if len % 8 != 0 {
        return None;
    }
    let mut out: Vec<u64> = Vec::new();
    let mut base: usize = 0;
    while base < len
        invariant
            len == bytes@.len(),
            len % 8 == 0,
            base <= len,
            base == out@.len() * 8,
            forall|j: int|
                0 <= j < out@.len() ==> #[trigger] out@[j] == spec_u64_of_bytes(
                    bytes@.subrange(8 * j, 8 * j + 8),
                ),
        decreases len - base,
    {
        let x: u64 = ((bytes[base] as u64) << 56) | ((bytes[base + 1] as u64) << 48) | ((bytes[base
            + 2] as u64) << 40) | ((bytes[base + 3] as u64) << 32) | ((bytes[base + 4] as u64)
            << 24) | ((bytes[base + 5] as u64) << 16) | ((bytes[base + 6] as u64) << 8) | (
        bytes[base + 7] as u64);
        proof {
            let j = out@.len() as int;
            assert(bytes@.subrange(8 * j, 8 * j + 8)[0] == bytes@[8 * j]);
        }
        out.push(x);
        base = base + 8;
    }
    proof {
        assert(out@ =~= spec_decoded_markers(bytes@));
    }
    Some(out)
}

/// The number of windows a signal of `len` samples splits into.
pub open spec fn spec_num_chunks(len: int, window: int) -> int {
    (len + window - 1) / window
}

/// The largest sample in `s[lo, hi)`.
pub open spec fn spec_max_range(s: Seq<u8>, lo: int, hi: int) -> u8
    decreases hi - lo when 0 <= lo < hi <= s.len()
{
    if hi <= lo + 1 {
        s[lo]
    } else {
        let m = spec_max_range(s, lo, hi - 1);
        if s[hi - 1] > m {
            s[hi - 1]
        } else {
            m
        }
    }
}

/// The waveform envelope of a signal: one peak per window of `window`
/// samples, the last window possibly shorter.
pub open spec fn spec_envelope(s: Seq<u8>, window: int) -> Seq<u8> {
    Seq::new(
        spec_num_chunks(s.len() as int, window) as nat,
        |i: int|
            spec_max_range(
                s,
                i * window,
                if (i + 1) * window <= s.len() {
                    (i + 1) * window
                } else {
                    s.len() as int
                },
            ),
    )
}

/// Downsampled waveform envelope: the signal is split into windows of
/// `window` samples (the last window may be shorter) and each window is
/// represented by its peak.
pub fn analyze_audio_waveform(samples: &Vec<u8>, window: usize) -> (r: Vec<u8>)
    requires
        window >= 1,
    ensures
        r@ == spec_envelope(samples@, window as int),
{
    let len = samples.len();
    let mut out: Vec<u8> = Vec::new();
    let mut lo: usize = 0;
    let ghost w = window as int;
    proof {
        assert(out@.len() * w == 0) by (nonlinear_arith)
            requires
                out@.len() == 0,
        ;
        if len == 0 {
            lemma_div_multiples_vanish_fancy(0, w - 1, w);
            assert(w * 0 + (w - 1) == 0 + w - 1);
        }
    }
    while lo < len
        invariant
            window >= 1,
            w == window as int,
            len == samples@.len(),
            lo <= len,
            lo < len ==> lo == out@.len() * w,
            out@.len() == if lo == len {
                spec_num_chunks(len as int, w)
            } else {
                lo as int / w
            },
            forall|i: int|
                0 <= i < out@.len() ==> #[trigger] out@[i] == spec_max_range(
                    samples@,
                    i * w,
                    if (i + 1) * w <= len {
                        (i + 1) * w
                    } else {
                        len as int
                    },
                ),
        decreases len - lo,
    {
        let ghost n0 = out@.len() as int;
        let hi = if len - lo > window {
            lo + window
        } else {
            len
        };
        let mut m: u8 = samples[lo];
        let mut j: usize = lo + 1;
        while j < hi
            invariant
                len == samples@.len(),
                lo < j <= hi <= len,
                m == spec_max_range(samples@, lo as int, j as int),
            decreases hi - j,
        {
            if samples[j] > m {
                m = samples[j];
            }
            j = j + 1;
        }
        out.push(m);
        proof {
            assert((n0 + 1) * w == lo + w) by (nonlinear_arith)
                requires
                    lo as int == n0 * w,
            ;
            assert(out@[n0] == spec_max_range(
                samples@,
                n0 * w,
                if (n0 + 1) * w <= len {
                    (n0 + 1) * w
                } else {
                    len as int
                },
            ));
            if hi == len {
                let b = len - 1 - n0 * w;
                lemma_div_multiples_vanish_fancy(n0 + 1, b, w);
                assert(w * (n0 + 1) + b == len + w - 1) by (nonlinear_arith)
                    requires
                        lo as int == n0 * w,
                        b == len - 1 - n0 * w,
                ;
                assert(spec_num_chunks(len as int, w) == n0 + 1);
            } else {
                lemma_div_multiples_vanish(n0 + 1, w);
                assert(w * (n0 + 1) == hi as int) by (nonlinear_arith)
                    requires
                        lo as int == n0 * w,
                        hi as int == lo + w,
                ;
            }
        }
        lo = hi;
    }
    proof {
        assert(out@ =~= spec_envelope(samples@, w));
    }
    out
}

} // verus!
