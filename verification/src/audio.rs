//! Audio preprocessing: framing, channel downmix, and sample-rate
//! conversion to the 16 kHz mono format the codec expects.
//!
//! File parsing is an external collaborator; callers hand this module plain
//! PCM samples together with the channel count and sample rate they read
//! from the container.  All arithmetic here is exact integer arithmetic:
//! the downmix averages channels with truncation toward zero, and the
//! resampler interpolates linearly on exact rationals, truncating toward
//! zero — adequate for voice intelligibility.

use vstd::prelude::*;

use vstd::arithmetic::div_mod::lemma_div_is_ordered;
use vstd::arithmetic::div_mod::lemma_div_of0;
use vstd::arithmetic::div_mod::lemma_div_pos_is_pos;
use vstd::arithmetic::div_mod::lemma_fundamental_div_mod;
use vstd::arithmetic::div_mod::lemma_mod_bound;
use vstd::arithmetic::div_mod::lemma_multiply_divide_le;
use vstd::arithmetic::mul::lemma_mul_inequality;

verus! {

/// How many chunks of `size` cover `n` items, a trailing partial chunk
/// included.
pub open spec fn chunk_count(n: int, size: int) -> int {
    n / size + if n % size == 0 {
        0int
    } else {
        1int
    }
}

/// The `i`-th frame of a sample sequence: 320 samples, except that a
/// trailing frame may be shorter.
pub open spec fn frame_at(s: Seq<i16>, i: int) -> Seq<i16> {
    s.subrange(
        320 * i,
        if 320 * i + 320 <= s.len() {
            320 * i + 320
        } else {
            s.len() as int
        },
    )
}

/// Sum of the samples `s[lo..hi]`.
pub open spec fn sample_sum(s: Seq<i16>, lo: int, hi: int) -> int
    decreases hi - lo,
{
    if lo >= hi {
        0
    } else {
        sample_sum(s, lo, hi - 1) + s[hi - 1]
    }
}

/// Integer division truncating toward zero, as machine division does.
pub open spec fn div_trunc(a: int, b: int) -> int {
    if a >= 0 {
        a / b
    } else {
        -((-a) / b)
    }
}

/// The `i`-th downmixed sample: the sum of the `i`-th chunk of `ch`
/// channel samples, divided by `ch` with truncation toward zero.  A
/// trailing partial chunk is still divided by the full channel count.
pub open spec fn mono_sample(s: Seq<i16>, ch: int, i: int) -> int {
    let lo = ch * i;
    let hi = if ch * i + ch <= s.len() {
        ch * i + ch
    } else {
        s.len() as int
    };
    div_trunc(sample_sum(s, lo, hi), ch)
}

/// The downmix of interleaved `ch`-channel samples to mono.
pub open spec fn mono_of(s: Seq<i16>, ch: int) -> Seq<i16> {
    Seq::new(chunk_count(s.len() as int, ch) as nat, |i: int| mono_sample(s, ch, i) as i16)
}

/// The `i`-th output sample of linear resampling: the source position is
/// the exact rational `i * from / to`; the sample is interpolated between
/// its two neighbours and truncated toward zero.  Positions at or past the
/// last source sample copy the last sample.
pub open spec fn resample_sample(s: Seq<i16>, from: int, to: int, i: int) -> int {
    let idx = (i * from) / to;
    if idx >= s.len() - 1 {
        s[s.len() - 1] as int
    } else {
        let rem = (i * from) % to;
        div_trunc(s[idx] * to + (s[idx + 1] - s[idx]) * rem, to)
    }
}

/// Linear resampling from `from` Hz to `to` Hz; the identity when the rates
/// agree.
pub open spec fn resample_of(s: Seq<i16>, from: int, to: int) -> Seq<i16> {
    if from == to {
        s
    } else {
        Seq::new(((s.len() * to) / from) as nat, |i: int| resample_sample(s, from, to, i) as i16)
    }
}

/// Preprocessed audio: PCM samples and the metadata of the file they came
/// from.
#[derive(Debug)]
pub struct AudioData {
    /// PCM samples as 16-bit signed integers, 16 kHz mono.
    pub samples: Vec<i16>,
    /// Original sample rate of the input file.
    pub original_sample_rate: u32,
    /// Number of channels in the original file.
    pub original_channels: u16,
}

/// Extending a sum by one sample on the right.
proof fn lemma_sample_sum_step(s: Seq<i16>, lo: int, hi: int)
    requires
        lo <= hi < s.len(),
    ensures
        sample_sum(s, lo, hi + 1) == sample_sum(s, lo, hi) + s[hi],
{
}

/// Bounds on a sum of 16-bit samples.
proof fn lemma_sample_sum_bounds(s: Seq<i16>, lo: int, hi: int)
    requires
        0 <= lo <= hi,
        hi <= s.len(),
    ensures
        -32768 * (hi - lo) <= sample_sum(s, lo, hi) <= 32767 * (hi - lo),
    decreases hi - lo,
{
    if lo < hi {
        lemma_sample_sum_bounds(s, lo, hi - 1);
    }
}

/// Any chunk index starts strictly inside the data.
proof fn lemma_chunk_start_lt(n: int, ch: int, i: int)
    requires
        1 <= ch,
        0 <= i < chunk_count(n, ch),
    ensures
        ch * i < n,
        i * ch < n,
{
    lemma_fundamental_div_mod(n, ch);
    let q = n / ch;
    let rm = n % ch;
    lemma_mod_bound(n, ch);
    if rm == 0 {
        lemma_mul_inequality(i, q - 1, ch);
        assert((q - 1) * ch == ch * q - ch && i * ch == ch * i) by (nonlinear_arith);
    } else {
        lemma_mul_inequality(i, q, ch);
        assert(q * ch == ch * q && i * ch == ch * i) by (nonlinear_arith);
    }
}

/// Chunking never yields more chunks than items.
proof fn lemma_chunk_count_le(n: int, ch: int)
    requires
        0 <= n,
        1 <= ch,
    ensures
        chunk_count(n, ch) <= n,
{
    lemma_fundamental_div_mod(n, ch);
    lemma_mod_bound(n, ch);
    lemma_div_pos_is_pos(n, ch);
    let q = n / ch;
    let rm = n % ch;
    if rm == 0 {
        assert(q <= n) by (nonlinear_arith)
            requires
                n == ch * q + rm,
                rm == 0,
                ch >= 1,
                q >= 0,
        ;
    } else {
        assert(q + 1 <= n) by (nonlinear_arith)
            requires
                n == ch * q + rm,
                rm >= 1,
                ch >= 1,
                q >= 0,
        ;
    }
}

/// An index below `a / d` scales to strictly below `a`.
proof fn lemma_mul_div_lt(a: int, d: int, i: int)
    requires
        1 <= d,
        0 <= i < a / d,
    ensures
        d * i < a,
        i * d < a,
{
    lemma_fundamental_div_mod(a, d);
    lemma_mod_bound(a, d);
    lemma_mul_inequality(i, a / d - 1, d);
    assert((a / d - 1) * d == d * (a / d) - d && i * d == d * i) by (nonlinear_arith);
}

impl AudioData {
    /// The audio cut into frames: every frame holds exactly
    /// `SAMPLES_PER_FRAME` samples except that the last one may be shorter
    /// when the length is not a multiple of the frame size.
    #[verifier::loop_isolation(false)]
    pub fn frames(&self) -> (r: Vec<Vec<i16>>)
        ensures
            r@.len() == chunk_count(self.samples@.len() as int, 320),
            forall|i: int| 0 <= i < r@.len() ==> #[trigger] r@[i]@ == frame_at(self.samples@, i),
    {
        let len: usize = self.samples.len();
        proof {
            lemma_chunk_count_le(len as int, 320);
        }
        let count: usize = len / 320 + (if len % 320 == 0 {
            0
        } else {
            1
        });
        let mut r: Vec<Vec<i16>> = Vec::new();
        let mut i: usize = 0;
        while i < count
            invariant
                i <= count,
                r@.len() == i,
                forall|k: int| 0 <= k < i ==> #[trigger] r@[k]@ == frame_at(self.samples@, k),
            decreases count - i,
        {
            proof {
                lemma_chunk_start_lt(len as int, 320, i as int);
            }
            let lo: usize = i * 320;
            let hi: usize = if len - lo >= 320 {
                lo + 320
            } else {
                len
            };
            let mut frame: Vec<i16> = Vec::new();
            let mut j: usize = lo;
            while j < hi
                invariant
                    lo <= j <= hi <= len,
                    frame@ == self.samples@.subrange(lo as int, j as int),
                decreases hi - j,
            {
                frame.push(self.samples[j]);
                proof {
                    assert(frame@ =~= self.samples@.subrange(lo as int, j + 1));
                }
                j += 1;
            }
            proof {
                assert(frame@ =~= frame_at(self.samples@, i as int));
            }
            r.push(frame);
            i += 1;
        }
        r
    }

    /// The number of frames the audio yields, a trailing partial frame
    /// counted.
    pub fn frame_count(&self) -> (r: usize)
        ensures
            r == chunk_count(self.samples@.len() as int, 320),
    {
        let len: usize = self.samples.len();
        proof {
            lemma_chunk_count_le(len as int, 320);
        }
        len / 320 + (if len % 320 == 0 {
            0
        } else {
            1
        })
    }
}

/// Converts interleaved multi-channel audio to mono by averaging the
/// channels of each chunk, truncating toward zero.
#[verifier::loop_isolation(false)]
#[verifier::rlimit(60)]
pub fn convert_to_mono(samples: &[i16], channels: usize) -> (r: Vec<i16>)
    requires
        1 <= channels <= 65535,
    ensures
        r@ == mono_of(samples@, channels as int),
{
    let len: usize = samples.len();
    proof {
        lemma_chunk_count_le(len as int, channels as int);
    }
    let count: usize = len / channels + (if len % channels == 0 {
        0
    } else {
        1
    });
    let mut mono: Vec<i16> = Vec::new();
    let mut i: usize = 0;
    while i < count
        invariant
            i <= count,
            mono@.len() == i,
            forall|k: int|
                0 <= k < i ==> mono@[k] == mono_sample(samples@, channels as int, k) as i16,
        decreases count - i,
    {
        proof {
            lemma_chunk_start_lt(len as int, channels as int, i as int);
        }
        let lo: usize = i * channels;
        let hi: usize = if len - lo >= channels {
            lo + channels
        } else {
            len
        };
        let ghost glo = lo as int;
        let mut total: i32 = 0;
        let mut j: usize = lo;
        while j < hi
            invariant
                lo <= j <= hi <= len,
                hi - lo <= channels,
                total == sample_sum(samples@, glo, j as int),
                -32768 * (j - lo) <= total <= 32767 * (j - lo),
            decreases hi - j,
        {
            proof {
                lemma_sample_sum_step(samples@, glo, j as int);
                lemma_sample_sum_bounds(samples@, glo, j + 1);
            }
            total = total + samples[j] as i32;
            j += 1;
        }
        let avg: i16 = if total >= 0 {
            proof {
                lemma_multiply_divide_le(total as int, channels as int, 32767);
            }
            let q: u32 = (total as u32) / (channels as u32);
            q as i16
        } else {
            proof {
                lemma_multiply_divide_le((-total) as int, channels as int, 32768);
            }
            let q: u32 = ((-total) as u32) / (channels as u32);
            (-(q as i32)) as i16
        };
        proof {
            assert(avg == mono_sample(samples@, channels as int, i as int) as i16);
        }
        mono.push(avg);
        i += 1;
    }
    proof {
        assert(mono@ =~= mono_of(samples@, channels as int));
    }
    mono
}

/// Minimum of two 16-bit samples, as a spec value.
pub open spec fn min_i16(a: i16, b: i16) -> int {
    if a <= b {
        a as int
    } else {
        b as int
    }
}

/// Maximum of two 16-bit samples, as a spec value.
pub open spec fn max_i16(a: i16, b: i16) -> int {
    if a <= b {
        b as int
    } else {
        a as int
    }
}

/// An interpolated value lies between its two endpoints, scaled by the
/// denominator.
proof fn lemma_lerp_bounds(s0: i16, s1: i16, rem: int, to: int)
    requires
        0 <= rem < to,
    ensures
        min_i16(s0, s1) * to <= s0 * to + (s1 - s0) * rem <= max_i16(s0, s1) * to,
{
    if s0 <= s1 {
        assert((s1 - s0) * rem >= 0 && (s1 - s0) * rem <= (s1 - s0) * to) by (nonlinear_arith)
            requires
                s1 - s0 >= 0,
                0 <= rem <= to,
        ;
        assert(s0 * to + (s1 - s0) * to == s1 * to) by (nonlinear_arith);
    } else {
        assert((s1 - s0) * rem <= 0 && (s1 - s0) * rem >= (s1 - s0) * to) by (nonlinear_arith)
            requires
                s1 - s0 <= 0,
                0 <= rem <= to,
        ;
        assert(s0 * to + (s1 - s0) * to == s1 * to) by (nonlinear_arith);
    }
}

/// Truncating division keeps a value between bounds given as multiples of
/// the divisor.
proof fn lemma_div_trunc_bounds(a: int, b: int, lo: int, hi: int)
    requires
        1 <= b,
        lo * b <= a,
        a <= hi * b,
    ensures
        lo <= div_trunc(a, b) <= hi,
{
    if a >= 0 {
        assert(a <= b * hi) by (nonlinear_arith)
            requires
                a <= hi * b,
        ;
        lemma_multiply_divide_le(a, b, hi);
        if lo > 0 {
            lemma_div_is_ordered(lo * b, a, b);
            vstd::arithmetic::div_mod::lemma_div_multiples_vanish(lo, b);
            assert((lo * b) / b == (b * lo) / b) by (nonlinear_arith);
        } else {
            lemma_div_pos_is_pos(a, b);
        }
    } else {
        assert(-a <= b * (-lo)) by (nonlinear_arith)
            requires
                lo * b <= a,
        ;
        lemma_multiply_divide_le(-a, b, -lo);
        if hi < 0 {
            assert((-hi) * b <= -a) by (nonlinear_arith)
                requires
                    a <= hi * b,
            ;
            lemma_div_is_ordered((-hi) * b, -a, b);
            vstd::arithmetic::div_mod::lemma_div_multiples_vanish(-hi, b);
            assert(((-hi) * b) / b == (b * (-hi)) / b) by (nonlinear_arith);
        } else {
            lemma_div_pos_is_pos(-a, b);
        }
    }
}

/// Resamples audio by linear interpolation on exact rationals, truncating
/// toward zero; returns the input unchanged when the rates agree.
#[verifier::loop_isolation(false)]
#[verifier::rlimit(100)]
pub fn resample_linear(samples: &[i16], from_rate: u32, to_rate: u32) -> (r: Vec<i16>)
    requires
        1 <= from_rate,
        1 <= to_rate,
        samples@.len() * to_rate <= usize::MAX,
    ensures
        r@ == resample_of(samples@, from_rate as int, to_rate as int),
{
    let len: usize = samples.len();
    if from_rate == to_rate {
        let mut copy: Vec<i16> = Vec::new();
        let mut i: usize = 0;
        while i < len
            invariant
                i <= len,
                copy@ == samples@.subrange(0, i as int),
            decreases len - i,
        {
            copy.push(samples[i]);
            proof {
                assert(copy@ =~= samples@.subrange(0, i + 1));
            }
            i += 1;
        }
        proof {
            assert(copy@ =~= samples@);
        }
        return copy;
    }

    let new_len: usize = (len * (to_rate as usize)) / (from_rate as usize);
    let mut out: Vec<i16> = Vec::new();
    let mut i: usize = 0;
    while i < new_len
        invariant
            i <= new_len,
            out@.len() == i,
            forall|k: int|
                0 <= k < i ==> out@[k] == resample_sample(
                    samples@,
                    from_rate as int,
                    to_rate as int,
                    k,
                ) as i16,
        decreases new_len - i,
    {
        proof {
            lemma_mul_div_lt((len * to_rate) as int, from_rate as int, i as int);
            if len == 0 {
                assert((len as int) * (to_rate as int) == 0) by (nonlinear_arith)
                    requires
                        len == 0,
                ;
                lemma_div_of0(from_rate as int);
                assert(false);
            }
        }
        let scaled: usize = i * (from_rate as usize);
        let idx: usize = scaled / (to_rate as usize);
        let rem: usize = scaled % (to_rate as usize);
        proof {
            lemma_mod_bound(scaled as int, to_rate as int);
        }
        if idx >= len - 1 {
            out.push(samples[len - 1]);
        } else {
            let s0: i16 = samples[idx];
            let s1: i16 = samples[idx + 1];
            proof {
                assert(-0x800000000000 <= (s0 as int) * (to_rate as int) <= 0x800000000000)
                    by (nonlinear_arith)
                    requires
                        -32768 <= s0 <= 32767,
                        1 <= (to_rate as int) <= 0x100000000,
                ;
                assert(-0x1000000000000 <= ((s1 as int) - (s0 as int)) * (rem as int)
                    <= 0x1000000000000) by (nonlinear_arith)
                    requires
                        -32768 <= s0 <= 32767,
                        -32768 <= s1 <= 32767,
                        0 <= (rem as int) <= 0x100000000,
                ;
            }
            let num: i64 = (s0 as i64) * (to_rate as i64) + ((s1 as i64) - (s0 as i64)) * (
            rem as i64);
            proof {
                lemma_lerp_bounds(s0, s1, rem as int, to_rate as int);
                lemma_div_trunc_bounds(num as int, to_rate as int, min_i16(s0, s1), max_i16(s0, s1));
            }
            let q: i64 = if num >= 0 {
                (((num as u64) / (to_rate as u64))) as i64
            } else {
                -((((-num) as u64) / (to_rate as u64)) as i64)
            };
            proof {
                assert(q == div_trunc(num as int, to_rate as int));
            }
            out.push(q as i16);
        }
        i += 1;
    }
    proof {
        assert(out@ =~= resample_of(samples@, from_rate as int, to_rate as int));
    }
    out
}

/// Converts raw interleaved samples to the target format: downmix to mono
/// when the file had several channels, then resample to 16 kHz when the
/// file's rate differs.
pub fn convert_to_target_format(samples: &[i16], channels: u16, sample_rate: u32) -> (r: Vec<i16>)
    requires
        1 <= channels,
        1 <= sample_rate,
        samples@.len() * 16000 <= usize::MAX,
    ensures
        ({
            let mono = if channels > 1 {
                mono_of(samples@, channels as int)
            } else {
                samples@
            };
            r@ == resample_of(mono, sample_rate as int, 16000)
        }),
{
    let mono: Vec<i16> = if channels > 1 {
        proof {
            lemma_chunk_count_le(samples@.len() as int, channels as int);
        }
        convert_to_mono(samples, channels as usize)
    } else {
        let mut copy: Vec<i16> = Vec::new();
        let mut i: usize = 0;
        while i < samples.len()
            invariant
                i <= samples@.len(),
                copy@ == samples@.subrange(0, i as int),
            decreases samples@.len() - i,
        {
            copy.push(samples[i]);
            proof {
                assert(copy@ =~= samples@.subrange(0, i + 1));
            }
            i += 1;
        }
        proof {
            assert(copy@ =~= samples@);
        }
        copy
    };
    proof {
        lemma_mul_inequality(mono@.len() as int, samples@.len() as int, 16000);
    }
    if sample_rate != 16000 {
        resample_linear(mono.as_slice(), sample_rate, 16000)
    } else {
        mono
    }
}

} // verus!
