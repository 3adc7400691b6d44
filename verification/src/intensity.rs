//! Intensity windowing: the sample range of a raw 16-bit buffer and the
//! mapping of one sample into an 8-bit gray level.

use vstd::prelude::*;

verus! {

/// The 16-bit sample whose little-endian encoding starts at byte `2 * i`.
pub open spec fn sample_at(data: Seq<u8>, i: int) -> u16 {
    (data[2 * i] as int + 256 * (data[2 * i + 1] as int)) as u16
}

/// The samples of a raw buffer, two bytes each; a trailing odd byte holds
/// no sample.
pub open spec fn samples(data: Seq<u8>) -> Seq<u16> {
    Seq::new((data.len() / 2) as nat, |i: int| sample_at(data, i))
}

/// The smallest of the samples, `u16::MAX` when there is none.
pub open spec fn lowest_sample(s: Seq<u16>) -> u16
    decreases s.len(),
{
    if s.len() == 0 {
        u16::MAX
    } else {
        let rest = lowest_sample(s.drop_last());
        if s.last() < rest { s.last() } else { rest }
    }
}

/// The largest of the samples, 0 when there is none.
pub open spec fn highest_sample(s: Seq<u16>) -> u16
    decreases s.len(),
{
    if s.len() == 0 {
        0
    } else {
        let rest = highest_sample(s.drop_last());
        if s.last() > rest { s.last() } else { rest }
    }
}

/// The range found by `get_min_max` bounds every sample, and where there
/// is a sample both ends are samples of the buffer.
pub proof fn lemma_sample_range(s: Seq<u16>)
    ensures
        forall|i: int|
            0 <= i < s.len() ==> lowest_sample(s) <= #[trigger] s[i] <= highest_sample(s),
        s.len() > 0 ==> exists|i: int| 0 <= i < s.len() && s[i] == lowest_sample(s),
        s.len() > 0 ==> exists|i: int| 0 <= i < s.len() && s[i] == highest_sample(s),
        s.len() > 0 ==> lowest_sample(s) <= highest_sample(s),
    decreases s.len(),
{
    if s.len() > 0 {
        let rest = s.drop_last();
        lemma_sample_range(rest);
        let last = s.len() - 1;
        assert forall|i: int| 0 <= i < s.len() implies lowest_sample(s) <= #[trigger] s[i]
            <= highest_sample(s) by {
            if i < last {
                assert(rest[i] == s[i]);
            }
        }
        if rest.len() > 0 {
            let lo = choose|i: int| 0 <= i < rest.len() && rest[i] == lowest_sample(rest);
            let hi = choose|i: int| 0 <= i < rest.len() && rest[i] == highest_sample(rest);
            assert(s[lo] == rest[lo] && s[hi] == rest[hi]);
            if s.last() < lowest_sample(rest) {
                assert(s[last] == lowest_sample(s));
            } else {
                assert(s[lo] == lowest_sample(s));
            }
            if s.last() > highest_sample(rest) {
                assert(s[last] == highest_sample(s));
            } else {
                assert(s[hi] == highest_sample(s));
            }
        } else {
            assert(s[last] == lowest_sample(s));
            assert(s[last] == highest_sample(s));
        }
    }
}

/// Reads the sample at index `i` of a raw buffer.
pub fn read_sample(data: &[u8], i: usize) -> (v: u16)
    requires
        2 * i + 1 < data@.len(),
    ensures
        v == sample_at(data@, i as int),
        v == samples(data@)[i as int],
{
    let len: usize = data.len();
    assert(2 * i + 1 < len);
    let lo: u16 = data[2 * i] as u16;
    let hi: u16 = data[2 * i + 1] as u16;
    lo + 256 * hi
}

/// Scans a whole raw buffer once and returns the smallest and the largest
/// sample as `(min, max)`; `(u16::MAX, 0)` for a buffer without samples.
pub fn get_min_max(data: &[u8]) -> (range: (u16, u16))
    requires
        data@.len() % 2 == 0,
    ensures
        range.0 == lowest_sample(samples(data@)),
        range.1 == highest_sample(samples(data@)),
{
    let mut max: u16 = u16::MIN;
    let mut min: u16 = u16::MAX;
    let count: usize = data.len() / 2;
    let mut i: usize = 0;
    while i < count
        invariant
            data@.len() % 2 == 0,
            count == data@.len() / 2,
            i <= count,
            min == lowest_sample(samples(data@).take(i as int)),
            max == highest_sample(samples(data@).take(i as int)),
        decreases count - i,
    {
        let val = read_sample(data, i);
        proof {
            let next = samples(data@).take(i + 1);
            assert(next.drop_last() =~= samples(data@).take(i as int));
            assert(next.last() == val);
        }
        if val > max {
            max = val;
        }
        if val < min {
            min = val;
        }
        i = i + 1;
    }
    proof {
        assert(samples(data@).take(i as int) =~= samples(data@));
    }
    (min, max)
}

/// The gray level of sample `v` in the window `[min, max]`: the difference
/// to `min`, divided by `max` (not by the width of the window), scaled to
/// 255 and rounded down; levels above 255 are held at 255. A zero `max`
/// maps a zero difference to 0 and any other difference to 255.
pub open spec fn scaled_gray(min: u16, max: u16, v: u16) -> int {
    let d = v - min;
    if max == 0 {
        if d == 0 { 0 } else { 255 }
    } else if d * 255 / (max as int) > 255 {
        255
    } else {
        d * 255 / (max as int)
    }
}

/// Maps one sample into a gray level.
pub fn scale_pix_val(min: u16, max: u16, pix_val: u16) -> (gray: u8)
    requires
        min <= pix_val,
    ensures
        gray == scaled_gray(min, max, pix_val),
{
    let d: u32 = (pix_val - min) as u32;
    if max == 0 {
        if d == 0 { 0 } else { 255 }
    } else {
        let q: u32 = d * 255 / (max as u32);
        if q > 255 { 255 } else { q as u8 }
    }
}

/// Inside its window a sample never needs the hold at 255: the lowest
/// sample maps to 0 and the highest to `(max - min) * 255 / max`, which is
/// below 255 whenever `min` is not 0.
pub proof fn lemma_gray_in_window(min: u16, max: u16, v: u16)
    requires
        min <= v <= max,
    ensures
        scaled_gray(min, max, min) == 0,
        max > 0 ==> scaled_gray(min, max, v) == (v - min) * 255 / (max as int),
        max > 0 ==> scaled_gray(min, max, max) == (max - min) * 255 / (max as int),
        0 <= scaled_gray(min, max, v) <= 255,
        min > 0 ==> scaled_gray(min, max, max) < 255,
{
    if max > 0 {
        let m = max as int;
        let d = (v - min) as int;
        assert(d * 255 / m <= 255) by (nonlinear_arith)
            requires 0 <= d <= m, m > 0;
        assert(d * 255 / m >= 0) by (nonlinear_arith)
            requires 0 <= d, m > 0;
        let w = (max - min) as int;
        assert(w * 255 / m <= 255) by (nonlinear_arith)
            requires 0 <= w <= m, m > 0;
        assert(0int * 255 / m == 0) by (nonlinear_arith)
            requires m > 0;
        if min > 0 {
            assert(w * 255 / m < 255) by (nonlinear_arith)
                requires 0 <= w < m, m > 0;
        }
    }
}

/// In the window of its own buffer, every sample gets the gray level of
/// the plain formula: the lowest one 0, and none is held at 255.
pub proof fn lemma_gray_of_sample(data: Seq<u8>, i: int)
    requires
        0 <= i < samples(data).len(),
    ensures
        ({
            let min = lowest_sample(samples(data));
            let max = highest_sample(samples(data));
            let v = samples(data)[i];
            &&& min <= v <= max
            &&& max > 0 ==> scaled_gray(min, max, v) == (v - min) * 255 / (max as int)
            &&& max == 0 ==> scaled_gray(min, max, v) == 0
            &&& v == min ==> scaled_gray(min, max, v) == 0
        }),
{
    lemma_sample_range(samples(data));
    let min = lowest_sample(samples(data));
    let max = highest_sample(samples(data));
    lemma_gray_in_window(min, max, samples(data)[i]);
}

} // verus!
