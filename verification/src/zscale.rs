use vstd::prelude::*;

verus! {

/// The mark of a pixel that is kept in the fit.
pub const GOOD_PIXEL: i32 = 0;

/// The first `k` terms of the convolution at position `h`: the sum of
/// `t[h - m] * f[m]` for `m` below `k` and at most `h`.
pub open spec fn conv_sum(t: Seq<i32>, f: Seq<i32>, h: int, k: nat) -> int
    decreases k,
{
    if k == 0 {
        0
    } else {
        conv_sum(t, f, h, (k - 1) as nat) + (if k - 1 <= h { t[h - (k - 1)] * f[k - 1] } else { 0int })
    }
}

/// The convolution of `t` by `f`, as long as `t`: position `h` holds the sum
/// of `t[h - m] * f[m]` for every `m` of `f` up to `h`.
pub open spec fn convolution(t: Seq<i32>, f: Seq<i32>) -> Seq<int> {
    Seq::new(t.len(), |h: int| conv_sum(t, f, h, f.len()))
}

/// Every product and every partial sum of the convolution fits an `i32`:
/// for each position `h`, the `k`-th term and the sum of the first `k`.
pub open spec fn convolution_fits(t: Seq<i32>, f: Seq<i32>) -> bool {
    forall|h: int, k: nat| 0 <= h < t.len() && 1 <= k <= f.len() && k <= h + 1 ==> {
        &&& i32::MIN <= t[h - (k - 1)] * f[k - 1] <= i32::MAX
        &&& i32::MIN <= #[trigger] conv_sum(t, f, h, k) <= i32::MAX
    }
}

/// Past position `h`, the terms add nothing.
proof fn lemma_conv_sum_past(t: Seq<i32>, f: Seq<i32>, h: int, k: nat, j: nat)
    requires
        0 <= h,
        h + 1 <= k <= j,
    ensures
        conv_sum(t, f, h, j) == conv_sum(t, f, h, k),
    decreases j - k,
{
    if k < j {
        lemma_conv_sum_past(t, f, h, k, (j - 1) as nat);
    }
}

/// Convolve `target` by `filter`: each position of the result is the sum of
/// `target[head - m] * filter[m]` for every `m` of the filter up to `head`.
pub fn convolve(target: Vec<i32>, filter: Vec<i32>) -> (r: Vec<i32>)
    requires
        convolution_fits(target@, filter@),
    ensures
        r@.len() == target@.len(),
        forall|h: int| 0 <= h < r@.len() ==> r@[h] as int == #[trigger] convolution(target@, filter@)[h],
{
    let mut ret: Vec<i32> = Vec::new();
    let mut head: usize = 0;
    while head < target.len()
        invariant
            head <= target@.len(),
            ret@.len() == head,
            convolution_fits(target@, filter@),
            forall|h: int| 0 <= h < head ==> ret@[h] as int == #[trigger] convolution(target@, filter@)[h],
        decreases target@.len() - head,
    {
        let mut data: i32 = 0;
        let mut m: usize = 0;
        while m < filter.len() && m <= head
            invariant
                m <= filter@.len(),
                m <= head + 1,
                head < target@.len(),
                convolution_fits(target@, filter@),
                data as int == conv_sum(target@, filter@, head as int, m as nat),
            decreases filter@.len() - m,
        {
            assert(i32::MIN <= conv_sum(target@, filter@, head as int, (m + 1) as nat) <= i32::MAX);
            assert(i32::MIN <= target@[head - m] * filter@[m as int] <= i32::MAX);
            data = data + target[head - m] * filter[m];
            m = m + 1;
        }
        proof {
            if m < filter@.len() {
                lemma_conv_sum_past(target@, filter@, head as int, m as nat, filter@.len());
            }
        }
        ret.push(data);
        head = head + 1;
    }
    ret
}

/// The number of pixels marked good.
pub open spec fn good_count(badpix: Seq<i32>) -> nat
    decreases badpix.len(),
{
    if badpix.len() == 0 {
        0
    } else {
        good_count(badpix.drop_last()) + (if badpix.last() == GOOD_PIXEL { 1nat } else { 0nat })
    }
}

proof fn lemma_good_count_bound(badpix: Seq<i32>)
    ensures
        good_count(badpix) <= badpix.len(),
    decreases badpix.len(),
{
    if badpix.len() > 0 {
        lemma_good_count_bound(badpix.drop_last());
    }
}

/// The number of pixels marked good, as a 32-bit signed integer (wrapping).
pub fn count_good_pixels(badpix: &Vec<i32>) -> (r: i32)
    ensures
        r == good_count(badpix@) as i32,
{
    let mut n: usize = 0;
    let mut k: usize = 0;
    while k < badpix.len()
        invariant
            k <= badpix@.len(),
            n as nat == good_count(badpix@.take(k as int)),
            n <= k,
        decreases badpix@.len() - k,
    {
        proof {
            assert(badpix@.take(k + 1).drop_last() =~= badpix@.take(k as int));
        }
        if badpix[k] == GOOD_PIXEL {
            n = n + 1;
        }
        k = k + 1;
    }
    assert(badpix@.take(k as int) =~= badpix@);
    n as i32
}

} // verus!
