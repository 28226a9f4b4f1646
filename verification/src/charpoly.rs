use vstd::prelude::*;

use permutator::Permutation;

verus! {

/// The permutations of `items` in the order in which Heap's algorithm, as the
/// `permutator` crate runs it, gives them: `items` itself first.
pub uninterp spec fn heap_permutations(items: Seq<usize>) -> Seq<Seq<usize>>;

/// Every permutation of `items`, from `permutator`'s `Permutation::permutation`
/// (Heap's algorithm, `items` itself first). Each permutation rearranges
/// `items`: it has as many entries, each taken from `items`.
#[verifier::external_body]
fn permutations_of(items: Vec<usize>) -> (r: Vec<Vec<usize>>)
    ensures
        perm_seqs(r@) == heap_permutations(items@),
        forall|q: int| 0 <= q < r@.len() ==> (#[trigger] r@[q])@.len() == items@.len(),
        forall|q: int, k: int| 0 <= q < r@.len() && 0 <= k < r@[q]@.len() ==> items@.contains(#[trigger] r@[q]@[k]),
{
    let mut items = items;
    items.permutation().collect()
}

/// The views of a list of permutations.
pub open spec fn perm_seqs(perms: Seq<Vec<usize>>) -> Seq<Seq<usize>> {
    Seq::new(perms.len(), |q: int| perms[q]@)
}

/// The numbers from 0 up to `n`, excluded.
pub open spec fn range_seq(n: nat) -> Seq<usize> {
    Seq::new(n, |k: int| k as usize)
}

/// Entry `(x, y)` of the square matrix of side `n` stored row by row in `m`.
pub open spec fn entry(m: Seq<i32>, n: nat, x: int, y: int) -> int {
    m[x * n + y] as int
}

/// Reading the entries `(k, p[k])` for the first `k` rows: the product of the
/// entries read, the number of them equal to -1, and whether a 0 was met
/// (reading stops there).
pub open spec fn scan(m: Seq<i32>, n: nat, p: Seq<usize>, k: nat) -> (int, nat, bool)
    decreases k,
{
    if k == 0 {
        (1, 0, false)
    } else {
        let prev = scan(m, n, p, (k - 1) as nat);
        if prev.2 {
            prev
        } else {
            let e = entry(m, n, k - 1, p[k - 1] as int);
            if e == 0 {
                (prev.0, prev.1, true)
            } else if e == -1 {
                (prev.0 * e, prev.1 + 1, false)
            } else {
                (prev.0 * e, prev.1, false)
            }
        }
    }
}

pub open spec fn in_i32(v: int) -> bool {
    i32::MIN <= v <= i32::MAX
}

/// Every product formed while reading the first `k` rows fits an `i32`.
pub open spec fn scan_fits(m: Seq<i32>, n: nat, p: Seq<usize>, k: nat) -> bool
    decreases k,
{
    k == 0 || (scan_fits(m, n, p, (k - 1) as nat) && in_i32(scan(m, n, p, k).0))
}

/// The terms of the permutations: those with no zero entry are counted, and
/// the product of each, negated when the count is odd, is added to the sum
/// kept for its number of -1 entries. The count and the sums (one for each
/// number from 0 to `n`).
pub open spec fn accumulate(m: Seq<i32>, n: nat, perms: Seq<Seq<usize>>) -> (nat, Seq<int>)
    decreases perms.len(),
{
    if perms.len() == 0 {
        (0, Seq::new(n + 1, |i: int| 0int))
    } else {
        let prev = accumulate(m, n, perms.drop_last());
        let s = scan(m, n, perms.last(), n);
        if s.2 {
            prev
        } else {
            let cnt = prev.0 + 1;
            let signed = if cnt % 2 == 0 { s.0 } else { -s.0 };
            (cnt, prev.1.update(s.1 as int, prev.1[s.1 as int] + signed))
        }
    }
}

/// Every value computed while accumulating the terms fits an `i32`.
pub open spec fn accumulate_fits(m: Seq<i32>, n: nat, perms: Seq<Seq<usize>>) -> bool
    decreases perms.len(),
{
    perms.len() == 0 || {
        let prev = accumulate(m, n, perms.drop_last());
        let s = scan(m, n, perms.last(), n);
        let cnt = prev.0 + 1;
        let signed = if cnt % 2 == 0 { s.0 } else { -s.0 };
        &&& accumulate_fits(m, n, perms.drop_last())
        &&& scan_fits(m, n, perms.last(), n)
        &&& !s.2 ==> cnt <= i32::MAX && in_i32(signed) && in_i32(prev.1[s.1 as int] + signed)
    }
}

pub open spec fn abs(v: int) -> int {
    if v < 0 { -v } else { v }
}

/// The sum of the absolute values.
pub open spec fn abs_total(s: Seq<int>) -> int
    decreases s.len(),
{
    if s.len() == 0 {
        0
    } else {
        abs_total(s.drop_last()) + abs(s.last())
    }
}

/// The whole computation over `perms` fits an `i32`.
pub open spec fn coefs_fit(m: Seq<i32>, n: nat, perms: Seq<Seq<usize>>) -> bool {
    let sums = accumulate(m, n, perms).1;
    &&& accumulate_fits(m, n, perms)
    &&& forall|k: int| 0 <= k < sums.len() ==> #[trigger] sums[k] > i32::MIN
    &&& abs_total(sums) <= i32::MAX
}

/// The sum of the absolute values of the sums of terms.
pub open spec fn coefs_abs_sum(m: Seq<i32>, n: nat, perms: Seq<Seq<usize>>) -> int {
    abs_total(accumulate(m, n, perms).1)
}

/// Once a zero is met, reading more rows changes nothing.
proof fn lemma_scan_stops(m: Seq<i32>, n: nat, p: Seq<usize>, k: nat, j: nat)
    requires
        k <= j,
        scan(m, n, p, k).2,
    ensures
        scan(m, n, p, j) == scan(m, n, p, k),
    decreases j - k,
{
    if k < j {
        lemma_scan_stops(m, n, p, k, (j - 1) as nat);
    }
}

/// The number of -1 entries read is at most the number of rows read.
proof fn lemma_scan_count(m: Seq<i32>, n: nat, p: Seq<usize>, k: nat)
    ensures
        scan(m, n, p, k).1 <= k,
    decreases k,
{
    if k > 0 {
        lemma_scan_count(m, n, p, (k - 1) as nat);
    }
}

/// Fitting for more rows means fitting for fewer.
proof fn lemma_scan_fits_prefix(m: Seq<i32>, n: nat, p: Seq<usize>, k: nat, j: nat)
    requires
        k <= j,
        scan_fits(m, n, p, j),
    ensures
        scan_fits(m, n, p, k),
    decreases j - k,
{
    if k < j {
        lemma_scan_fits_prefix(m, n, p, k, (j - 1) as nat);
    }
}

/// Once a zero is met, every later product fits.
proof fn lemma_scan_fits_stops(m: Seq<i32>, n: nat, p: Seq<usize>, k: nat, j: nat)
    requires
        k <= j,
        scan(m, n, p, k).2,
        scan_fits(m, n, p, k),
    ensures
        scan_fits(m, n, p, j),
    decreases j - k,
{
    if k < j {
        lemma_scan_fits_stops(m, n, p, k, (j - 1) as nat);
        lemma_scan_stops(m, n, p, k, j);
    }
}

/// The sums always number `n + 1`.
proof fn lemma_accumulate_len(m: Seq<i32>, n: nat, perms: Seq<Seq<usize>>)
    ensures
        accumulate(m, n, perms).1.len() == n + 1,
    decreases perms.len(),
{
    if perms.len() > 0 {
        lemma_accumulate_len(m, n, perms.drop_last());
        lemma_scan_count(m, n, perms.last(), n);
    }
}

/// Fitting for a list of permutations means fitting for each prefix.
proof fn lemma_accumulate_fits_prefix(m: Seq<i32>, n: nat, perms: Seq<Seq<usize>>, q: int)
    requires
        0 <= q <= perms.len(),
        accumulate_fits(m, n, perms),
    ensures
        accumulate_fits(m, n, perms.take(q)),
    decreases perms.len() - q,
{
    if q < perms.len() {
        assert(perms.drop_last().take(q) =~= perms.take(q));
        lemma_accumulate_fits_prefix(m, n, perms.drop_last(), q);
    } else {
        assert(perms.take(q) =~= perms);
    }
}

/// The total of absolute values only grows along a list.
proof fn lemma_abs_total_prefix(s: Seq<int>, k: int)
    requires
        0 <= k <= s.len(),
    ensures
        abs_total(s.take(k)) <= abs_total(s),
    decreases s.len() - k,
{
    if k < s.len() {
        assert(s.drop_last().take(k) =~= s.take(k));
        lemma_abs_total_prefix(s.drop_last(), k);
    } else {
        assert(s.take(k) =~= s);
    }
}

/// A permutation that meets a zero entry of the matrix gives a zero term.
proof fn lemma_zero_entry_stops(m: Seq<i32>, n: nat, p: Seq<usize>, x: int)
    requires
        0 <= x < n,
        entry(m, n, x, p[x] as int) == 0,
    ensures
        scan(m, n, p, n).2,
{
    let k = (x + 1) as nat;
    assert(scan(m, n, p, k).2);
    lemma_scan_stops(m, n, p, k, n);
}

/// A zero term neither counts nor adds: putting, anywhere in the list of
/// permutations, one that meets a zero entry of the matrix (row `x`, column
/// `p[x]`) changes neither the sums nor the sign of any later term, so the
/// result is unchanged.
pub proof fn lemma_zero_term_skipped(m: Seq<i32>, n: nat, perms: Seq<Seq<usize>>, k: int, p: Seq<usize>, x: int)
    requires
        0 <= k <= perms.len(),
        0 <= x < n,
        entry(m, n, x, p[x] as int) == 0,
    ensures
        accumulate(m, n, perms.insert(k, p)) == accumulate(m, n, perms),
        coefs_abs_sum(m, n, perms.insert(k, p)) == coefs_abs_sum(m, n, perms),
    decreases perms.len(),
{
    let ins = perms.insert(k, p);
    lemma_zero_entry_stops(m, n, p, x);
    if k == perms.len() {
        assert(ins.drop_last() =~= perms);
        assert(ins.last() == p);
    } else {
        lemma_zero_term_skipped(m, n, perms.drop_last(), k, p, x);
        assert(ins.drop_last() =~= perms.drop_last().insert(k, p));
        assert(ins.last() == perms.last());
    }
}

/// A permutation that meets no zero entry gives a term.
proof fn lemma_no_zero_entry(m: Seq<i32>, n: nat, p: Seq<usize>, k: nat)
    requires
        k <= n,
        forall|x: int| 0 <= x < n ==> entry(m, n, x, #[trigger] p[x] as int) != 0,
    ensures
        !scan(m, n, p, k).2,
    decreases k,
{
    if k > 0 {
        lemma_no_zero_entry(m, n, p, (k - 1) as nat);
        assert(entry(m, n, k - 1, p[k - 1] as int) != 0);
    }
}

/// Consecutive terms are added with opposite signs: following the
/// permutations with the same permutation twice, one that meets no zero
/// entry, counts two more terms and leaves every sum as it was.
pub proof fn lemma_repeated_term_cancels(m: Seq<i32>, n: nat, perms: Seq<Seq<usize>>, p: Seq<usize>)
    requires
        forall|x: int| 0 <= x < n ==> entry(m, n, x, #[trigger] p[x] as int) != 0,
    ensures
        accumulate(m, n, perms.push(p).push(p)).0 == accumulate(m, n, perms).0 + 2,
        accumulate(m, n, perms.push(p).push(p)).1 == accumulate(m, n, perms).1,
{
    lemma_no_zero_entry(m, n, p, n);
    lemma_scan_count(m, n, p, n);
    lemma_accumulate_len(m, n, perms);
    let once = perms.push(p);
    let twice = once.push(p);
    assert(once.drop_last() =~= perms);
    assert(twice.drop_last() =~= once);
    let a = accumulate(m, n, perms);
    let s = scan(m, n, p, n);
    let b = accumulate(m, n, once);
    assert(b.0 == a.0 + 1);
    assert(b.1 == a.1.update(s.1 as int, a.1[s.1 as int] + (if (a.0 + 1) % 2 == 0 { s.0 } else { -s.0 })));
    assert(accumulate(m, n, twice).1 =~= a.1);
}

/// The numbers from 0 up to `n`, excluded.
fn range_vec(n: usize) -> (r: Vec<usize>)
    ensures
        r@ == range_seq(n as nat),
{
    let mut r: Vec<usize> = Vec::new();
    let mut k: usize = 0;
    while k < n
        invariant
            k <= n,
            r@ == range_seq(k as nat),
        decreases n - k,
    {
        r.push(k);
        k = k + 1;
        assert(r@ =~= range_seq(k as nat));
    }
    r
}

/// Read the entries `(k, p[k])` of the matrix row by row, as `scan` does.
/// None when a product overflows.
fn scan_exec(entries: &Vec<i32>, n: usize, p: &Vec<usize>) -> (r: Option<(i32, usize, bool)>)
    requires
        entries@.len() == n * n,
        p@.len() == n,
        forall|k: int| 0 <= k < n ==> #[trigger] p@[k] < n,
    ensures
        r is Some <==> scan_fits(entries@, n as nat, p@, n as nat),
        r matches Some(t) ==> (t.0 as int, t.1 as nat, t.2) == scan(entries@, n as nat, p@, n as nat),
{
    let ghost m = entries@;
    let len = entries.len();
    assert(len == n * n);
    let mut vals: i32 = 1;
    let mut minus: usize = 0;
    let mut zero = false;
    let mut k: usize = 0;
    while k < n && !zero
        invariant
            k <= n,
            entries@.len() == n * n,
            p@.len() == n,
            m == entries@,
            n * n <= usize::MAX,
            forall|j: int| 0 <= j < n ==> #[trigger] p@[j] < n,
            (vals as int, minus as nat, zero) == scan(m, n as nat, p@, k as nat),
            scan_fits(m, n as nat, p@, k as nat),
            minus <= k,
        decreases n - k,
    {
        let y = p[k];
        proof {
            assert(k * n + y < n * n) by (nonlinear_arith)
                requires k < n, y < n;
            assert(k * n <= k * n + y) by (nonlinear_arith)
                requires k < n, y < n;
        }
        let e = entries[k * n + y];
        assert(e as int == entry(m, n as nat, k as int, y as int));
        if e == 0 {
            zero = true;
        } else {
            if e == -1 {
                minus = minus + 1;
            }
            match vals.checked_mul(e) {
                Some(v) => {
                    vals = v;
                },
                None => {
                    proof {
                        assert(!scan_fits(m, n as nat, p@, (k + 1) as nat));
                        if scan_fits(m, n as nat, p@, n as nat) {
                            lemma_scan_fits_prefix(m, n as nat, p@, (k + 1) as nat, n as nat);
                        }
                    }
                    return None;
                },
            }
        }
        k = k + 1;
    }
    proof {
        if zero {
            lemma_scan_stops(m, n as nat, p@, k as nat, n as nat);
            lemma_scan_fits_stops(m, n as nat, p@, k as nat, n as nat);
        }
    }
    Some((vals, minus, zero))
}

/// The sum of the absolute values of the sums that the characteristic
/// polynomial computation forms over the permutations `perms` of the rows
/// of the square matrix of side `n` stored row by row in `entries` (see
/// `accumulate`); none when a value computed overflows an `i32`.
pub fn abs_sum_over_permutations(n: usize, entries: &Vec<i32>, perms: &Vec<Vec<usize>>) -> (r: Option<i32>)
    requires
        entries@.len() == n * n,
        forall|q: int| 0 <= q < perms@.len() ==> (#[trigger] perms@[q])@.len() == n,
        forall|q: int, k: int| 0 <= q < perms@.len() && 0 <= k < n ==> #[trigger] perms@[q]@[k] < n,
    ensures
        r is Some <==> coefs_fit(entries@, n as nat, perm_seqs(perms@)),
        r matches Some(v) ==> v == coefs_abs_sum(entries@, n as nat, perm_seqs(perms@)),
{
    let ghost m = entries@;
    let ghost ps = perm_seqs(perms@);
    let len = entries.len();
    proof {
        assert(n * n <= usize::MAX);
        assert(n + 1 <= usize::MAX) by (nonlinear_arith)
            requires n * n <= usize::MAX;
    }
    let mut sums: Vec<i32> = Vec::new();
    let mut k: usize = 0;
    while k < n + 1
        invariant
            k <= n + 1,
            n + 1 <= usize::MAX,
            sums@.len() == k,
            forall|j: int| 0 <= j < k ==> sums@[j] == 0,
        decreases n + 1 - k,
    {
        sums.push(0);
        k = k + 1;
    }
    let mut counter: i32 = 0;
    let mut q: usize = 0;
    proof {
        assert(ps.take(0) =~= Seq::<Seq<usize>>::empty());
        assert(accumulate(m, n as nat, ps.take(0)).1 =~= sums@.map_values(|v: i32| v as int));
    }
    while q < perms.len()
        invariant
            q <= perms@.len(),
            m == entries@,
            ps == perm_seqs(perms@),
            entries@.len() == n * n,
            forall|q: int| 0 <= q < perms@.len() ==> (#[trigger] perms@[q])@.len() == n,
            forall|q: int, k: int| 0 <= q < perms@.len() && 0 <= k < n ==> #[trigger] perms@[q]@[k] < n,
            sums@.len() == n + 1,
            counter >= 0,
            accumulate(m, n as nat, ps.take(q as int)).0 == counter as nat,
            accumulate(m, n as nat, ps.take(q as int)).1 == sums@.map_values(|v: i32| v as int),
            accumulate_fits(m, n as nat, ps.take(q as int)),
        decreases perms@.len() - q,
    {
        let ghost pre = ps.take(q as int);
        let ghost nxt = ps.take(q + 1);
        proof {
            assert(nxt.drop_last() =~= pre);
            assert(nxt.last() == perms@[q as int]@);
            lemma_accumulate_len(m, n as nat, pre);
        }
        let p = &perms[q];
        assert(forall|k: int| 0 <= k < n ==> #[trigger] p@[k] < n);
        let s = scan_exec(entries, n, p);
        match s {
            None => {
                proof {
                    assert(!accumulate_fits(m, n as nat, nxt));
                    if coefs_fit(m, n as nat, ps) {
                        lemma_accumulate_fits_prefix(m, n as nat, ps, q + 1);
                    }
                }
                return None;
            },
            Some((vals, minus, zero)) => {
                if !zero {
                    proof {
                        lemma_scan_count(m, n as nat, p@, n as nat);
                    }
                    if counter == i32::MAX {
                        proof {
                            if coefs_fit(m, n as nat, ps) {
                                lemma_accumulate_fits_prefix(m, n as nat, ps, q + 1);
                            }
                        }
                        return None;
                    }
                    counter = counter + 1;
                    let signed: Option<i32> = if counter % 2 == 0 { Some(vals) } else if vals == i32::MIN { None } else { Some(-vals) };
                    let total: Option<i32> = match signed {
                        Some(v) => sums[minus].checked_add(v),
                        None => None,
                    };
                    match (signed, total) {
                        (Some(_), Some(t)) => {
                            let ghost before = sums@;
                            sums.set(minus, t);
                            proof {
                                assert(scan(m, n as nat, nxt.last(), n as nat) == (vals as int, minus as nat, false));
                                assert(accumulate(m, n as nat, pre).1[minus as int] == before[minus as int] as int);
                                assert(accumulate(m, n as nat, nxt).1 =~= sums@.map_values(|v: i32| v as int));
                            }
                        },
                        _ => {
                            proof {
                                assert(scan(m, n as nat, nxt.last(), n as nat) == (vals as int, minus as nat, false));
                                assert(accumulate(m, n as nat, pre).1[minus as int] == sums@[minus as int] as int);
                                assert(!accumulate_fits(m, n as nat, nxt));
                                if coefs_fit(m, n as nat, ps) {
                                    lemma_accumulate_fits_prefix(m, n as nat, ps, q + 1);
                                }
                            }
                            return None;
                        },
                    }
                }
            },
        }
        q = q + 1;
        proof {
            assert(accumulate(m, n as nat, nxt).1 =~= sums@.map_values(|v: i32| v as int));
        }
    }
    proof {
        assert(ps.take(q as int) =~= ps);
    }
    let ghost fin = sums@.map_values(|v: i32| v as int);
    let mut total: i32 = 0;
    let mut k: usize = 0;
    while k < sums.len()
        invariant
            k <= sums@.len(),
            fin == sums@.map_values(|v: i32| v as int),
            fin == accumulate(m, n as nat, ps).1,
            m == entries@,
            ps == perm_seqs(perms@),
            accumulate_fits(m, n as nat, ps),
            total as int == abs_total(fin.take(k as int)),
            forall|j: int| 0 <= j < k ==> #[trigger] fin[j] > i32::MIN,
        decreases sums@.len() - k,
    {
        proof {
            assert(fin.take(k + 1).drop_last() =~= fin.take(k as int));
        }
        let v = sums[k];
        if v == i32::MIN {
            assert(fin[k as int] == i32::MIN);
            return None;
        }
        let a: i32 = if v < 0 { -v } else { v };
        match total.checked_add(a) {
            Some(t) => {
                total = t;
            },
            None => {
                proof {
                    assert(fin.take(k + 1).last() == fin[k as int]);
                    assert(abs(fin[k as int]) == a as int);
                    assert(abs_total(fin.take(k + 1)) == total + a);
                    lemma_abs_total_prefix(fin, k + 1);
                }
                return None;
            },
        }
        k = k + 1;
    }
    proof {
        assert(fin.take(k as int) =~= fin);
    }
    Some(total)
}

/// The sum of the absolute values of the coefficients that the
/// characteristic polynomial computation forms for a square matrix with
/// `rows` rows and `cols` columns stored row by row in `entries`, over
/// every permutation of its columns; none when the matrix is not square.
pub fn compute_abs_sum_of_coefs_of_characteristic_polynomial(rows: usize, cols: usize, entries: &Vec<i32>) -> (r: Option<i32>)
    requires
        entries@.len() == rows * cols,
        rows == cols ==> coefs_fit(entries@, rows as nat, heap_permutations(range_seq(rows as nat))),
    ensures
        rows != cols ==> r is None,
        rows == cols ==> r == Some(coefs_abs_sum(entries@, rows as nat, heap_permutations(range_seq(rows as nat))) as i32),
{
    if rows != cols {
        return None;
    }
    let n = rows;
    let items = range_vec(n);
    let perms = permutations_of(items);
    proof {
        assert forall|q: int, k: int| 0 <= q < perms@.len() && 0 <= k < n implies #[trigger] perms@[q]@[k] < n by {
            assert(range_seq(n as nat).contains(perms@[q]@[k]));
        }
    }
    match abs_sum_over_permutations(n, entries, &perms) {
        Some(v) => Some(v),
        None => {
            proof {
                assert(false);
            }
            None
        },
    }
}

/// As `compute_abs_sum_of_coefs_of_characteristic_polynomial`, without
/// demanding that the computation fit: none when a value computed would
/// overflow an `i32`.
pub fn checked_abs_sum_of_coefs(rows: usize, cols: usize, entries: &Vec<i32>) -> (r: Option<Option<i32>>)
    requires
        entries@.len() == rows * cols,
    ensures
        r is None <==> rows == cols && !coefs_fit(entries@, rows as nat, heap_permutations(range_seq(rows as nat))),
        r matches Some(v) ==> (rows != cols ==> v is None) && (rows == cols ==> v == Some(
            coefs_abs_sum(entries@, rows as nat, heap_permutations(range_seq(rows as nat))) as i32)),
{
    if rows != cols {
        return Some(compute_abs_sum_of_coefs_of_characteristic_polynomial(rows, cols, entries));
    }
    let n = rows;
    let items = range_vec(n);
    let perms = permutations_of(items);
    proof {
        assert forall|q: int, k: int| 0 <= q < perms@.len() && 0 <= k < n implies #[trigger] perms@[q]@[k] < n by {
            assert(range_seq(n as nat).contains(perms@[q]@[k]));
        }
    }
    match abs_sum_over_permutations(n, entries, &perms) {
        Some(_) => Some(compute_abs_sum_of_coefs_of_characteristic_polynomial(rows, cols, entries)),
        None => None,
    }
}

} // verus!
