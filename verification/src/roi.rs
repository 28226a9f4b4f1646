use vstd::prelude::*;

verus! {

/// A region of interest in a 2D image.
#[derive(Clone, Debug)]
pub enum ROI {
    /// The whole image is a region of interest.
    All,
    /// The list of pixels selected by this region of interest.
    PixelList(Vec<(usize, usize)>),
}

/// A pixel selected from an image: its coordinates `(i, j)` and the index
/// `[row, column]` of its value in the image's array.
pub type Selected = ((usize, usize), (usize, usize));

/// Every pixel `(i, j)` with `i` below `n` and `j` below `m`, for `j` from 0
/// and, inside, `i` from 0, read at `[j, i]` (`flip` false) or `[i, j]`
/// (`flip` true).
pub open spec fn whole_image(n: nat, m: nat, flip: bool) -> Seq<Selected> {
    Seq::new(n * m, |k: int| {
        let i = (k % (n as int)) as usize;
        let j = (k / (n as int)) as usize;
        ((i, j), if flip { (i, j) } else { (j, i) })
    })
}

/// The listed pixels that lie in an image with `rows` rows and `cols`
/// columns, each with the index it is read at: `[j, i]` (`flip` false) or
/// `[rows - 1 - j, i]` (`flip` true), in the order of the list.
pub open spec fn listed_pixels(pixels: Seq<(usize, usize)>, rows: nat, cols: nat, flip: bool) -> Seq<Selected>
    decreases pixels.len(),
{
    if pixels.len() == 0 {
        Seq::empty()
    } else {
        let rest = listed_pixels(pixels.drop_last(), rows, cols, flip);
        let (i, j) = pixels.last();
        let row = if flip { rows - 1 - j } else { j as int };
        if 0 <= row < rows && i < cols {
            rest.push(((i, j), (row as usize, i)))
        } else {
            rest
        }
    }
}

/// The pixel `px` is one of those selected in `sel`.
pub open spec fn selects(sel: Seq<Selected>, px: (usize, usize)) -> bool {
    exists|k: int| 0 <= k < sel.len() && (#[trigger] sel[k]).0 == px
}

/// Every pixel of the whole image is selected, and nothing else: each
/// selected pixel `(i, j)` has `i` below `n` and `j` below `m`, and is read at
/// `[i, j]` (`flip` true) or `[j, i]` (`flip` false); each such pixel is
/// selected.
pub proof fn lemma_whole_in_image(n: usize, m: usize, flip: bool)
    ensures
        forall|k: int| 0 <= k < whole_image(n as nat, m as nat, flip).len() ==> {
            let s = #[trigger] whole_image(n as nat, m as nat, flip)[k];
            &&& s.0.0 < n
            &&& s.0.1 < m
            &&& s.1 == if flip { s.0 } else { (s.0.1, s.0.0) }
        },
        forall|i: usize, j: usize| i < n && j < m ==> #[trigger] selects(whole_image(n as nat, m as nat, flip), (i, j)),
{
    let w = whole_image(n as nat, m as nat, flip);
    assert forall|k: int| 0 <= k < w.len() implies {
        let s = #[trigger] w[k];
        &&& s.0.0 < n
        &&& s.0.1 < m
        &&& s.1 == if flip { s.0 } else { (s.0.1, s.0.0) }
    } by {
        let nn = n as int;
        let mm = m as int;
        assert(k < nn * mm);
        assert(nn > 0) by (nonlinear_arith)
            requires 0 <= k < nn * mm, 0 <= nn, 0 <= mm;
        assert(0 <= k % nn < nn);
        assert(0 <= k / nn < mm) by (nonlinear_arith)
            requires 0 <= k < nn * mm, 0 < nn, 0 <= mm;
    }
    assert forall|i: usize, j: usize| i < n && j < m implies #[trigger] selects(w, (i, j)) by {
        let nn = n as int;
        let k = j * nn + i;
        assert(0 <= k < nn * (m as int)) by (nonlinear_arith)
            requires i < nn, j < m, k == j * nn + i;
        assert(k % nn == i && k / nn == j) by (nonlinear_arith)
            requires i < nn, 0 <= i, 0 <= j, k == j * nn + i;
        assert(w[k].0 == (i, j));
    }
}

/// A listed pixel is selected exactly when it lies in the image (`i` below
/// `cols`, `j` below `rows`); each selected pixel is one of the list, and is
/// read at column `i` and row `j` (`flip` false) or `rows - 1 - j` (`flip`
/// true), which lie in the image.
pub proof fn lemma_listed_in_image(pixels: Seq<(usize, usize)>, rows: usize, cols: usize, flip: bool)
    ensures
        forall|k: int| 0 <= k < listed_pixels(pixels, rows as nat, cols as nat, flip).len() ==> {
            let s = #[trigger] listed_pixels(pixels, rows as nat, cols as nat, flip)[k];
            &&& pixels.contains(s.0)
            &&& s.0.0 < cols
            &&& s.0.1 < rows
            &&& s.1.0 < rows
            &&& s.1.1 < cols
            &&& s.1.1 == s.0.0
            &&& s.1.0 == if flip { rows - 1 - s.0.1 } else { s.0.1 as int }
        },
        forall|q: int| 0 <= q < pixels.len() && (#[trigger] pixels[q]).0 < cols && pixels[q].1 < rows
            ==> selects(listed_pixels(pixels, rows as nat, cols as nat, flip), pixels[q]),
    decreases pixels.len(),
{
    if pixels.len() > 0 {
        let front = pixels.drop_last();
        lemma_listed_in_image(front, rows, cols, flip);
        let rest = listed_pixels(front, rows as nat, cols as nat, flip);
        let out = listed_pixels(pixels, rows as nat, cols as nat, flip);
        assert forall|k: int| 0 <= k < out.len() implies {
            let s = #[trigger] out[k];
            &&& pixels.contains(s.0)
            &&& s.0.0 < cols
            &&& s.0.1 < rows
            &&& s.1.0 < rows
            &&& s.1.1 < cols
            &&& s.1.1 == s.0.0
            &&& s.1.0 == if flip { rows - 1 - s.0.1 } else { s.0.1 as int }
        } by {
            if k < rest.len() {
                assert(out[k] == rest[k]);
                let t = choose|t: int| 0 <= t < front.len() && front[t] == rest[k].0;
                assert(pixels[t] == front[t]);
            } else {
                assert(pixels[pixels.len() - 1] == pixels.last());
            }
        }
        assert forall|q: int| 0 <= q < pixels.len() && (#[trigger] pixels[q]).0 < cols && pixels[q].1 < rows
            implies selects(out, pixels[q]) by {
            if q < front.len() {
                assert(front[q] == pixels[q]);
                let k = choose|k: int| 0 <= k < rest.len() && (#[trigger] rest[k]).0 == front[q];
                assert(out[k] == rest[k]);
            } else {
                assert(out[rest.len() as int].0 == pixels[q]);
            }
        }
    }
}

impl ROI {
    /// Where to read each point of a 2D image with dimensions `dim` (rows,
    /// columns) in the region of interest, along with the coordinate of each
    /// selected pixel. Pixel `(i, j)` is read at row `j` and column `i`. The
    /// whole image is read row by row, every pixel once; a listed pixel is
    /// left out when it lies outside the image.
    pub fn filter(&self, dim: (usize, usize)) -> (r: Vec<Selected>)
        requires
            self is All ==> dim.0 * dim.1 <= usize::MAX,
        ensures
            r@ == match self {
                ROI::All => whole_image(dim.1 as nat, dim.0 as nat, false),
                ROI::PixelList(p) => listed_pixels(p@, dim.0 as nat, dim.1 as nat, false),
            },
            forall|k: int| 0 <= k < r@.len() ==> (#[trigger] r@[k]).1.0 < dim.0 && r@[k].1.1 < dim.1
                && r@[k].1 == (r@[k].0.1, r@[k].0.0),
            self matches ROI::PixelList(p) ==> forall|k: int| 0 <= k < r@.len() ==> p@.contains((#[trigger] r@[k]).0),
            self matches ROI::PixelList(p) ==> forall|q: int| 0 <= q < p@.len()
                ==> (selects(r@, #[trigger] p@[q]) <==> p@[q].0 < dim.1 && p@[q].1 < dim.0),
            self is All ==> forall|i: usize, j: usize| i < dim.1 && j < dim.0 ==> #[trigger] selects(r@, (i, j)),
    {
        proof {
            match self {
                ROI::All => lemma_whole_in_image(dim.1, dim.0, false),
                ROI::PixelList(p) => lemma_listed_in_image(p@, dim.0, dim.1, false),
            }
        }
        let r = match self {
            ROI::All => whole(dim.1, dim.0, false),
            ROI::PixelList(pixels) => listed(pixels, dim.0, dim.1, false),
        };
        proof {
            if let ROI::PixelList(p) = self {
                assert forall|q: int| 0 <= q < p@.len() && selects(r@, #[trigger] p@[q])
                    implies p@[q].0 < dim.1 && p@[q].1 < dim.0 by {
                    let k = choose|k: int| 0 <= k < r@.len() && (#[trigger] r@[k]).0 == p@[q];
                    assert(r@[k].0 == p@[q]);
                }
            }
        }
        r
    }

    /// As `filter`, for an image stored upside down: the whole image is read
    /// at `[i, j]`, and a listed pixel `(i, j)` at row `rows - 1 - j`.
    pub fn filter_upside_down(&self, dim: (usize, usize)) -> (r: Vec<Selected>)
        requires
            self is All ==> dim.0 * dim.1 <= usize::MAX,
            self matches ROI::PixelList(p) ==> forall|k: int| 0 <= k < p@.len() ==> (#[trigger] p@[k]).1 < dim.0,
        ensures
            r@ == match self {
                ROI::All => whole_image(dim.0 as nat, dim.1 as nat, true),
                ROI::PixelList(p) => listed_pixels(p@, dim.0 as nat, dim.1 as nat, true),
            },
            forall|k: int| 0 <= k < r@.len() ==> (#[trigger] r@[k]).1.0 < dim.0 && r@[k].1.1 < dim.1,
            self is All ==> forall|k: int| 0 <= k < r@.len() ==> (#[trigger] r@[k]).1 == r@[k].0,
            self is All ==> forall|i: usize, j: usize| i < dim.0 && j < dim.1 ==> #[trigger] selects(r@, (i, j)),
            self matches ROI::PixelList(p) ==> forall|k: int| 0 <= k < r@.len()
                ==> p@.contains((#[trigger] r@[k]).0) && r@[k].1.0 == dim.0 - 1 - r@[k].0.1 && r@[k].1.1 == r@[k].0.0,
            self matches ROI::PixelList(p) ==> forall|q: int| 0 <= q < p@.len()
                ==> (selects(r@, #[trigger] p@[q]) <==> p@[q].0 < dim.1),
    {
        proof {
            match self {
                ROI::All => lemma_whole_in_image(dim.0, dim.1, true),
                ROI::PixelList(p) => lemma_listed_in_image(p@, dim.0, dim.1, true),
            }
        }
        let r = match self {
            ROI::All => whole(dim.0, dim.1, true),
            ROI::PixelList(pixels) => listed(pixels, dim.0, dim.1, true),
        };
        proof {
            if let ROI::PixelList(p) = self {
                assert forall|q: int| 0 <= q < p@.len() && selects(r@, #[trigger] p@[q])
                    implies p@[q].0 < dim.1 by {
                    let k = choose|k: int| 0 <= k < r@.len() && (#[trigger] r@[k]).0 == p@[q];
                    assert(r@[k].0 == p@[q]);
                }
            }
        }
        r
    }

    /// The number of pixels listed; 0 for the whole image.
    pub fn datalen(&self) -> (n: usize)
        ensures
            n == match self {
                ROI::All => 0,
                ROI::PixelList(p) => p@.len(),
            },
    {
        match self {
            ROI::All => 0,
            ROI::PixelList(pixels) => pixels.len(),
        }
    }
}

/// The selection of every pixel `(i, j)` with `i` below `n` and `j` below `m`.
fn whole(n: usize, m: usize, flip: bool) -> (r: Vec<Selected>)
    requires
        n * m <= usize::MAX,
    ensures
        r@ == whole_image(n as nat, m as nat, flip),
{
    let mut out: Vec<Selected> = Vec::new();
    let mut j: usize = 0;
    while j < m
        invariant
            j <= m,
            n * m <= usize::MAX,
            out@.len() == j * n,
            forall|k: int| 0 <= k < out@.len() ==> #[trigger] out@[k] == whole_image(n as nat, m as nat, flip)[k],
        decreases m - j,
    {
        let mut i: usize = 0;
        while i < n
            invariant
                i <= n,
                j < m,
                n * m <= usize::MAX,
                out@.len() == j * n + i,
                forall|k: int| 0 <= k < out@.len() ==> #[trigger] out@[k] == whole_image(n as nat, m as nat, flip)[k],
            decreases n - i,
        {
            proof {
                let k = j * n + i;
                assert(k < n * m) by (nonlinear_arith)
                    requires i < n, j < m, k == j * n + i;
                assert(k % (n as int) == i && k / (n as int) == j) by (nonlinear_arith)
                    requires i < n, k == j * n + i;
            }
            let idx = if flip { (i, j) } else { (j, i) };
            out.push(((i, j), idx));
            i = i + 1;
        }
        proof {
            assert((j + 1) * n == j * n + n) by (nonlinear_arith);
        }
        j = j + 1;
    }
    proof {
        assert(out@.len() == n * m) by (nonlinear_arith)
            requires out@.len() == j * n, j == m;
    }
    assert(out@ =~= whole_image(n as nat, m as nat, flip));
    out
}

/// The selection of the listed pixels that lie in a `rows` by `cols` image.
fn listed(pixels: &Vec<(usize, usize)>, rows: usize, cols: usize, flip: bool) -> (r: Vec<Selected>)
    requires
        flip ==> forall|k: int| 0 <= k < pixels@.len() ==> (#[trigger] pixels@[k]).1 < rows,
    ensures
        r@ == listed_pixels(pixels@, rows as nat, cols as nat, flip),
{
    let mut out: Vec<Selected> = Vec::new();
    let mut k: usize = 0;
    while k < pixels.len()
        invariant
            k <= pixels@.len(),
            flip ==> forall|q: int| 0 <= q < pixels@.len() ==> (#[trigger] pixels@[q]).1 < rows,
            out@ == listed_pixels(pixels@.subrange(0, k as int), rows as nat, cols as nat, flip),
        decreases pixels@.len() - k,
    {
        let (i, j) = pixels[k];
        proof {
            assert(pixels@.subrange(0, k + 1).drop_last() =~= pixels@.subrange(0, k as int));
            assert(pixels@.subrange(0, k + 1).last() == pixels@[k as int]);
        }
        if flip {
            let row = rows - 1 - j;
            if i < cols {
                out.push(((i, j), (row, i)));
            }
        } else {
            if j < rows && i < cols {
                out.push(((i, j), (j, i)));
            }
        }
        k = k + 1;
    }
    assert(pixels@.subrange(0, k as int) =~= pixels@);
    out
}

} // verus!
