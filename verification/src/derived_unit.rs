use vstd::prelude::*;

use crate::text::{decimal, push_decimal, signed_decimal, push_signed_decimal};
use crate::unit_text::{map_view, unique_keys, scan_terms, split_unit, terms, terms_map, unit_part, scale_text, unit_readable, isize_text, ScaleText};

verus! {

/// Add `v` to the exponent of `k`, or record it when `k` is absent.
pub open spec fn add_at(m: Seq<(Seq<char>, int)>, k: Seq<char>, v: int) -> Seq<(Seq<char>, int)> {
    if exists|j: int| 0 <= j < m.len() && m[j].0 == k {
        let j = choose|j: int| 0 <= j < m.len() && m[j].0 == k;
        m.update(j, (k, m[j].1 + v))
    } else {
        m.push((k, v))
    }
}

/// The exponent that `add_at` records for `k`.
pub open spec fn added_value(m: Seq<(Seq<char>, int)>, k: Seq<char>, v: int) -> int {
    if exists|j: int| 0 <= j < m.len() && m[j].0 == k {
        let j = choose|j: int| 0 <= j < m.len() && m[j].0 == k;
        m[j].1 + v
    } else {
        v
    }
}

/// The exponents of `a` combined with those of `b`, each taken `sign` times
/// (1 for a product, -1 for a quotient), in the order of `b`.
pub open spec fn combine(a: Seq<(Seq<char>, int)>, b: Seq<(Seq<char>, int)>, sign: int) -> Seq<(Seq<char>, int)>
    decreases b.len(),
{
    if b.len() == 0 {
        a
    } else {
        add_at(combine(a, b.drop_last(), sign), b.last().0, sign * b.last().1)
    }
}

/// Every exponent computed while combining fits a machine integer.
pub open spec fn combine_fits(a: Seq<(Seq<char>, int)>, b: Seq<(Seq<char>, int)>, sign: int) -> bool
    decreases b.len(),
{
    if b.len() == 0 {
        true
    } else {
        &&& combine_fits(a, b.drop_last(), sign)
        &&& isize::MIN <= added_value(combine(a, b.drop_last(), sign), b.last().0, sign * b.last().1) <= isize::MAX
    }
}

/// The first position from `i` on whose exponent is below `v` (the length when none is).
pub open spec fn desc_pos(s: Seq<(Seq<char>, int)>, v: int, i: int) -> int
    decreases s.len() - i,
{
    if i < 0 || i >= s.len() {
        s.len() as int
    } else if s[i].1 < v {
        i
    } else {
        desc_pos(s, v, i + 1)
    }
}

/// Insert `x` after every entry whose exponent is at least that of `x`.
pub open spec fn insert_desc(s: Seq<(Seq<char>, int)>, x: (Seq<char>, int)) -> Seq<(Seq<char>, int)> {
    s.insert(desc_pos(s, x.1, 0), x)
}

proof fn lemma_desc_pos(s: Seq<(Seq<char>, int)>, v: int, i: int)
    requires
        0 <= i <= s.len(),
    ensures
        i <= desc_pos(s, v, i) <= s.len(),
    decreases s.len() - i,
{
    if i < s.len() && !(s[i].1 < v) {
        lemma_desc_pos(s, v, i + 1);
    }
}

/// The entries by decreasing exponent; entries with equal exponents keep their order.
pub open spec fn sort_desc(s: Seq<(Seq<char>, int)>) -> Seq<(Seq<char>, int)>
    decreases s.len(),
{
    if s.len() == 0 {
        Seq::empty()
    } else {
        insert_desc(sort_desc(s.drop_last()), s.last())
    }
}

pub open spec fn abs(v: int) -> int {
    if v < 0 { -v } else { v }
}

/// How entries are written: entries with exponent 0 are skipped; a negative
/// exponent is written '/' before the name, a positive one '*' unless it is
/// the first written; the magnitude follows after '^' when it exceeds 1.
pub open spec fn render_terms(s: Seq<(Seq<char>, int)>, count: nat) -> Seq<char>
    decreases s.len(),
{
    if s.len() == 0 {
        Seq::empty()
    } else if s[0].1 == 0 {
        render_terms(s.drop_first(), count)
    } else {
        (if s[0].1 < 0 { "/"@ } else if count > 0 { "*"@ } else { Seq::empty() })
            + s[0].0
            + (if abs(s[0].1) > 1 { "^"@ + decimal(abs(s[0].1) as nat) } else { Seq::empty() })
            + render_terms(s.drop_first(), count + 1)
    }
}

/// Every exponent has a magnitude that fits a machine integer.
pub open spec fn no_min(s: Seq<(Seq<char>, int)>) -> bool {
    forall|k: int| 0 <= k < s.len() ==> (#[trigger] s[k]).1 > isize::MIN
}

/// Copy of a list of names and exponents.
fn copy_entries(m: &Vec<(String, isize)>) -> (r: Vec<(String, isize)>)
    ensures
        map_view(r@) == map_view(m@),
{
    let mut r: Vec<(String, isize)> = Vec::new();
    let mut k: usize = 0;
    while k < m.len()
        invariant
            k <= m@.len(),
            map_view(r@) == map_view(m@).subrange(0, k as int),
        decreases m@.len() - k,
    {
        let name = m[k].0.clone();
        assert(name@ == m@[k as int].0@);
        let ghost old_r = r@;
        r.push((name, m[k].1));
        proof {
            assert(r@ == old_r.push((name, m@[k as int].1)));
            assert(map_view(m@)[k as int] == (m@[k as int].0@, m@[k as int].1 as int));
            assert(map_view(r@) =~= map_view(old_r).push((name@, m@[k as int].1 as int)));
        }
        k = k + 1;
        assert(map_view(r@) =~= map_view(m@).subrange(0, k as int));
    }
    assert(map_view(m@).subrange(0, k as int) =~= map_view(m@));
    r
}

/// Add `v` (negated when `neg`) to the exponent of `k` in `m`, when the
/// result fits a machine integer; otherwise leave `m` as it is.
fn add_at_exec(m: &mut Vec<(String, isize)>, k: String, v: isize, neg: bool) -> (ok: bool)
    requires
        unique_keys(map_view(old(m)@)),
    ensures
        ok == (isize::MIN <= added_value(map_view(old(m)@), k@, if neg { -(v as int) } else { v as int }) <= isize::MAX),
        ok ==> map_view(final(m)@) == add_at(map_view(old(m)@), k@, if neg { -(v as int) } else { v as int }),
        !ok ==> final(m)@ == old(m)@,
        unique_keys(map_view(final(m)@)),
{
    let ghost mv = map_view(m@);
    let ghost sv: int = if neg { -(v as int) } else { v as int };
    let mut j: usize = 0;
    while j < m.len()
        invariant
            j <= m@.len(),
            mv == map_view(m@),
            mv == map_view(old(m)@),
            m@ == old(m)@,
            unique_keys(mv),
            sv == (if neg { -(v as int) } else { v as int }),
            forall|q: int| 0 <= q < j ==> mv[q].0 != k@,
        decreases m@.len() - j,
    {
        if m[j].0 == k {
            proof {
                assert(mv[j as int].0 == k@);
                assert(exists|q: int| 0 <= q < mv.len() && mv[q].0 == k@);
                let q = choose|q: int| 0 <= q < mv.len() && mv[q].0 == k@;
                if q != j as int {
                    assert(mv[q].0 != mv[j as int].0);
                }
                assert(q == j as int);
                assert(mv[j as int].1 == m@[j as int].1 as int);
                assert(added_value(mv, k@, sv) == mv[j as int].1 + sv);
            }
            let old_v = m[j].1 as i128;
            let nv: i128 = if neg { old_v - v as i128 } else { old_v + v as i128 };
            if nv < isize::MIN as i128 || nv > isize::MAX as i128 {
                return false;
            }
            m.set(j, (k, nv as isize));
            proof {
                assert(map_view(m@) =~= mv.update(j as int, (k@, mv[j as int].1 + sv)));
                assert forall|a: int, b: int| 0 <= a < map_view(m@).len() && 0 <= b < map_view(m@).len() && a != b
                    implies #[trigger] map_view(m@)[a].0 != #[trigger] map_view(m@)[b].0 by {
                    assert(mv[a].0 != mv[b].0);
                }
            }
            return true;
        }
        j = j + 1;
    }
    proof {
        assert(!exists|q: int| 0 <= q < mv.len() && mv[q].0 == k@);
    }
    if neg && v == isize::MIN {
        return false;
    }
    let nv = if neg { -v } else { v };
    m.push((k, nv));
    proof {
        assert(map_view(m@) =~= mv.push((k@, sv)));
        assert forall|a: int, b: int| 0 <= a < map_view(m@).len() && 0 <= b < map_view(m@).len() && a != b
            implies #[trigger] map_view(m@)[a].0 != #[trigger] map_view(m@)[b].0 by {
            if a < mv.len() && b < mv.len() {
                assert(mv[a].0 != mv[b].0);
            }
        }
    }
    true
}

/// The exponents of `a` combined with those of `b` (negated when `neg`),
/// when every exponent computed fits a machine integer.
fn combine_exec(a: &Vec<(String, isize)>, b: &Vec<(String, isize)>, neg: bool) -> (r: Option<Vec<(String, isize)>>)
    requires
        unique_keys(map_view(a@)),
    ensures
        r is Some <==> combine_fits(map_view(a@), map_view(b@), if neg { -1 } else { 1 }),
        r matches Some(v) ==> map_view(v@) == combine(map_view(a@), map_view(b@), if neg { -1 } else { 1 })
            && unique_keys(map_view(v@)),
{
    let ghost sign: int = if neg { -1 } else { 1 };
    let ghost av = map_view(a@);
    let ghost bv = map_view(b@);
    let mut r = copy_entries(a);
    let mut k: usize = 0;
    proof {
        assert(bv.subrange(0, 0) =~= Seq::<(Seq<char>, int)>::empty());
    }
    while k < b.len()
        invariant
            k <= b@.len(),
            av == map_view(a@),
            bv == map_view(b@),
            sign == (if neg { -1int } else { 1int }),
            combine_fits(av, bv.subrange(0, k as int), sign),
            map_view(r@) == combine(av, bv.subrange(0, k as int), sign),
            unique_keys(map_view(r@)),
        decreases b@.len() - k,
    {
        proof {
            let pre = bv.subrange(0, k as int);
            let nxt = bv.subrange(0, k + 1);
            assert(nxt.drop_last() =~= pre);
            assert(bv[k as int] == (b@[k as int].0@, b@[k as int].1 as int));
            assert(nxt.last() == bv[k as int]);
            assert(sign * bv[k as int].1 == (if neg { -(b@[k as int].1 as int) } else { b@[k as int].1 as int }));
        }
        let name = b[k].0.clone();
        if !add_at_exec(&mut r, name, b[k].1, neg) {
            proof {
                assert(!combine_fits(av, bv.subrange(0, k + 1), sign));
                if combine_fits(av, bv, sign) {
                    lemma_combine_fits_prefix(av, bv, sign, k + 1);
                }
            }
            return None;
        }
        k = k + 1;
    }
    assert(bv.subrange(0, k as int) =~= bv);
    Some(r)
}

/// The prefixes of a combination that fits, fit.
proof fn lemma_combine_fits_prefix(a: Seq<(Seq<char>, int)>, b: Seq<(Seq<char>, int)>, sign: int, n: int)
    requires
        combine_fits(a, b, sign),
        0 <= n <= b.len(),
    ensures
        combine_fits(a, b.subrange(0, n), sign),
        n > 0 ==> isize::MIN <= added_value(combine(a, b.subrange(0, n - 1), sign), b[n - 1].0, sign * b[n - 1].1) <= isize::MAX,
    decreases b.len() - n,
{
    if n < b.len() {
        lemma_combine_fits_prefix(a, b.drop_last(), sign, n);
        assert(b.drop_last().subrange(0, n) =~= b.subrange(0, n));
        if n > 0 {
            assert(b.drop_last().subrange(0, n - 1) =~= b.subrange(0, n - 1));
        }
    } else {
        assert(b.subrange(0, n) =~= b);
        if n > 0 {
            assert(b.drop_last() =~= b.subrange(0, n - 1));
        }
    }
}

/// Insert `x` after every entry whose exponent is at least that of `x`.
fn insert_desc_exec(v: &mut Vec<(String, isize)>, x: (String, isize))
    ensures
        map_view(final(v)@) == insert_desc(map_view(old(v)@), (x.0@, x.1 as int)),
{
    let ghost mv = map_view(v@);
    let ghost xv = (x.0@, x.1 as int);
    let mut j: usize = 0;
    while j < v.len()
        invariant
            j <= v@.len(),
            mv == map_view(v@),
            mv == map_view(old(v)@),
            xv == (x.0@, x.1 as int),
            desc_pos(mv, xv.1, j as int) == desc_pos(mv, xv.1, 0),
        decreases v@.len() - j,
    {
        assert(mv[j as int].1 == v@[j as int].1 as int);
        if v[j].1 < x.1 {
            v.insert(j, x);
            proof {
                assert(map_view(v@) =~= mv.insert(j as int, xv));
            }
            return;
        }
        j = j + 1;
    }
    v.push(x);
    proof {
        assert(map_view(v@) =~= mv.push(xv));
        assert(mv.insert(mv.len() as int, xv) =~= mv.push(xv));
    }
}

/// The entries by decreasing exponent; equal exponents keep their order.
fn sorted_desc(m: &Vec<(String, isize)>) -> (r: Vec<(String, isize)>)
    ensures
        map_view(r@) == sort_desc(map_view(m@)),
{
    let ghost mv = map_view(m@);
    let mut r: Vec<(String, isize)> = Vec::new();
    let mut k: usize = 0;
    proof {
        assert(mv.subrange(0, 0) =~= Seq::<(Seq<char>, int)>::empty());
        assert(map_view(r@) =~= Seq::<(Seq<char>, int)>::empty());
    }
    while k < m.len()
        invariant
            k <= m@.len(),
            mv == map_view(m@),
            map_view(r@) == sort_desc(mv.subrange(0, k as int)),
        decreases m@.len() - k,
    {
        let name = m[k].0.clone();
        proof {
            assert(mv.subrange(0, k + 1).drop_last() =~= mv.subrange(0, k as int));
            assert(mv[k as int] == (m@[k as int].0@, m@[k as int].1 as int));
            assert(mv.subrange(0, k + 1).last() == mv[k as int]);
        }
        insert_desc_exec(&mut r, (name, m[k].1));
        k = k + 1;
    }
    assert(mv.subrange(0, k as int) =~= mv);
    r
}

proof fn lemma_insert_desc_entries(t: Seq<(Seq<char>, int)>, x: (Seq<char>, int))
    ensures
        insert_desc(t, x).len() == t.len() + 1,
        forall|i: int| 0 <= i < insert_desc(t, x).len() ==> #[trigger] insert_desc(t, x)[i] == x || t.contains(insert_desc(t, x)[i]),
{
    lemma_desc_pos(t, x.1, 0);
    let j = desc_pos(t, x.1, 0);
    let r = t.insert(j, x);
    assert forall|i: int| 0 <= i < r.len() implies #[trigger] r[i] == x || t.contains(r[i]) by {
        if i < j {
            assert(r[i] == t[i]);
        } else if i > j {
            assert(r[i] == t[i - 1]);
        }
    }
}

/// Sorting keeps the entries, and only them.
proof fn lemma_sort_desc_entries(s: Seq<(Seq<char>, int)>)
    ensures
        forall|i: int| 0 <= i < sort_desc(s).len() ==> s.contains(#[trigger] sort_desc(s)[i]),
    decreases s.len(),
{
    if s.len() > 0 {
        let t = sort_desc(s.drop_last());
        lemma_sort_desc_entries(s.drop_last());
        let x = s.last();
        lemma_insert_desc_entries(t, x);
        assert forall|i: int| 0 <= i < sort_desc(s).len() implies s.contains(#[trigger] sort_desc(s)[i]) by {
            let e = sort_desc(s)[i];
            if e != x {
                assert(t.contains(e));
                let q = choose|q: int| 0 <= q < t.len() && t[q] == e;
                assert(s.drop_last().contains(e));
                let q2 = choose|q2: int| 0 <= q2 < s.drop_last().len() && s.drop_last()[q2] == e;
                assert(s[q2] == e);
            } else {
                assert(s[s.len() - 1] == e);
            }
        }
    }
}

/// Write the entries `s` (see `render_terms`).
fn render_entries(s: &Vec<(String, isize)>, out: &mut String)
    requires
        no_min(map_view(s@)),
    ensures
        final(out)@ == old(out)@ + render_terms(map_view(s@), 0),
{
    let ghost sv = map_view(s@);
    let mut count: usize = 0;
    let mut k: usize = 0;
    assert(sv.skip(0) =~= sv);
    while k < s.len()
        invariant
            k <= s@.len(),
            count <= k,
            sv == map_view(s@),
            no_min(sv),
            out@ + render_terms(sv.skip(k as int), count as nat) == old(out)@ + render_terms(sv, 0),
        decreases s@.len() - k,
    {
        let v = s[k].1;
        let ghost before = out@;
        let ghost rest = sv.skip(k as int);
        proof {
            assert(rest[0] == sv[k as int]);
            assert(sv[k as int] == (s@[k as int].0@, s@[k as int].1 as int));
            assert(rest.drop_first() =~= sv.skip(k + 1));
            assert(sv[k as int].1 > isize::MIN);
        }
        if v != 0 {
            if v < 0 {
                out.append("/");
            } else if count > 0 {
                out.append("*");
            }
            out.append(s[k].0.as_str());
            let a: isize = if v < 0 { -v } else { v };
            if a > 1 {
                out.append("^");
                push_decimal(out, a as usize);
            }
            assert(out@ =~= before + ((if rest[0].1 < 0 { "/"@ } else if count > 0 { "*"@ } else { Seq::empty() })
                + rest[0].0
                + (if abs(rest[0].1) > 1 { "^"@ + decimal(abs(rest[0].1) as nat) } else { Seq::empty() })));
            count = count + 1;
        }
        k = k + 1;
    }
    assert(sv.skip(k as int) =~= Seq::<(Seq<char>, int)>::empty());
}

/// A unit decomposed into named units with integer exponents, with a decimal
/// scale: a mantissa of type `M` and a power of ten.
pub struct DerivedUnit<M> {
    exp: Option<(M, isize)>,
    derived: Vec<(String, isize)>,
}

impl<M> DerivedUnit<M> {
    /// The scale, if one is kept.
    pub closed spec fn exp(&self) -> Option<(M, isize)> {
        self.exp
    }

    /// The named units and their exponents, in order of first appearance.
    pub closed spec fn derived(&self) -> Seq<(Seq<char>, int)> {
        map_view(self.derived@)
    }

    /// No name occurs twice.
    pub open spec fn wf(&self) -> bool {
        unique_keys(self.derived())
    }
}


/// The power of ten written in the scale of a unit: 0 when none is written,
/// none when no scale is kept.
pub open spec fn scale_power(s: Seq<char>) -> Option<int> {
    match scale_text(s) {
        ScaleText::Default => Some(0),
        ScaleText::Given(_, p) => isize_text(p),
        ScaleText::Absent => None,
    }
}

/// The named units and exponents written in the text of a unit.
pub open spec fn derived_of(s: Seq<char>) -> Seq<(Seq<char>, int)> {
    terms_map(terms(unit_part(s), 0))
}

/// `d` is what reading the text `s` and converting its mantissa with `parse` gives.
pub open spec fn read_as<M, P: Fn(String) -> M>(s: Seq<char>, parse: P, d: DerivedUnit<M>) -> bool {
    &&& d.wf()
    &&& d.derived() == derived_of(s)
    &&& match scale_text(s) {
        ScaleText::Default => d.exp() matches Some((m, p)) && p == 0
            && exists|a: String| a@ == "1"@ && #[trigger] parse.ensures((a,), m),
        ScaleText::Given(mt, pt) => d.exp() matches Some((m, p)) && isize_text(pt) == Some(p as int)
            && exists|a: String| a@ == mt && #[trigger] parse.ensures((a,), m),
        ScaleText::Absent => d.exp() is None,
    }
}

/// `r` is how `d` is written, with the mantissa written by `show`.
pub open spec fn written_as<M, S: Fn(M) -> (bool, String)>(d: DerivedUnit<M>, show: S, r: Seq<char>) -> bool {
    match d.exp() {
        None => r == render_terms(sort_desc(d.derived()), 0),
        Some((m, p)) => exists|one: bool, text: String| #[trigger] show.ensures((m,), (one, text)) && r == (
            if one && p == 0 { Seq::empty() } else { text@ + "E"@ + signed_decimal(p as int) + " "@ })
            + render_terms(sort_desc(d.derived()), 0),
    }
}

/// A unit that keeps a scale is written starting with that scale (the text of
/// the mantissa, 'E', the power of ten and a space) unless the scale is 1:
/// a power of ten other than 0 is always written. Only a scale 1 is left out.
pub proof fn lemma_scale_written<M, S: Fn(M) -> (bool, String)>(d: DerivedUnit<M>, show: S, r: Seq<char>)
    requires
        written_as(d, show, r),
        d.exp() is Some,
    ensures
        d.exp() matches Some((m, p)) && exists|one: bool, text: String| #[trigger] show.ensures((m,), (one, text))
            && (p != 0 || !one ==> (text@ + "E"@ + signed_decimal(p as int) + " "@).is_prefix_of(r))
            && (p == 0 && one ==> r == render_terms(sort_desc(d.derived()), 0)),
{
    let (m, p) = d.exp().unwrap();
    let (one, text) = choose|one: bool, text: String| #[trigger] show.ensures((m,), (one, text)) && r == (
        if one && p == 0 { Seq::empty() } else { text@ + "E"@ + signed_decimal(p as int) + " "@ })
        + render_terms(sort_desc(d.derived()), 0);
    let head = text@ + "E"@ + signed_decimal(p as int) + " "@;
    if p != 0 || !one {
        assert(head =~= r.subrange(0, head.len() as int));
    } else {
        assert(r =~= render_terms(sort_desc(d.derived()), 0));
    }
}

impl DerivedUnit<String> {
    /// Whether `s` can be read as a unit: see `unit_readable`.
    pub fn readable(s: &String) -> (b: bool)
        ensures
            b == unit_readable(s@),
    {
        match split_unit(s.as_str()) {
            None => false,
            Some(u) => match scan_terms(u.unit_part.as_str()) {
                None => false,
                Some(_) => true,
            },
        }
    }

    /// Decompose the text of a unit, such as "1E-17 erg/s/cm^2/Ang/spaxel",
    /// into its named units with their exponents and its scale. The mantissa
    /// of the scale is kept as text ("1" when no scale is written).
    pub fn new(s: &String) -> (d: Self)
        requires
            unit_readable(s@),
        ensures
            d.wf(),
            d.derived() == terms_map(terms(unit_part(s@), 0)),
            match scale_text(s@) {
                ScaleText::Default => d.exp() matches Some((m, p)) && m@ == "1"@ && p == 0,
                ScaleText::Given(m, p) => d.exp() matches Some((dm, dp)) && dm@ == m && isize_text(p) == Some(dp as int),
                ScaleText::Absent => d.exp() is None,
            },
    {
        let u = split_unit(s.as_str()).unwrap();
        let derived = scan_terms(u.unit_part.as_str()).unwrap();
        let exp = match u.scale {
            None => None,
            Some(None) => Some((String::from_str("1"), 0isize)),
            Some(Some((m, p))) => Some((m, p)),
        };
        DerivedUnit { exp, derived }
    }
}

impl<M> DerivedUnit<M> {
    /// The same unit with its mantissa converted by `f`.
    pub fn map_mantissa<N, F: Fn(M) -> N>(self, f: F) -> (d: DerivedUnit<N>)
        requires
            forall|m: M| f.requires((m,)),
        ensures
            d.derived() == self.derived(),
            match self.exp() {
                None => d.exp() is None,
                Some((m, p)) => d.exp() matches Some((n, q)) && q == p && f.ensures((m,), n),
            },
    {
        let exp = match self.exp {
            None => None,
            Some((m, p)) => Some((f(m), p)),
        };
        DerivedUnit { exp, derived: self.derived }
    }

    /// The named units and their exponents.
    pub fn entries(&self) -> (r: &Vec<(String, isize)>)
        ensures
            map_view(r@) == self.derived(),
    {
        &self.derived
    }

    /// The scale, if one is kept.
    pub fn scale(&self) -> (r: &Option<(M, isize)>)
        ensures
            *r == self.exp(),
    {
        &self.exp
    }
}

/// How the scales of two units combine: the mantissas through `f`, the
/// powers added (`sign` 1) or subtracted (`sign` -1); a missing scale takes
/// the other one.
pub open spec fn combine_scale<M, F: Fn(M, M) -> M>(a: Option<(M, isize)>, b: Option<(M, isize)>, r: Option<(M, isize)>, f: F, sign: int) -> bool {
    match (a, b) {
        (Some(l), Some(rr)) => r matches Some((m, p)) && f.ensures((l.0, rr.0), m) && p as int == l.1 + sign * rr.1,
        (Some(l), None) => r == Some(l),
        (None, Some(rr)) => r == Some(rr),
        (None, None) => r is None,
    }
}

/// When both units keep a scale, the power of ten of their quotient is the
/// dividend's power minus the divisor's, and its mantissa is what `over` gives
/// for the dividend's and the divisor's mantissas, in that order.
pub proof fn lemma_quotient_power<M, F: Fn(M, M) -> M>(l: (M, isize), rr: (M, isize), r: Option<(M, isize)>, over: F)
    requires
        combine_scale(Some(l), Some(rr), r, over, -1),
    ensures
        r matches Some((m, p)) && p == l.1 - rr.1 && over.ensures((l.0, rr.0), m),
{
}

/// When both units keep a scale, the power of ten of their product is the sum
/// of their powers, and its mantissa is what `times` gives for their mantissas.
pub proof fn lemma_product_power<M, F: Fn(M, M) -> M>(l: (M, isize), rr: (M, isize), r: Option<(M, isize)>, times: F)
    requires
        combine_scale(Some(l), Some(rr), r, times, 1),
    ensures
        r matches Some((m, p)) && p == l.1 + rr.1 && times.ensures((l.0, rr.0), m),
{
}

impl<M: Copy> DerivedUnit<M> {
    /// The product of two units: exponents of the same name add up, mantissas
    /// multiply (through `times`) and powers of ten add up.
    pub fn mul<F: Fn(M, M) -> M>(&self, d: DerivedUnit<M>, times: F) -> (r: Self)
        requires
            self.wf(),
            forall|a: M, b: M| times.requires((a, b)),
            combine_fits(self.derived(), d.derived(), 1),
            (self.exp(), d.exp()) matches (Some(l), Some(rr)) ==> isize::MIN <= l.1 + rr.1 <= isize::MAX,
        ensures
            r.wf(),
            r.derived() == combine(self.derived(), d.derived(), 1),
            combine_scale(self.exp(), d.exp(), r.exp(), times, 1),
            (self.exp(), d.exp()) matches (Some(l), Some(rr))
                ==> (r.exp() matches Some((m, p)) && p == l.1 + rr.1 && times.ensures((l.0, rr.0), m)),
    {
        let exp = match (self.exp, d.exp) {
            (Some(lexp), Some(rexp)) => Some((times(lexp.0, rexp.0), lexp.1 + rexp.1)),
            (Some(lexp), None) => Some(lexp),
            (None, Some(rexp)) => Some(rexp),
            (None, None) => None,
        };
        let derived = combine_exec(&self.derived, &d.derived, false).unwrap();
        DerivedUnit { exp, derived }
    }

    /// The quotient of two units: exponents of the divisor are subtracted,
    /// mantissas divide (through `over`) and powers of ten subtract.
    pub fn div<F: Fn(M, M) -> M>(&self, d: DerivedUnit<M>, over: F) -> (r: Self)
        requires
            self.wf(),
            forall|a: M, b: M| over.requires((a, b)),
            combine_fits(self.derived(), d.derived(), -1),
            (self.exp(), d.exp()) matches (Some(l), Some(rr)) ==> isize::MIN <= l.1 - rr.1 <= isize::MAX,
        ensures
            r.wf(),
            r.derived() == combine(self.derived(), d.derived(), -1),
            combine_scale(self.exp(), d.exp(), r.exp(), over, -1),
            (self.exp(), d.exp()) matches (Some(l), Some(rr))
                ==> (r.exp() matches Some((m, p)) && p == l.1 - rr.1 && over.ensures((l.0, rr.0), m)),
    {
        let exp = match (self.exp, d.exp) {
            (Some(lexp), Some(rexp)) => Some((over(lexp.0, rexp.0), lexp.1 - rexp.1)),
            (Some(lexp), None) => Some(lexp),
            (None, Some(rexp)) => Some(rexp),
            (None, None) => None,
        };
        let derived = combine_exec(&self.derived, &d.derived, true).unwrap();
        DerivedUnit { exp, derived }
    }

    /// Write the unit: its scale first, unless it is 1 (mantissa one by
    /// `show`, power 0), as the text of the mantissa from `show`, 'E', the
    /// power and a space; then the named units by decreasing exponent (see
    /// `render_terms`).
    pub fn to_string<S: Fn(M) -> (bool, String)>(&self, show: S) -> (r: String)
        requires
            forall|m: M| show.requires((m,)),
            no_min(self.derived()),
        ensures
            written_as(*self, show, r@),
            self.exp() matches Some((m, p)) ==> exists|one: bool, text: String| #[trigger] show.ensures((m,), (one, text))
                && (p != 0 || !one ==> (text@ + "E"@ + signed_decimal(p as int) + " "@).is_prefix_of(r@))
                && (p == 0 && one ==> r@ == render_terms(sort_desc(self.derived()), 0)),
    {
        let mut ret = String::new();
        match self.exp {
            Some((pre, p)) => {
                let (one, text) = show(pre);
                if !(one && p == 0) {
                    ret.append(text.as_str());
                    ret.append("E");
                    push_signed_decimal(&mut ret, p);
                    ret.append(" ");
                }
            },
            None => {},
        }
        let sorted = sorted_desc(&self.derived);
        proof {
            lemma_sort_desc_entries(self.derived());
            assert forall|k: int| 0 <= k < map_view(sorted@).len() implies (#[trigger] map_view(sorted@)[k]).1 > isize::MIN by {
                let e = map_view(sorted@)[k];
                assert(sort_desc(self.derived())[k] == e);
                let q = choose|q: int| 0 <= q < self.derived().len() && self.derived()[q] == e;
                assert(self.derived()[q].1 > isize::MIN);
            }
        }
        let ghost before = ret@;
        render_entries(&sorted, &mut ret);
        proof {
            if self.exp() is Some {
                lemma_scale_written(*self, show, ret@);
            }
        }
        ret
    }
}


/// Whether every exponent has a magnitude that fits a machine integer.
fn no_min_exec(v: &Vec<(String, isize)>) -> (b: bool)
    ensures
        b == no_min(map_view(v@)),
{
    let mut k: usize = 0;
    while k < v.len()
        invariant
            k <= v@.len(),
            forall|j: int| 0 <= j < k ==> (#[trigger] map_view(v@)[j]).1 > isize::MIN,
        decreases v@.len() - k,
    {
        assert(map_view(v@)[k as int].1 == v@[k as int].1 as int);
        if v[k].1 == isize::MIN {
            return false;
        }
        k = k + 1;
    }
    true
}

impl<M> DerivedUnit<M> {
    /// Whether every exponent has a magnitude that fits a machine integer.
    pub fn can_write(&self) -> (b: bool)
        ensures
            b == no_min(self.derived()),
    {
        no_min_exec(&self.derived)
    }

    /// Whether the product (`neg` false) or quotient (`neg` true) of the two
    /// units can be computed and written: every exponent computed, and its
    /// magnitude, fits a machine integer, and so does the power of ten.
    pub fn can_combine(&self, d: &DerivedUnit<M>, neg: bool) -> (b: bool)
        requires
            self.wf(),
        ensures
            b == (combine_fits(self.derived(), d.derived(), if neg { -1 } else { 1 })
                && ((self.exp(), d.exp()) matches (Some(l), Some(rr))
                    ==> isize::MIN <= l.1 + (if neg { -(rr.1 as int) } else { rr.1 as int }) <= isize::MAX)
                && no_min(combine(self.derived(), d.derived(), if neg { -1 } else { 1 }))),
    {
        let powers_fit = match (&self.exp, &d.exp) {
            (Some(l), Some(r)) => {
                let t: i128 = if neg { l.1 as i128 - r.1 as i128 } else { l.1 as i128 + r.1 as i128 };
                isize::MIN as i128 <= t && t <= isize::MAX as i128
            },
            _ => true,
        };
        match combine_exec(&self.derived, &d.derived, neg) {
            Some(v) => powers_fit && no_min_exec(&v),
            None => false,
        }
    }
}

} // verus!
