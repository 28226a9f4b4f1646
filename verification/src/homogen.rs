use vstd::prelude::*;

use crate::text::{decimal, push_decimal};

verus! {

/// The seven base units of the International System of Units.
#[derive(Copy, Clone, Eq, PartialEq, Structural, Ord, PartialOrd, Hash, Debug)]
pub enum SiBaseUnit {
    Metre,
    Kilogram,
    Second,
    Ampere,
    Kelvin,
    Mole,
    Candela,
}

/// A unit composed of SI base units: the exponent of each base unit, in the
/// order of the variants of `SiBaseUnit`.
#[derive(Copy, Clone, Eq, PartialEq, Ord, PartialOrd, Hash, Debug)]
pub struct SiComposedUnit([isize; 7]);

/// Position of a base unit among the seven.
pub open spec fn base_index(u: SiBaseUnit) -> int {
    match u {
        SiBaseUnit::Metre => 0,
        SiBaseUnit::Kilogram => 1,
        SiBaseUnit::Second => 2,
        SiBaseUnit::Ampere => 3,
        SiBaseUnit::Kelvin => 4,
        SiBaseUnit::Mole => 5,
        SiBaseUnit::Candela => 6,
    }
}

impl View for SiComposedUnit {
    type V = Seq<int>;

    /// The seven exponents.
    closed spec fn view(&self) -> Seq<int> {
        self.0@.map_values(|x: isize| x as int)
    }
}

/// Exponents that fit the machine integers of a composed unit.
pub open spec fn fits(e: Seq<int>) -> bool {
    e.len() == 7 && forall|k: int| 0 <= k < 7 ==> isize::MIN <= #[trigger] e[k] <= isize::MAX
}

/// Component-wise sum of exponents.
pub open spec fn add_exps(a: Seq<int>, b: Seq<int>) -> Seq<int> {
    Seq::new(7, |k: int| a[k] + b[k])
}

/// Component-wise difference of exponents.
pub open spec fn sub_exps(a: Seq<int>, b: Seq<int>) -> Seq<int> {
    Seq::new(7, |k: int| a[k] - b[k])
}

/// The exponents of a single base unit.
pub open spec fn unit_exps(u: SiBaseUnit) -> Seq<int> {
    Seq::new(7, |k: int| if k == base_index(u) { 1int } else { 0int })
}

impl SiComposedUnit {
    /// Every composed unit has seven exponents within machine range.
    pub proof fn lemma_fits(self)
        ensures
            fits(self@),
    {
    }

    /// The composed unit with the given exponents.
    pub fn from_exponents(e: [isize; 7]) -> (u: Self)
        ensures
            u@ == e@.map_values(|x: isize| x as int),
    {
        SiComposedUnit(e)
    }

    /// The seven exponents.
    pub fn exponents(&self) -> (e: [isize; 7])
        ensures
            e@.map_values(|x: isize| x as int) == self@,
    {
        self.0
    }
}


/// Something that designates a composed SI unit.
pub trait Unit: Sized {
    /// The composed unit designated by `self`.
    spec fn spec_composed_unit(self) -> SiComposedUnit;

    fn composed_unit(self) -> (u: SiComposedUnit)
        ensures
            u == self.spec_composed_unit(),
    ;

    /// A value with this unit.
    fn new<V>(self, value: V) -> (d: Dimensioned<V>)
        ensures
            d.value() == value,
            d.unit() == self.spec_composed_unit(),
    {
        Dimensioned { value, unit: self.composed_unit() }
    }
}

impl Unit for SiBaseUnit {
    open spec fn spec_composed_unit(self) -> SiComposedUnit {
        SiComposedUnit::spec_from_base(self)
    }

    fn composed_unit(self) -> (u: SiComposedUnit) {
        let mut base: [isize; 7] = [0, 0, 0, 0, 0, 0, 0];
        match self {
            SiBaseUnit::Metre => { base = [1, 0, 0, 0, 0, 0, 0]; },
            SiBaseUnit::Kilogram => { base = [0, 1, 0, 0, 0, 0, 0]; },
            SiBaseUnit::Second => { base = [0, 0, 1, 0, 0, 0, 0]; },
            SiBaseUnit::Ampere => { base = [0, 0, 0, 1, 0, 0, 0]; },
            SiBaseUnit::Kelvin => { base = [0, 0, 0, 0, 1, 0, 0]; },
            SiBaseUnit::Mole => { base = [0, 0, 0, 0, 0, 1, 0]; },
            SiBaseUnit::Candela => { base = [0, 0, 0, 0, 0, 0, 1]; },
        }
        let u = SiComposedUnit(base);
        proof { SiComposedUnit::lemma_spec_from_base(self); }
        assert(u@ =~= unit_exps(self));
        u
    }
}

impl Unit for SiComposedUnit {
    open spec fn spec_composed_unit(self) -> SiComposedUnit {
        self
    }

    fn composed_unit(self) -> (u: SiComposedUnit) {
        self
    }
}

impl SiComposedUnit {
    /// The composed unit of a single base unit.
    pub closed spec fn spec_from_base(u: SiBaseUnit) -> SiComposedUnit {
        SiComposedUnit(
            match u {
                SiBaseUnit::Metre => [1, 0, 0, 0, 0, 0, 0],
                SiBaseUnit::Kilogram => [0, 1, 0, 0, 0, 0, 0],
                SiBaseUnit::Second => [0, 0, 1, 0, 0, 0, 0],
                SiBaseUnit::Ampere => [0, 0, 0, 1, 0, 0, 0],
                SiBaseUnit::Kelvin => [0, 0, 0, 0, 1, 0, 0],
                SiBaseUnit::Mole => [0, 0, 0, 0, 0, 1, 0],
                SiBaseUnit::Candela => [0, 0, 0, 0, 0, 0, 1],
            },
        )
    }

    /// The composed unit of a base unit has exponent 1 for it and 0 elsewhere.
    pub proof fn lemma_spec_from_base(u: SiBaseUnit)
        ensures
            Self::spec_from_base(u)@ == unit_exps(u),
    {
        assert(Self::spec_from_base(u)@ =~= unit_exps(u));
    }
}

impl SiComposedUnit {
    /// The product of two composed units: exponents add up.
    pub closed spec fn spec_mul(self, rhs: SiComposedUnit) -> SiComposedUnit {
        let a = self.0;
        let b = rhs.0;
        SiComposedUnit([
            (a[0] + b[0]) as isize,
            (a[1] + b[1]) as isize,
            (a[2] + b[2]) as isize,
            (a[3] + b[3]) as isize,
            (a[4] + b[4]) as isize,
            (a[5] + b[5]) as isize,
            (a[6] + b[6]) as isize,
        ])
    }

    /// The quotient of two composed units: exponents subtract.
    pub closed spec fn spec_div(self, rhs: SiComposedUnit) -> SiComposedUnit {
        let a = self.0;
        let b = rhs.0;
        SiComposedUnit([
            (a[0] - b[0]) as isize,
            (a[1] - b[1]) as isize,
            (a[2] - b[2]) as isize,
            (a[3] - b[3]) as isize,
            (a[4] - b[4]) as isize,
            (a[5] - b[5]) as isize,
            (a[6] - b[6]) as isize,
        ])
    }

    /// When it fits, the exponents of a product are the sums of the exponents.
    pub proof fn lemma_spec_mul(self, rhs: SiComposedUnit)
        requires
            fits(add_exps(self@, rhs@)),
        ensures
            self.spec_mul(rhs)@ == add_exps(self@, rhs@),
    {
        assert(fits(add_exps(self@, rhs@)));
        assert forall|k: int| 0 <= k < 7 implies isize::MIN <= #[trigger] self.0@[k] + rhs.0@[k] <= isize::MAX by {
            assert(add_exps(self@, rhs@)[k] == self@[k] + rhs@[k]);
        }
        assert(self.spec_mul(rhs)@ =~= add_exps(self@, rhs@));
    }

    /// When it fits, the exponents of a quotient are the differences of the exponents.
    pub proof fn lemma_spec_div(self, rhs: SiComposedUnit)
        requires
            fits(sub_exps(self@, rhs@)),
        ensures
            self.spec_div(rhs)@ == sub_exps(self@, rhs@),
    {
        assert forall|k: int| 0 <= k < 7 implies isize::MIN <= #[trigger] self.0@[k] - rhs.0@[k] <= isize::MAX by {
            assert(sub_exps(self@, rhs@)[k] == self@[k] - rhs@[k]);
        }
        assert(self.spec_div(rhs)@ =~= sub_exps(self@, rhs@));
    }

    /// Two composed units with the same exponents are the same.
    pub proof fn lemma_ext_eq(self, rhs: SiComposedUnit)
        requires
            self@ == rhs@,
        ensures
            self == rhs,
    {
        assert forall|k: int| 0 <= k < 7 implies #[trigger] self.0@[k] == rhs.0@[k] by {
            assert(self@[k] == rhs@[k]);
            assert(self@[k] == self.0@[k] as int);
            assert(rhs@[k] == rhs.0@[k] as int);
        }
        assert(self.0@ =~= rhs.0@);
        broadcast use vstd::array::axiom_array_ext_equal;
        assert(self.0 == rhs.0);
    }
}

impl core::ops::Mul for SiComposedUnit {
    type Output = SiComposedUnit;

    fn mul(self, rhs: SiComposedUnit) -> (r: SiComposedUnit) {
        proof { self.lemma_spec_mul(rhs); }
        let a = self.0;
        let b = rhs.0;
        assert(a@[0] + b@[0] == add_exps(self@, rhs@)[0]);
        assert(a@[1] + b@[1] == add_exps(self@, rhs@)[1]);
        assert(a@[2] + b@[2] == add_exps(self@, rhs@)[2]);
        assert(a@[3] + b@[3] == add_exps(self@, rhs@)[3]);
        assert(a@[4] + b@[4] == add_exps(self@, rhs@)[4]);
        assert(a@[5] + b@[5] == add_exps(self@, rhs@)[5]);
        assert(a@[6] + b@[6] == add_exps(self@, rhs@)[6]);
        SiComposedUnit([a[0] + b[0], a[1] + b[1], a[2] + b[2], a[3] + b[3], a[4] + b[4], a[5] + b[5], a[6] + b[6]])
    }
}

impl vstd::std_specs::ops::MulSpecImpl for SiComposedUnit {
    open spec fn obeys_mul_spec() -> bool {
        true
    }

    open spec fn mul_req(self, rhs: SiComposedUnit) -> bool {
        fits(add_exps(self@, rhs@))
    }

    open spec fn mul_spec(self, rhs: SiComposedUnit) -> SiComposedUnit {
        self.spec_mul(rhs)
    }
}

impl core::ops::Div for SiComposedUnit {
    type Output = SiComposedUnit;

    fn div(self, rhs: SiComposedUnit) -> (r: SiComposedUnit) {
        proof { self.lemma_spec_div(rhs); }
        let a = self.0;
        let b = rhs.0;
        assert(a@[0] - b@[0] == sub_exps(self@, rhs@)[0]);
        assert(a@[1] - b@[1] == sub_exps(self@, rhs@)[1]);
        assert(a@[2] - b@[2] == sub_exps(self@, rhs@)[2]);
        assert(a@[3] - b@[3] == sub_exps(self@, rhs@)[3]);
        assert(a@[4] - b@[4] == sub_exps(self@, rhs@)[4]);
        assert(a@[5] - b@[5] == sub_exps(self@, rhs@)[5]);
        assert(a@[6] - b@[6] == sub_exps(self@, rhs@)[6]);
        SiComposedUnit([a[0] - b[0], a[1] - b[1], a[2] - b[2], a[3] - b[3], a[4] - b[4], a[5] - b[5], a[6] - b[6]])
    }
}

impl vstd::std_specs::ops::DivSpecImpl for SiComposedUnit {
    open spec fn obeys_div_spec() -> bool {
        true
    }

    open spec fn div_req(self, rhs: SiComposedUnit) -> bool {
        fits(sub_exps(self@, rhs@))
    }

    open spec fn div_spec(self, rhs: SiComposedUnit) -> SiComposedUnit {
        self.spec_div(rhs)
    }
}

impl core::ops::Mul for SiBaseUnit {
    type Output = SiComposedUnit;

    fn mul(self, rhs: SiBaseUnit) -> (r: SiComposedUnit) {
        proof {
            SiComposedUnit::lemma_spec_from_base(self);
            SiComposedUnit::lemma_spec_from_base(rhs);
            assert(fits(add_exps(unit_exps(self), unit_exps(rhs))));
        }
        self.composed_unit() * rhs.composed_unit()
    }
}

impl vstd::std_specs::ops::MulSpecImpl for SiBaseUnit {
    open spec fn obeys_mul_spec() -> bool {
        true
    }

    open spec fn mul_req(self, rhs: SiBaseUnit) -> bool {
        true
    }

    open spec fn mul_spec(self, rhs: SiBaseUnit) -> SiComposedUnit {
        self.spec_composed_unit().spec_mul(rhs.spec_composed_unit())
    }
}

impl core::ops::Div for SiBaseUnit {
    type Output = SiComposedUnit;

    fn div(self, rhs: SiBaseUnit) -> (r: SiComposedUnit) {
        proof {
            SiComposedUnit::lemma_spec_from_base(self);
            SiComposedUnit::lemma_spec_from_base(rhs);
            assert(fits(sub_exps(unit_exps(self), unit_exps(rhs))));
        }
        self.composed_unit() / rhs.composed_unit()
    }
}

impl vstd::std_specs::ops::DivSpecImpl for SiBaseUnit {
    open spec fn obeys_div_spec() -> bool {
        true
    }

    open spec fn div_req(self, rhs: SiBaseUnit) -> bool {
        true
    }

    open spec fn div_spec(self, rhs: SiBaseUnit) -> SiComposedUnit {
        self.spec_composed_unit().spec_div(rhs.spec_composed_unit())
    }
}

/// A value together with its composed SI unit.
#[derive(Copy, Clone, Eq, PartialEq, Ord, PartialOrd, Hash, Debug)]
pub struct Dimensioned<V> {
    value: V,
    unit: SiComposedUnit,
}

impl<V> Dimensioned<V> {
    pub closed spec fn value(self) -> V {
        self.value
    }

    pub closed spec fn unit(self) -> SiComposedUnit {
        self.unit
    }

    pub fn new<U: Unit>(value: V, unit: U) -> (d: Self)
        ensures
            d.value() == value,
            d.unit() == unit.spec_composed_unit(),
    {
        Self { value, unit: unit.composed_unit() }
    }
}


impl<V, W> core::ops::Mul<Dimensioned<W>> for Dimensioned<V> where V: core::ops::Mul<W> {
    type Output = Dimensioned<<V as core::ops::Mul<W>>::Output>;

    fn mul(self, rhs: Dimensioned<W>) -> (r: Self::Output) {
        Dimensioned { value: self.value * rhs.value, unit: self.unit * rhs.unit }
    }
}

impl<V, W> vstd::std_specs::ops::MulSpecImpl<Dimensioned<W>> for Dimensioned<V> where V: core::ops::Mul<W> {
    open spec fn obeys_mul_spec() -> bool {
        <V as vstd::std_specs::ops::MulSpec<W>>::obeys_mul_spec()
    }

    open spec fn mul_req(self, rhs: Dimensioned<W>) -> bool {
        <V as vstd::std_specs::ops::MulSpec<W>>::mul_req(self.value(), rhs.value()) && fits(add_exps(self.unit()@, rhs.unit()@))
    }

    open spec fn mul_spec(self, rhs: Dimensioned<W>) -> Self::Output {
        Dimensioned::spec_make(<V as vstd::std_specs::ops::MulSpec<W>>::mul_spec(self.value(), rhs.value()), self.unit().spec_mul(rhs.unit()))
    }
}

impl<V, W> core::ops::Div<Dimensioned<W>> for Dimensioned<V> where V: core::ops::Div<W> {
    type Output = Dimensioned<<V as core::ops::Div<W>>::Output>;

    fn div(self, rhs: Dimensioned<W>) -> (r: Self::Output) {
        Dimensioned { value: self.value / rhs.value, unit: self.unit / rhs.unit }
    }
}

impl<V, W> vstd::std_specs::ops::DivSpecImpl<Dimensioned<W>> for Dimensioned<V> where V: core::ops::Div<W> {
    open spec fn obeys_div_spec() -> bool {
        <V as vstd::std_specs::ops::DivSpec<W>>::obeys_div_spec()
    }

    open spec fn div_req(self, rhs: Dimensioned<W>) -> bool {
        <V as vstd::std_specs::ops::DivSpec<W>>::div_req(self.value(), rhs.value()) && fits(sub_exps(self.unit()@, rhs.unit()@))
    }

    open spec fn div_spec(self, rhs: Dimensioned<W>) -> Self::Output {
        Dimensioned::spec_make(<V as vstd::std_specs::ops::DivSpec<W>>::div_spec(self.value(), rhs.value()), self.unit().spec_div(rhs.unit()))
    }
}

impl<V> Dimensioned<V> {
    /// The dimensioned value made of `value` and `unit`.
    pub closed spec fn spec_make(value: V, unit: SiComposedUnit) -> Dimensioned<V> {
        Dimensioned { value, unit }
    }

    /// The parts of a dimensioned value made from parts are those parts.
    pub proof fn lemma_spec_make(value: V, unit: SiComposedUnit)
        ensures
            Self::spec_make(value, unit).value() == value,
            Self::spec_make(value, unit).unit() == unit,
    {
    }
}


/// The symbol of the base unit at position `k`.
pub open spec fn symbol(k: int) -> Seq<char> {
    if k == 0 { "m"@ }
    else if k == 1 { "kg"@ }
    else if k == 2 { "s"@ }
    else if k == 3 { "A"@ }
    else if k == 4 { "K"@ }
    else if k == 5 { "mol"@ }
    else { "cd"@ }
}

fn symbol_str(k: usize) -> (s: &'static str)
    requires
        k < 7,
    ensures
        s@ == symbol(k as int),
{
    if k == 0 { "m" }
    else if k == 1 { "kg" }
    else if k == 2 { "s" }
    else if k == 3 { "A" }
    else if k == 4 { "K" }
    else if k == 5 { "mol" }
    else { "cd" }
}

/// The units with a positive exponent, from position `k` on: separated by
/// '.', each followed by '^' and its exponent when that exceeds 1.
pub open spec fn render_pos(e: Seq<int>, k: int, first: bool) -> Seq<char>
    decreases 7 - k,
{
    if k >= 7 || k < 0 {
        Seq::empty()
    } else if e[k] > 0 {
        (if first { Seq::empty() } else { "."@ }) + symbol(k)
            + (if e[k] > 1 { "^"@ + decimal(e[k] as nat) } else { Seq::empty() })
            + render_pos(e, k + 1, false)
    } else {
        render_pos(e, k + 1, first)
    }
}

/// The units with a negative exponent, from position `k` on: each preceded
/// by '/', the first one by "1/" when nothing was written before.
pub open spec fn render_neg(e: Seq<int>, k: int, first: bool) -> Seq<char>
    decreases 7 - k,
{
    if k >= 7 || k < 0 {
        Seq::empty()
    } else if e[k] < 0 {
        (if first { "1"@ } else { Seq::empty() }) + "/"@ + symbol(k) + render_neg(e, k + 1, false)
    } else {
        render_neg(e, k + 1, first)
    }
}

/// No exponent among the first `k` is positive.
pub open spec fn none_positive(e: Seq<int>, k: int) -> bool {
    forall|j: int| 0 <= j < k ==> #[trigger] e[j] <= 0
}

/// How a composed unit is written.
pub open spec fn render(e: Seq<int>) -> Seq<char> {
    render_pos(e, 0, true) + render_neg(e, 0, none_positive(e, 7))
}

/// The text `t` stands somewhere in `s`.
pub open spec fn occurs(s: Seq<char>, t: Seq<char>) -> bool {
    exists|i: int| 0 <= i <= s.len() && t.is_prefix_of(#[trigger] s.skip(i))
}

/// Text found in a part is found in the whole.
proof fn lemma_occurs_concat(a: Seq<char>, b: Seq<char>, t: Seq<char>)
    ensures
        occurs(a, t) ==> occurs(a + b, t),
        occurs(b, t) ==> occurs(a + b, t),
        occurs(t + b, t),
{
    if occurs(a, t) {
        let i = choose|i: int| 0 <= i <= a.len() && t.is_prefix_of(#[trigger] a.skip(i));
        assert(t =~= (a + b).skip(i).subrange(0, t.len() as int));
    }
    if occurs(b, t) {
        let i = choose|i: int| 0 <= i <= b.len() && t.is_prefix_of(#[trigger] b.skip(i));
        assert(t =~= (a + b).skip(a.len() + i).subrange(0, t.len() as int));
    }
    assert(t =~= (t + b).skip(0).subrange(0, t.len() as int));
}

/// From position `j` on, a negative exponent at `k` is written as '/' and
/// the symbol.
proof fn lemma_neg_occurs(e: Seq<int>, j: int, first: bool, k: int)
    requires
        0 <= j <= k < 7,
        e[k] < 0,
    ensures
        occurs(render_neg(e, j, first), "/"@ + symbol(k)),
    decreases k - j,
{
    let t = "/"@ + symbol(k);
    if e[j] < 0 {
        let pre = if first { "1"@ } else { Seq::empty() };
        let tail = render_neg(e, j + 1, false);
        let head = pre + "/"@ + symbol(j);
        assert(render_neg(e, j, first) == head + tail);
        if j == k {
            lemma_occurs_concat(pre, tail, t);
            lemma_occurs_concat(pre, t + tail, t);
            assert(pre + (t + tail) =~= head + tail);
        } else {
            lemma_neg_occurs(e, j + 1, false, k);
            lemma_occurs_concat(head, tail, t);
        }
    } else {
        lemma_neg_occurs(e, j + 1, first, k);
    }
}

/// From position `j` on, a positive exponent at `k` has its symbol written.
proof fn lemma_pos_occurs(e: Seq<int>, j: int, first: bool, k: int)
    requires
        0 <= j <= k < 7,
        e[k] > 0,
    ensures
        occurs(render_pos(e, j, first), symbol(k)),
    decreases k - j,
{
    let t = symbol(k);
    if e[j] > 0 {
        let pre = if first { Seq::empty() } else { "."@ };
        let pw = if e[j] > 1 { "^"@ + decimal(e[j] as nat) } else { Seq::empty() };
        let tail = render_pos(e, j + 1, false);
        assert(render_pos(e, j, first) == pre + symbol(j) + pw + tail);
        if j == k {
            lemma_occurs_concat(t, pw + tail, t);
            lemma_occurs_concat(pre, t + (pw + tail), t);
            assert(pre + (t + (pw + tail)) =~= pre + symbol(j) + pw + tail);
        } else {
            lemma_pos_occurs(e, j + 1, false, k);
            lemma_occurs_concat(pre + symbol(j) + pw, tail, t);
        }
    } else {
        lemma_pos_occurs(e, j + 1, first, k);
    }
}

/// With every exponent zero from position `j` on, nothing more is written.
proof fn lemma_zero_rest(e: Seq<int>, j: int, first: bool)
    requires
        0 <= j <= 7,
        forall|k: int| j <= k < 7 ==> #[trigger] e[k] == 0,
    ensures
        render_pos(e, j, first) == Seq::<char>::empty(),
        render_neg(e, j, first) == Seq::<char>::empty(),
    decreases 7 - j,
{
    if j < 7 {
        lemma_zero_rest(e, j + 1, first);
    }
}

/// Every base unit whose exponent is not zero is written: with a negative
/// exponent as '/' followed by its symbol, with a positive one by its
/// symbol. Only the unit whose exponents are all zero is written as nothing.
pub proof fn lemma_render_shows_all(e: Seq<int>)
    ensures
        forall|k: int| 0 <= k < 7 && #[trigger] e[k] < 0 ==> occurs(render(e), "/"@ + symbol(k)),
        forall|k: int| 0 <= k < 7 && #[trigger] e[k] > 0 ==> occurs(render(e), symbol(k)),
        render(e).len() == 0 <==> forall|k: int| 0 <= k < 7 ==> #[trigger] e[k] == 0,
{
    let a = render_pos(e, 0, true);
    let b = render_neg(e, 0, none_positive(e, 7));
    assert forall|k: int| 0 <= k < 7 && #[trigger] e[k] < 0 implies occurs(render(e), "/"@ + symbol(k)) by {
        lemma_neg_occurs(e, 0, none_positive(e, 7), k);
        lemma_occurs_concat(a, b, "/"@ + symbol(k));
    }
    assert forall|k: int| 0 <= k < 7 && #[trigger] e[k] > 0 implies occurs(render(e), symbol(k)) by {
        lemma_pos_occurs(e, 0, true, k);
        lemma_occurs_concat(a, b, symbol(k));
    }
    if forall|k: int| 0 <= k < 7 ==> #[trigger] e[k] == 0 {
        lemma_zero_rest(e, 0, true);
        lemma_zero_rest(e, 0, none_positive(e, 7));
        assert(render(e) =~= Seq::<char>::empty());
    } else {
        let k = choose|k: int| 0 <= k < 7 && !(#[trigger] e[k] == 0);
        reveal_strlit("/");
        reveal_strlit("m");
        reveal_strlit("kg");
        reveal_strlit("s");
        reveal_strlit("A");
        reveal_strlit("K");
        reveal_strlit("mol");
        reveal_strlit("cd");
        let t = if e[k] < 0 { "/"@ + symbol(k) } else { symbol(k) };
        assert(t.len() > 0);
        assert(occurs(render(e), t));
        let i = choose|i: int| 0 <= i <= render(e).len() && t.is_prefix_of(#[trigger] render(e).skip(i));
        assert(render(e).len() > 0);
    }
}

impl SiBaseUnit {
    /// The symbol of this base unit.
    pub fn to_string(&self) -> (s: String)
        ensures
            s@ == symbol(base_index(*self)),
    {
        let k: usize = match self {
            SiBaseUnit::Metre => 0,
            SiBaseUnit::Kilogram => 1,
            SiBaseUnit::Second => 2,
            SiBaseUnit::Ampere => 3,
            SiBaseUnit::Kelvin => 4,
            SiBaseUnit::Mole => 5,
            SiBaseUnit::Candela => 6,
        };
        String::from_str(symbol_str(k))
    }
}

impl SiComposedUnit {
    /// How this unit is written: for instance "m/s" or "kg.m^2".
    #[verifier::spinoff_prover]
    #[verifier::rlimit(30)]
    pub fn to_string(&self) -> (s: String)
        ensures
            s@ == render(self@),
            forall|k: int| 0 <= k < 7 && #[trigger] self@[k] < 0 ==> occurs(s@, "/"@ + symbol(k)),
            forall|k: int| 0 <= k < 7 && #[trigger] self@[k] > 0 ==> occurs(s@, symbol(k)),
            s@.len() == 0 <==> forall|k: int| 0 <= k < 7 ==> #[trigger] self@[k] == 0,
    {
        let ghost e = self@;
        proof {
            lemma_render_shows_all(e);
        }
        let mut out = String::new();
        let mut first = true;
        let mut k: usize = 0;
        while k < 7
            invariant
                e == self@,
                e.len() == 7,
                k <= 7,
                out@ + render_pos(e, k as int, first) == render_pos(e, 0, true),
                first == none_positive(e, k as int),
            decreases 7 - k,
        {
            let exp = self.0[k];
            assert(e[k as int] == exp as int);
            let ghost before = out@;
            let ghost first0 = first;
            if exp > 0 {
                if !first {
                    out.append(".");
                }
                first = false;
                out.append(symbol_str(k));
                if exp > 1 {
                    out.append("^");
                    push_decimal(&mut out, exp as usize);
                }
                assert(out@ + render_pos(e, k + 1, false) =~= before + render_pos(e, k as int, first0));
            }
            assert(first == none_positive(e, k + 1)) by {
                if !first0 {
                    let j = choose|j: int| 0 <= j < k && !(#[trigger] e[j] <= 0);
                    assert(e[j] > 0);
                }
            }
            k = k + 1;
        }
        k = 0;
        while k < 7
            invariant
                e == self@,
                e.len() == 7,
                k <= 7,
                out@ + render_neg(e, k as int, first) == render(e),
            decreases 7 - k,
        {
            let exp = self.0[k];
            assert(e[k as int] == exp as int);
            if exp < 0 {
                if first {
                    out.append("1");
                }
                out.append("/");
                first = false;
                out.append(symbol_str(k));
            }
            k = k + 1;
        }
        out
    }
}


impl SiComposedUnit {
    /// Multiplying units is commutative: a.b and b.a are the same unit.
    pub proof fn lemma_mul_commutative(a: SiComposedUnit, b: SiComposedUnit)
        requires
            fits(add_exps(a@, b@)),
        ensures
            a.spec_mul(b) == b.spec_mul(a),
    {
        a.lemma_spec_mul(b);
        assert(add_exps(a@, b@) =~= add_exps(b@, a@));
        b.lemma_spec_mul(a);
        a.spec_mul(b).lemma_ext_eq(b.spec_mul(a));
    }

    /// Multiplying units is associative: (a.b).c and a.(b.c) are the same unit.
    pub proof fn lemma_mul_associative(a: SiComposedUnit, b: SiComposedUnit, c: SiComposedUnit)
        requires
            fits(add_exps(a@, b@)),
            fits(add_exps(b@, c@)),
            fits(add_exps(add_exps(a@, b@), c@)),
        ensures
            a.spec_mul(b).spec_mul(c) == a.spec_mul(b.spec_mul(c)),
    {
        a.lemma_spec_mul(b);
        b.lemma_spec_mul(c);
        assert(add_exps(add_exps(a@, b@), c@) =~= add_exps(a@, add_exps(b@, c@)));
        a.spec_mul(b).lemma_spec_mul(c);
        a.lemma_spec_mul(b.spec_mul(c));
        a.spec_mul(b).spec_mul(c).lemma_ext_eq(a.spec_mul(b.spec_mul(c)));
    }

    /// Dividing by a unit undoes multiplying by it: (a.b)/b is a.
    pub proof fn lemma_div_cancels_mul(a: SiComposedUnit, b: SiComposedUnit)
        requires
            fits(add_exps(a@, b@)),
        ensures
            a.spec_mul(b).spec_div(b) == a,
    {
        a.lemma_spec_mul(b);
        a.lemma_fits();
        assert(sub_exps(add_exps(a@, b@), b@) =~= a@);
        a.spec_mul(b).lemma_spec_div(b);
        a.spec_mul(b).spec_div(b).lemma_ext_eq(a);
    }

    /// A unit divided by itself has all exponents zero, and is written as nothing.
    pub proof fn lemma_div_self(a: SiComposedUnit)
        ensures
            a.spec_div(a)@ == Seq::new(7, |k: int| 0int),
            render(a.spec_div(a)@) == Seq::<char>::empty(),
    {
        a.lemma_fits();
        assert(fits(sub_exps(a@, a@)));
        a.lemma_spec_div(a);
        let e = a.spec_div(a)@;
        assert(e =~= Seq::new(7, |k: int| 0int));
        assert(render_pos(e, 7, true) == Seq::<char>::empty());
        assert(render_pos(e, 6, true) == Seq::<char>::empty());
        assert(render_pos(e, 5, true) == Seq::<char>::empty());
        assert(render_pos(e, 4, true) == Seq::<char>::empty());
        assert(render_pos(e, 3, true) == Seq::<char>::empty());
        assert(render_pos(e, 2, true) == Seq::<char>::empty());
        assert(render_pos(e, 1, true) == Seq::<char>::empty());
        assert(render_pos(e, 0, true) == Seq::<char>::empty());
        assert(render_neg(e, 7, true) == Seq::<char>::empty());
        assert(render_neg(e, 6, true) == Seq::<char>::empty());
        assert(render_neg(e, 5, true) == Seq::<char>::empty());
        assert(render_neg(e, 4, true) == Seq::<char>::empty());
        assert(render_neg(e, 3, true) == Seq::<char>::empty());
        assert(render_neg(e, 2, true) == Seq::<char>::empty());
        assert(render_neg(e, 1, true) == Seq::<char>::empty());
        assert(render_neg(e, 0, true) == Seq::<char>::empty());
        assert(render(e) =~= Seq::<char>::empty());
    }
}

} // verus!
