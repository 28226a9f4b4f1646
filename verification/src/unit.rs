use vstd::prelude::*;

use crate::derived_unit::{
    combine, combine_fits, combine_scale, derived_of, no_min, read_as, scale_power, written_as, DerivedUnit,
};
use crate::unit_text::unit_readable;
use vstd::std_specs::cmp::PartialEqSpecImpl;

verus! {

/// A unit of measurement.
///
/// Would like to extend this type to include SI units or frequent units in
/// astrophysics.
#[derive(Clone, Debug)]
pub enum Unit {
    /// Unit is unknown
    Unknown,
    /// Custom unit represented with a string
    Custom(String),
}

/// The text of a unit, or nothing when it is unknown.
pub open spec fn unit_view(u: Unit) -> Option<Seq<char>> {
    match u {
        Unit::Unknown => None,
        Unit::Custom(s) => Some(s@),
    }
}

impl PartialEq for Unit {
    fn eq(&self, other: &Unit) -> (r: bool) {
        match (self, other) {
            (Unit::Unknown, Unit::Unknown) => true,
            (Unit::Custom(a), Unit::Custom(b)) => a.eq(b),
            _ => false,
        }
    }
}

impl PartialEqSpecImpl for Unit {
    open spec fn obeys_eq_spec() -> bool {
        true
    }

    open spec fn eq_spec(&self, other: &Unit) -> bool {
        unit_view(*self) == unit_view(*other)
    }
}

impl Eq for Unit {}

impl Default for Unit {
    fn default() -> (u: Self)
        ensures
            u == Unit::Unknown,
    {
        Unit::Unknown
    }
}

/// A product or quotient of the units written `a` and `b` can be computed:
/// both can be read, and every exponent computed fits a machine integer.
pub open spec fn combination_defined(a: Seq<char>, b: Seq<char>, sign: int) -> bool {
    &&& unit_readable(a)
    &&& unit_readable(b)
    &&& combine_fits(derived_of(a), derived_of(b), sign)
    &&& (scale_power(a), scale_power(b)) matches (Some(p), Some(q)) ==> isize::MIN <= p + sign * q <= isize::MAX
    &&& no_min(combine(derived_of(a), derived_of(b), sign))
}

/// `t` is the text of the product (`sign` 1) or quotient (`sign` -1) of the
/// units written `a` and `b`: both read with `parse`, named units combined,
/// scales combined with `f`, the result written with `show`.
pub open spec fn combined_as<M, P: Fn(String) -> M, F: Fn(M, M) -> M, S: Fn(M) -> (bool, String)>(
    a: Seq<char>,
    b: Seq<char>,
    parse: P,
    f: F,
    sign: int,
    show: S,
    t: Seq<char>,
) -> bool {
    exists|d1: DerivedUnit<M>, d2: DerivedUnit<M>, d: DerivedUnit<M>|
        #![trigger read_as(a, parse, d1), read_as(b, parse, d2), written_as(d, show, t)]
        read_as(a, parse, d1) && read_as(b, parse, d2)
        && d.derived() == combine(d1.derived(), d2.derived(), sign)
        && combine_scale(d1.exp(), d2.exp(), d.exp(), f, sign)
        && written_as(d, show, t)
}

impl Unit {
    /// A copy of this unit.
    pub fn duplicate(&self) -> (u: Unit)
        ensures
            u == *self,
    {
        match self {
            Unit::Unknown => Unit::Unknown,
            Unit::Custom(s) => Unit::Custom(s.clone()),
        }
    }

    /// Attach this unit to `value`.
    pub fn new<V>(self, value: V) -> (d: Dimensioned<V>)
        ensures
            d.value() == value,
            d.spec_unit() == self,
            d.homogeneous(),
    {
        Dimensioned { value, unit: self, homogeneous: true }
    }

    /// The text of this unit ("" when unknown).
    pub fn repr(&self) -> (s: &str)
        ensures
            s@ == match *self {
                Unit::Unknown => Seq::empty(),
                Unit::Custom(t) => t@,
            },
    {
        proof {
            reveal_strlit("");
        }
        match self {
            Unit::Unknown => "",
            Unit::Custom(unit) => unit.as_str(),
        }
    }

    /// The text of this unit, as it is displayed ("" when unknown).
    pub fn to_string(&self) -> (s: String)
        ensures
            s@ == match *self {
                Unit::Unknown => Seq::empty(),
                Unit::Custom(t) => t@,
            },
    {
        String::from_str(self.repr())
    }

    /// The product of two units, both of them known, written as text: the
    /// named units with their exponents added, the scales multiplied. The
    /// mantissa of a scale is read with `parse`, multiplied with `times` and
    /// written with `show`. An unknown unit gives an unknown product.
    pub fn mul<M: Copy, P: Fn(String) -> M, T: Fn(M, M) -> M, S: Fn(M) -> (bool, String)>(
        self,
        rhs: Unit,
        parse: P,
        times: T,
        show: S,
    ) -> (r: Self)
        requires
            forall|a: String| parse.requires((a,)),
            forall|a: M, b: M| times.requires((a, b)),
            forall|m: M| show.requires((m,)),
            (self, rhs) matches (Unit::Custom(a), Unit::Custom(b)) ==> combination_defined(a@, b@, 1),
        ensures
            match (self, rhs) {
                (Unit::Custom(a), Unit::Custom(b)) => r matches Unit::Custom(t) && combined_as(a@, b@, parse, times, 1, show, t@),
                _ => r == Unit::Unknown,
            },
    {
        match (self, rhs) {
            (Unit::Custom(s1), Unit::Custom(s2)) => {
                let d1 = DerivedUnit::new(&s1).map_mantissa(&parse);
                let d2 = DerivedUnit::new(&s2).map_mantissa(&parse);
                let ghost g2 = d2;
                let d = d1.mul(d2, times);
                let s = d.to_string(show);
                proof {
                    assert(read_as(s1@, parse, d1));
                    assert(read_as(s2@, parse, g2));
                    assert(written_as(d, show, s@));
                    assert(combined_as(s1@, s2@, parse, times, 1, show, s@));
                }
                Unit::Custom(s)
            },
            _ => Unit::Unknown,
        }
    }
    /// The quotient of two units, both of them known, written as text: the
    /// named units with their exponents added, the scales multiplied. The
    /// mantissa of a scale is read with `parse`, multiplied with `over` and
    /// written with `show`. An unknown unit gives an unknown quotient.
    pub fn div<M: Copy, P: Fn(String) -> M, T: Fn(M, M) -> M, S: Fn(M) -> (bool, String)>(
        self,
        rhs: Unit,
        parse: P,
        over: T,
        show: S,
    ) -> (r: Self)
        requires
            forall|a: String| parse.requires((a,)),
            forall|a: M, b: M| over.requires((a, b)),
            forall|m: M| show.requires((m,)),
            (self, rhs) matches (Unit::Custom(a), Unit::Custom(b)) ==> combination_defined(a@, b@, -1),
        ensures
            match (self, rhs) {
                (Unit::Custom(a), Unit::Custom(b)) => r matches Unit::Custom(t) && combined_as(a@, b@, parse, over, -1, show, t@),
                _ => r == Unit::Unknown,
            },
    {
        match (self, rhs) {
            (Unit::Custom(s1), Unit::Custom(s2)) => {
                let d1 = DerivedUnit::new(&s1).map_mantissa(&parse);
                let d2 = DerivedUnit::new(&s2).map_mantissa(&parse);
                let ghost g2 = d2;
                let d = d1.div(d2, over);
                let s = d.to_string(show);
                proof {
                    assert(read_as(s1@, parse, d1));
                    assert(read_as(s2@, parse, g2));
                    assert(written_as(d, show, s@));
                    assert(combined_as(s1@, s2@, parse, over, -1, show, s@));
                }
                Unit::Custom(s)
            },
            _ => Unit::Unknown,
        }
    }

    /// Whether the product (`neg` false) or quotient (`neg` true) of two
    /// units can be computed: see `combination_defined`. An unknown unit
    /// always combines.
    pub fn combinable(&self, rhs: &Unit, neg: bool) -> (b: bool)
        ensures
            b == ((*self, *rhs) matches (Unit::Custom(x), Unit::Custom(y))
                ==> combination_defined(x@, y@, if neg { -1 } else { 1 })),
    {
        match (self, rhs) {
            (Unit::Custom(s1), Unit::Custom(s2)) => {
                if !DerivedUnit::readable(s1) || !DerivedUnit::readable(s2) {
                    return false;
                }
                let d1 = DerivedUnit::new(s1);
                let d2 = DerivedUnit::new(s2);
                d1.can_combine(&d2, neg)
            },
            _ => true,
        }
    }
}

/// Container for a value with a dimension (i.e. a unit).
///
/// This container implements common operations and keep track of the unit
/// of the resulting value. Unit information is guaranteed to be correct as
/// long as the inner flag `homogeneous` is true.
#[derive(Clone, Debug)]
pub struct Dimensioned<V> {
    value: V,
    unit: Unit,
    homogeneous: bool,
}

impl<V> Dimensioned<V> {
    /// The value, without its unit.
    pub closed spec fn value(self) -> V {
        self.value
    }

    /// The unit attached to the value.
    pub closed spec fn spec_unit(self) -> Unit {
        self.unit
    }

    /// Whether the unit is known to be correct.
    pub closed spec fn homogeneous(self) -> bool {
        self.homogeneous
    }

    /// The dimensioned value made of these three parts.
    pub closed spec fn spec_make(value: V, unit: Unit, homogeneous: bool) -> Dimensioned<V> {
        Dimensioned { value, unit, homogeneous }
    }

    /// The parts of a dimensioned value made from parts are those parts.
    pub proof fn lemma_spec_make(value: V, unit: Unit, homogeneous: bool)
        ensures
            Self::spec_make(value, unit, homogeneous).value() == value,
            Self::spec_make(value, unit, homogeneous).spec_unit() == unit,
            Self::spec_make(value, unit, homogeneous).homogeneous() == homogeneous,
    {
    }

    /// Make a new dimensioned value with given unit.
    pub fn new(value: V, unit: Unit) -> (d: Self)
        ensures
            d.value() == value,
            d.spec_unit() == unit,
            d.homogeneous(),
    {
        unit.new(value)
    }

    /// Get reference to contained scalar value (without unit).
    pub fn scalar(&self) -> (r: &V)
        ensures
            *r == self.value(),
    {
        &self.value
    }

    /// Get mutable reference to contained scalar value (without unit).
    pub fn scalar_mut(&mut self) -> (r: &mut V)
        ensures
            *r == old(self).value(),
            final(self).value() == *final(r),
            final(self).spec_unit() == old(self).spec_unit(),
            final(self).homogeneous() == old(self).homogeneous(),
    {
        &mut self.value
    }

    /// Get unit.
    pub fn unit(&self) -> (r: &Unit)
        ensures
            *r == self.spec_unit(),
    {
        &self.unit
    }

    /// Make a new dimensioned value with the same unit containing the passed
    /// value.
    pub fn with_new_value<W>(&self, value: W) -> (d: Dimensioned<W>)
        ensures
            d.value() == value,
            d.spec_unit() == self.spec_unit(),
            d.homogeneous() == self.homogeneous(),
    {
        Dimensioned { value, unit: self.unit.duplicate(), homogeneous: self.homogeneous }
    }
}

/// Whether the sum or difference of `a` and `b` keeps a correct unit: both
/// units are correct and they are the same.
pub open spec fn same_units<V, W>(a: Dimensioned<V>, b: Dimensioned<W>) -> bool {
    a.homogeneous() && b.homogeneous() && unit_view(a.spec_unit()) == unit_view(b.spec_unit())
}

impl<V, W> core::ops::Mul<W> for Dimensioned<V> where V: core::ops::Mul<W> {
    type Output = Dimensioned<<V as core::ops::Mul<W>>::Output>;

    /// Scale the value; the unit is kept.
    fn mul(self, rhs: W) -> (r: Self::Output)
        ensures
            call_ensures(V::mul, (self.value(), rhs), r.value()),
            r.spec_unit() == self.spec_unit(),
            r.homogeneous() == self.homogeneous(),
    {
        Dimensioned { value: self.value * rhs, unit: self.unit, homogeneous: self.homogeneous }
    }
}

impl<V, W> vstd::std_specs::ops::MulSpecImpl<W> for Dimensioned<V> where V: core::ops::Mul<W> {
    open spec fn obeys_mul_spec() -> bool {
        <V as vstd::std_specs::ops::MulSpec<W>>::obeys_mul_spec()
    }

    open spec fn mul_req(self, rhs: W) -> bool {
        <V as vstd::std_specs::ops::MulSpec<W>>::mul_req(self.value(), rhs)
    }

    open spec fn mul_spec(self, rhs: W) -> Self::Output {
        Dimensioned::spec_make(<V as vstd::std_specs::ops::MulSpec<W>>::mul_spec(self.value(), rhs), self.spec_unit(), self.homogeneous())
    }
}

impl<V, W> core::ops::Div<W> for Dimensioned<V> where V: core::ops::Div<W> {
    type Output = Dimensioned<<V as core::ops::Div<W>>::Output>;

    /// Divide the value; the unit is kept.
    fn div(self, rhs: W) -> (r: Self::Output)
        ensures
            call_ensures(V::div, (self.value(), rhs), r.value()),
            r.spec_unit() == self.spec_unit(),
            r.homogeneous() == self.homogeneous(),
    {
        Dimensioned { value: self.value / rhs, unit: self.unit, homogeneous: self.homogeneous }
    }
}

impl<V, W> vstd::std_specs::ops::DivSpecImpl<W> for Dimensioned<V> where V: core::ops::Div<W> {
    open spec fn obeys_div_spec() -> bool {
        <V as vstd::std_specs::ops::DivSpec<W>>::obeys_div_spec()
    }

    open spec fn div_req(self, rhs: W) -> bool {
        <V as vstd::std_specs::ops::DivSpec<W>>::div_req(self.value(), rhs)
    }

    open spec fn div_spec(self, rhs: W) -> Self::Output {
        Dimensioned::spec_make(<V as vstd::std_specs::ops::DivSpec<W>>::div_spec(self.value(), rhs), self.spec_unit(), self.homogeneous())
    }
}

impl<V, W> core::ops::Add<Dimensioned<W>> for Dimensioned<V> where V: core::ops::Add<W> {
    type Output = Dimensioned<<V as core::ops::Add<W>>::Output>;

    /// Add the values; the unit of the left operand is kept, and stays
    /// correct only when both units are correct and equal.
    fn add(self, rhs: Dimensioned<W>) -> (r: Self::Output)
        ensures
            call_ensures(V::add, (self.value(), rhs.value()), r.value()),
            r.spec_unit() == self.spec_unit(),
            r.homogeneous() == same_units(self, rhs),
    {
        let homogeneous = self.unit == rhs.unit && self.homogeneous && rhs.homogeneous;
        Dimensioned { value: self.value + rhs.value, unit: self.unit, homogeneous }
    }
}

impl<V, W> vstd::std_specs::ops::AddSpecImpl<Dimensioned<W>> for Dimensioned<V> where V: core::ops::Add<W> {
    open spec fn obeys_add_spec() -> bool {
        <V as vstd::std_specs::ops::AddSpec<W>>::obeys_add_spec()
    }

    open spec fn add_req(self, rhs: Dimensioned<W>) -> bool {
        <V as vstd::std_specs::ops::AddSpec<W>>::add_req(self.value(), rhs.value())
    }

    open spec fn add_spec(self, rhs: Dimensioned<W>) -> Self::Output {
        Dimensioned::spec_make(<V as vstd::std_specs::ops::AddSpec<W>>::add_spec(self.value(), rhs.value()), self.spec_unit(), same_units(self, rhs))
    }
}

impl<V, W> core::ops::Sub<Dimensioned<W>> for Dimensioned<V> where V: core::ops::Sub<W> {
    type Output = Dimensioned<<V as core::ops::Sub<W>>::Output>;

    /// Subtract the values; the unit of the left operand is kept, and stays
    /// correct only when both units are correct and equal.
    fn sub(self, rhs: Dimensioned<W>) -> (r: Self::Output)
        ensures
            call_ensures(V::sub, (self.value(), rhs.value()), r.value()),
            r.spec_unit() == self.spec_unit(),
            r.homogeneous() == same_units(self, rhs),
    {
        let homogeneous = self.unit == rhs.unit && self.homogeneous && rhs.homogeneous;
        Dimensioned { value: self.value - rhs.value, unit: self.unit, homogeneous }
    }
}

impl<V, W> vstd::std_specs::ops::SubSpecImpl<Dimensioned<W>> for Dimensioned<V> where V: core::ops::Sub<W> {
    open spec fn obeys_sub_spec() -> bool {
        <V as vstd::std_specs::ops::SubSpec<W>>::obeys_sub_spec()
    }

    open spec fn sub_req(self, rhs: Dimensioned<W>) -> bool {
        <V as vstd::std_specs::ops::SubSpec<W>>::sub_req(self.value(), rhs.value())
    }

    open spec fn sub_spec(self, rhs: Dimensioned<W>) -> Self::Output {
        Dimensioned::spec_make(<V as vstd::std_specs::ops::SubSpec<W>>::sub_spec(self.value(), rhs.value()), self.spec_unit(), same_units(self, rhs))
    }
}

/// An axis of an array: its name and unit, either of them possibly unknown.
#[derive(Clone, Debug, Default)]
pub struct Axis {
    name: Option<String>,
    unit: Unit,
}

impl Axis {
    /// The name, if known.
    pub closed spec fn name_view(self) -> Option<Seq<char>> {
        match self.name {
            Some(n) => Some(n@),
            None => None,
        }
    }

    /// The unit.
    pub closed spec fn unit_view(self) -> Unit {
        self.unit
    }

    pub fn new(name: Option<String>, unit: Unit) -> (a: Self)
        ensures
            a.name_view() == (match name {
                Some(n) => Some(n@),
                None => None::<Seq<char>>,
            }),
            a.unit_view() == unit,
    {
        Self { name, unit }
    }

    /// The name of the axis, "" when unknown.
    pub fn name(&self) -> (s: &str)
        ensures
            s@ == match self.name_view() {
                Some(n) => n,
                None => Seq::empty(),
            },
    {
        proof {
            reveal_strlit("");
        }
        match &self.name {
            Some(n) => n.as_str(),
            None => "",
        }
    }

    /// The text of the unit of the axis, "" when unknown.
    pub fn unit(&self) -> (s: &str)
        ensures
            s@ == match self.unit_view() {
                Unit::Unknown => Seq::empty(),
                Unit::Custom(t) => t@,
            },
    {
        self.unit.repr()
    }
}

} // verus!
