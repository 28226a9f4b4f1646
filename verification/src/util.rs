use vstd::prelude::*;
use vstd::std_specs::cmp::{PartialEqSpec, PartialOrdIs, PartialOrdSpec};
use vstd::std_specs::convert::IntoSpec;
use vstd::std_specs::ops::{AddSpec, MulSpec, SubSpec};

verus! {

/// `min` when `v` is below it, `max` when `v` is above it, `v` otherwise.
pub open spec fn clamped<T: PartialOrd>(v: T, min: T, max: T) -> T {
    if v.is_lt(&min) {
        min
    } else if v.is_gt(&max) {
        max
    } else {
        v
    }
}

/// `a` and `b` can be compared (neither is, for instance, a NaN).
pub open spec fn comparable<T: PartialOrd>(a: T, b: T) -> bool {
    a.partial_cmp_spec(&b) is Some
}

/// Bring `v` into the range from `min` to `max`: `min` when `v` is below
/// it, `max` when `v` is above it, `v` otherwise.
pub fn clamp<T: PartialOrd>(v: T, min: T, max: T) -> (r: T)
    ensures
        T::obeys_partial_cmp_spec() ==> r == clamped(v, min, max),
{
    if v < min {
        min
    } else if v > max {
        max
    } else {
        v
    }
}

/// Between bounds in order, for values that compare with each other (a
/// partial order as vstd's laws describe it), clamping gives a value within
/// the bounds, and clamping that value again keeps it.
pub proof fn lemma_clamp_in_bounds<T: PartialOrd>(v: T, min: T, max: T)
    requires
        vstd::laws_cmp::obeys_partial_cmp_spec_properties::<T>(),
        min.is_le(&max),
        comparable(v, v),
        comparable(v, min),
        comparable(v, max),
        comparable(min, min),
        comparable(max, max),
    ensures
        min.is_le(&clamped(v, min, max)),
        clamped(v, min, max).is_le(&max),
        clamped(clamped(v, min, max), min, max) == clamped(v, min, max),
{
    reveal(vstd::laws_cmp::obeys_partial_cmp_spec_properties);
    reveal(vstd::laws_eq::obeys_eq_spec_properties);
    assert(min.partial_cmp_spec(&max) is Some);
    assert(max.partial_cmp_spec(&min) is Some);
    let o1 = v.partial_cmp_spec(&min)->0;
    if o1 == core::cmp::Ordering::Equal {
        assert(v.eq_spec(&min));
        assert(min.eq_spec(&v));
    } else if o1 == core::cmp::Ordering::Less {
        assert(min.partial_cmp_spec(&v) == Some(core::cmp::Ordering::Greater));
    } else {
        assert(min.partial_cmp_spec(&v) == Some(core::cmp::Ordering::Less));
    }
    let o2 = v.partial_cmp_spec(&max)->0;
    if o2 == core::cmp::Ordering::Equal {
        assert(v.eq_spec(&max));
        assert(max.eq_spec(&v));
    } else if o2 == core::cmp::Ordering::Less {
        assert(max.partial_cmp_spec(&v) == Some(core::cmp::Ordering::Greater));
    } else {
        assert(max.partial_cmp_spec(&v) == Some(core::cmp::Ordering::Less));
    }
    assert(min.partial_cmp_spec(&v) is Some);
    assert(max.partial_cmp_spec(&v) is Some);
}

/// Every step of `a + (b - a) * t` can be taken, whatever the operations
/// before it gave.
pub open spec fn lerp_defined<V: Copy + core::ops::Add + core::ops::Sub<Output = V> + core::ops::Mul<Output = V>, T: Into<V>>(
    a: V,
    b: V,
    t: T,
) -> bool {
    &&& b.sub_req(a)
    &&& forall|d: V, x: V|
        call_ensures(V::sub, (b, a), d) && call_ensures(T::into, (t,), x) ==> {
            &&& d.mul_req(x)
            &&& forall|m: V| #[trigger] call_ensures(V::mul, (d, x), m) ==> a.add_req(m)
        }
}

/// Linear interpolation between `a` (at `t` = 0) and `b` (at `t` = 1):
/// `a + (b - a) * t`.
pub fn lerp<V, T>(a: V, b: V, t: T) -> (r: <V as core::ops::Add>::Output) where
    V: Copy + core::ops::Add + core::ops::Sub<Output = V> + core::ops::Mul<Output = V>,
    T: Into<V>,

    requires
        lerp_defined(a, b, t),
    ensures
        V::obeys_sub_spec() && V::obeys_mul_spec() && V::obeys_add_spec() && T::obeys_into_spec()
            ==> r == a.add_spec(b.sub_spec(a).mul_spec(t.into_spec())),
{
    let d = b - a;
    let x: V = t.into();
    let m = d * x;
    a + m
}

/// Pack an RGB triple into an opaque ABGR 32-bit color
/// (red in the lowest byte, alpha set to 0xFF).
pub fn to_u32_color(c: &[u8; 3]) -> (r: u32)
    ensures
        r == c[0] as u32 + c[1] as u32 * 0x100 + c[2] as u32 * 0x10000 + 0xFF00_0000,
{
    let r0 = c[0] as u32;
    let r1 = c[1] as u32;
    let r2 = c[2] as u32;
    let v = r0 << 0u32 | r1 << 8u32 | r2 << 16u32 | 0xFFu32 << 24u32;
    assert(r0 << 0u32 | r1 << 8u32 | r2 << 16u32 | 0xFFu32 << 24u32
        == r0 + r1 * 0x100 + r2 * 0x10000 + 0xFF00_0000) by (bit_vector)
        requires r0 < 256, r1 < 256, r2 < 256;
    v
}

/// Invert the color channels of an opaque ABGR color, keeping it opaque.
pub fn invert_color(c: u32) -> (r: u32)
    requires
        c >= 0xFF00_0000,
    ensures
        r == 0xFFFF_FFFF - c + 0xFF00_0000,
{
    0xFFFF_FFFFu32 - c + 0xFF00_0000u32
}

/// Inverting an opaque color twice gives it back.
pub proof fn lemma_invert_twice(c: u32)
    requires
        c >= 0xFF00_0000,
    ensures
        0xFFFF_FFFF - c + 0xFF00_0000 >= 0xFF00_0000,
        0xFFFF_FFFF - (0xFFFF_FFFF - c + 0xFF00_0000) + 0xFF00_0000 == c,
{
}

/// Inverting a color packed from channels gives the color packed from the
/// complementary channels.
pub proof fn lemma_invert_packed(r: u8, g: u8, b: u8)
    ensures
        0xFFFF_FFFF - (r + g * 0x100 + b * 0x10000 + 0xFF00_0000) + 0xFF00_0000
            == (255 - r) + (255 - g) * 0x100 + (255 - b) * 0x10000 + 0xFF00_0000,
{
}

} // verus!
