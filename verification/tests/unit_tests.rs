use aflak::derived_unit::DerivedUnit;
use aflak::unit::{Axis, Dimensioned, Unit};

fn parse(s: String) -> f32 {
    s.parse::<f32>().unwrap()
}

fn times(a: f32, b: f32) -> f32 {
    a * b
}

fn over(a: f32, b: f32) -> f32 {
    a / b
}

fn show(pre: f32) -> (bool, String) {
    let text = if pre - pre.floor() == 0.0 { format!("{}", pre as i32) } else { format!("{}", pre) };
    (pre == 1.0, text)
}

fn custom(s: &str) -> Unit {
    Unit::Custom(s.to_owned())
}

#[test]
fn dimensioned_sum_keeps_unit() {
    let meter = custom("m");
    let val1 = Dimensioned::new(1, meter.duplicate());
    let val2 = Dimensioned::new(2, meter.duplicate());
    let sum = val1 + val2;
    assert!(*sum.scalar() == 3);
    assert!(sum.unit() == &meter);
}

#[test]
fn dimensioned_difference_and_scaling() {
    let second = custom("s");
    let a = Dimensioned::new(10, second.duplicate());
    let b = Dimensioned::new(4, second.duplicate());
    let d = a - b;
    assert_eq!(*d.scalar(), 6);
    let scaled = d * 3;
    assert_eq!(*scaled.scalar(), 18);
    assert!(scaled.unit() == &second);
    let halved = scaled / 2;
    assert_eq!(*halved.scalar(), 9);
    let other = halved.with_new_value("nine");
    assert_eq!(*other.scalar(), "nine");
    assert!(other.unit() == &second);
}

#[test]
fn dimensioned_float_values() {
    let u = custom("erg/s");
    let sum = Dimensioned::new(1.5f32, u.duplicate()) + Dimensioned::new(2.0f32, u.duplicate());
    assert_eq!(*sum.scalar(), 3.5);
    let diff = Dimensioned::new(1.5f32, u.duplicate()) - Dimensioned::new(2.0f32, custom("m"));
    assert_eq!(*diff.scalar(), -0.5);
    assert!(diff.unit() == &u);
}

#[test]
fn dimensioned_scalar_mut() {
    let mut d = Dimensioned::new(5, Unit::Unknown);
    *d.scalar_mut() = 7;
    assert_eq!(*d.scalar(), 7);
    assert!(d.unit() == &Unit::Unknown);
}

#[test]
fn unit_repr_and_default() {
    assert_eq!(custom("erg/s").repr(), "erg/s");
    assert_eq!(Unit::Unknown.repr(), "");
    assert!(Unit::default() == Unit::Unknown);
    assert!(custom("m") != custom("s"));
    assert!(custom("m") != Unit::Unknown);
}

#[test]
fn derived_unit_decomposition() {
    let d = DerivedUnit::new(&"erg/s/cm^2/Ang/spaxel".to_owned());
    let entries: Vec<(String, isize)> = d.entries().clone();
    assert_eq!(
        entries,
        vec![
            ("erg".to_owned(), 1),
            ("s".to_owned(), -1),
            ("cm".to_owned(), -2),
            ("Ang".to_owned(), -1),
            ("spaxel".to_owned(), -1),
        ]
    );
    assert_eq!(d.scale(), &Some(("1".to_owned(), 0)));
}

#[test]
fn derived_unit_scale() {
    let d = DerivedUnit::new(&"1E-17 erg/s".to_owned());
    assert_eq!(d.scale(), &Some(("1".to_owned(), -17)));
    assert_eq!(d.entries(), &vec![("erg".to_owned(), 1), ("s".to_owned(), -1)]);
    let none = DerivedUnit::new(&"3 m".to_owned());
    assert_eq!(none.scale(), &None);
    assert_eq!(none.entries(), &vec![("m".to_owned(), 1)]);
}

#[test]
fn derived_unit_readable() {
    assert!(DerivedUnit::readable(&"erg/s/cm^2".to_owned()));
    assert!(DerivedUnit::readable(&"2.5e3 m*kg".to_owned()));
    assert!(!DerivedUnit::readable(&"m^".to_owned()));
}

#[test]
fn unit_mul_adds_exponents() {
    let r = custom("m").mul(custom("s"), parse, times, show);
    assert!(r == custom("m*s"));
    let r = custom("erg/s").mul(custom("s"), parse, times, show);
    assert!(r == custom("erg"));
    let r = custom("m").mul(custom("m"), parse, times, show);
    assert!(r == custom("m^2"));
}

#[test]
fn unit_mul_sorts_by_exponent() {
    let r = custom("erg/s/cm^2/Ang/spaxel").mul(custom(""), parse, times, show);
    assert_eq!(r.repr(), "erg/s/Ang/spaxel/cm^2");
}

#[test]
fn unit_mul_with_scales() {
    let r = custom("1E-17 erg/s").mul(custom("2E3 s"), parse, times, show);
    assert_eq!(r.repr(), "2E-14 erg");
    let r = custom("1.5E2 m").mul(custom("m"), parse, times, show);
    assert_eq!(r.repr(), "1.5E2 m^2");
}

#[test]
fn unit_div_subtracts_exponents() {
    let r = custom("m").div(custom("s"), parse, over, show);
    assert_eq!(r.repr(), "m/s");
    let r = custom("m*s").div(custom("s"), parse, over, show);
    assert_eq!(r.repr(), "m");
    let r = custom("1E-17 erg/s").div(custom("1E-17 erg/s"), parse, over, show);
    assert_eq!(r.repr(), "");
}

#[test]
fn unit_combination_with_unknown_is_unknown() {
    assert!(Unit::Unknown.mul(custom("m"), parse, times, show) == Unit::Unknown);
    assert!(custom("m").div(Unit::Unknown, parse, over, show) == Unit::Unknown);
}

#[test]
fn unit_combinable() {
    assert!(custom("m").combinable(&custom("s"), false));
    assert!(!custom("m^").combinable(&custom("s"), false));
    assert!(Unit::Unknown.combinable(&custom("m^"), true));
}

#[test]
fn axis_name_and_unit() {
    let a = Axis::new(Some("RA---TAN".to_owned()), custom("deg"));
    assert_eq!(a.name(), "RA---TAN");
    assert_eq!(a.unit(), "deg");
    let b = Axis::new(None, Unit::Unknown);
    assert_eq!(b.name(), "");
    assert_eq!(b.unit(), "");
}

#[test]
fn derived_unit_text_edge_cases() {
    // Digits right after letters belong to the name.
    let d = DerivedUnit::new(&"cm2".to_owned());
    assert_eq!(d.entries(), &vec![("cm2".to_owned(), 1)]);
    // A sign before an exponent is not read: the name stands alone.
    let d = DerivedUnit::new(&"s-1".to_owned());
    assert_eq!(d.entries(), &vec![("s".to_owned(), 1)]);
    // A scale with no 'e' is dropped.
    let d = DerivedUnit::new(&"kg m".to_owned());
    assert_eq!(d.scale(), &None);
    assert_eq!(d.entries(), &vec![("m".to_owned(), 1)]);
    // A name written twice keeps its last exponent, in its first place.
    let d = DerivedUnit::new(&"m/s*m^3".to_owned());
    assert_eq!(d.entries(), &vec![("m".to_owned(), 3), ("s".to_owned(), -1)]);
    // A caret with no digits after it cannot be read.
    assert!(!DerivedUnit::readable(&"m^-2".to_owned()));
    assert!(!DerivedUnit::readable(&"2e m".to_owned()));
    assert!(DerivedUnit::readable(&"2e3".to_owned()));
}
