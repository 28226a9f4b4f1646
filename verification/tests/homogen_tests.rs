use aflak::homogen::{SiBaseUnit, SiComposedUnit, Unit};

#[test]
fn coulomb() {
    let one_second = SiBaseUnit::Second.new(1);
    let one_ampere = SiBaseUnit::Ampere.new(1);
    let one_coulomb = (SiBaseUnit::Second * SiBaseUnit::Ampere).new(1);
    assert_eq!(one_second * one_ampere, one_coulomb)
}

#[test]
fn speed() {
    let one_metre = SiBaseUnit::Metre.new(1);
    let one_second = SiBaseUnit::Second.new(1);
    let one_metre_per_second = (SiBaseUnit::Metre / SiBaseUnit::Second).new(1);
    assert_eq!(one_metre / one_second, one_metre_per_second)
}

#[test]
fn display_metre() {
    assert_eq!("m", SiBaseUnit::Metre.to_string());
}

#[test]
fn display_metre_per_second() {
    assert_eq!("m/s", (SiBaseUnit::Metre / SiBaseUnit::Second).to_string());
}

#[test]
fn display_square_metre() {
    assert_eq!("m^2", (SiBaseUnit::Metre * SiBaseUnit::Metre).to_string());
}

#[test]
fn composed_unit_of_base_unit() {
    assert_eq!(SiBaseUnit::Kelvin.composed_unit().exponents(), [0, 0, 0, 0, 1, 0, 0]);
}

#[test]
fn display_mixed_units() {
    let u = SiComposedUnit::from_exponents([2, 1, -2, 0, 0, -1, 0]);
    assert_eq!("m^2.kg/s/mol", u.to_string());
    let inv = SiComposedUnit::from_exponents([0, 0, -1, 0, 0, 0, 0]);
    assert_eq!("1/s", inv.to_string());
    let none = SiComposedUnit::from_exponents([0; 7]);
    assert_eq!("", none.to_string());
    let big = SiComposedUnit::from_exponents([0, 0, 0, 12, 0, 0, 1]);
    assert_eq!("A^12.cd", big.to_string());
}

#[test]
fn div_cancels_mul_values() {
    let a = SiComposedUnit::from_exponents([1, -3, 2, 0, 4, 0, 0]);
    let b = SiComposedUnit::from_exponents([0, 2, -2, 5, 0, 1, 1]);
    assert_eq!((a * b) / b, a);
    assert_eq!(a * b, b * a);
    assert_eq!((a / a).exponents(), [0; 7]);
}
