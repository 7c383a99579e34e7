use oganesson::Unit;
use oganesson::UnitError;

fn unit(
    time: i32,
    length: i32,
    mass: i32,
    electric_current: i32,
    thermodynamic_temperature: i32,
    amount_of_substance: i32,
    luminous_intensity: i32,
) -> Unit {
    Unit {
        time,
        length,
        mass,
        electric_current,
        thermodynamic_temperature,
        amount_of_substance,
        luminous_intensity,
    }
}

#[test]
fn mul_and_div_combine_exponents() {
    let newton = unit(-2, 1, 1, 0, 0, 0, 0);
    let meter = unit(0, 1, 0, 0, 0, 0, 0);
    assert_eq!(newton.mul(meter), unit(-2, 2, 1, 0, 0, 0, 0));
    assert_eq!(newton.div(meter), unit(-2, 0, 1, 0, 0, 0, 0));
}

#[test]
fn pow_and_recip() {
    let ampere = unit(0, 0, 0, 1, 0, 0, 0);
    assert_eq!(ampere.pow(2), unit(0, 0, 0, 2, 0, 0, 0));
    assert_eq!(unit(-1, 2, 0, 0, 0, 0, 0).recip(), unit(1, -2, 0, 0, 0, 0, 0));
}

#[test]
fn try_radical_some_when_divisible() {
    let area = unit(0, 2, 0, 0, 0, 0, 0);
    assert_eq!(area.try_radical(2), Some(unit(0, 1, 0, 0, 0, 0, 0)));
    let six = unit(0, 6, 0, 0, 0, 0, 0);
    assert_eq!(six.try_radical(2), Some(unit(0, 3, 0, 0, 0, 0, 0)));
    let negative = unit(-4, 0, 2, 0, 0, 0, 0);
    assert_eq!(negative.try_radical(2), Some(unit(-2, 0, 1, 0, 0, 0, 0)));
}

#[test]
fn try_radical_none_when_not_divisible() {
    let volume = unit(0, 3, 0, 0, 0, 0, 0);
    assert_eq!(volume.try_radical(2), None);
    let mixed = unit(-1, 2, 0, 0, 0, 0, 0);
    assert_eq!(mixed.try_radical(2), None);
}

#[test]
fn unit_formula_and_display() {
    let tesla = unit(-2, 0, 1, -1, 0, 0, 0);
    assert_eq!(tesla.dimentional_formula(), "T^-2 M I^-1 ");
    assert_eq!(tesla.to_display_string(), "kg / A s^2");
}

#[test]
fn unit_error_messages() {
    let second = unit(1, 0, 0, 0, 0, 0, 0);
    let meter = unit(0, 1, 0, 0, 0, 0, 0);
    let plain = UnitError::expected_unit(second, meter);
    assert_eq!(plain.0, "Expected unit s, found m");
    let named = UnitError::expected_unit_of(second, meter, "duration");
    assert_eq!(named.0, "Expected unit s for duration, found m");
    assert_eq!(UnitError::new("bad unit").0, "bad unit");
}
