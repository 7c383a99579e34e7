use oganesson::Dimension;
use oganesson::DimensionError;
use oganesson::SIPrefix;

fn dim(
    time: i32,
    length: i32,
    mass: i32,
    electric_current: i32,
    thermodynamic_temperature: i32,
    amount_of_substance: i32,
    luminous_intensity: i32,
) -> Dimension {
    Dimension {
        time,
        length,
        mass,
        electric_current,
        thermodynamic_temperature,
        amount_of_substance,
        luminous_intensity,
    }
}

#[test]
fn mul_adds_exponents() {
    let velocity = dim(-1, 1, 0, 0, 0, 0, 0);
    let time = dim(1, 0, 0, 0, 0, 0, 0);
    assert_eq!(velocity.mul(time), dim(0, 1, 0, 0, 0, 0, 0));
}

#[test]
fn div_subtracts_exponents() {
    let length = dim(0, 1, 0, 0, 0, 0, 0);
    let time = dim(1, 0, 0, 0, 0, 0, 0);
    assert_eq!(length.div(time), dim(-1, 1, 0, 0, 0, 0, 0));
}

#[test]
fn pow_scales_exponents() {
    let velocity = dim(-1, 1, 0, 0, 0, 0, 0);
    assert_eq!(velocity.pow(3), dim(-3, 3, 0, 0, 0, 0, 0));
    assert_eq!(velocity.pow(0), dim(0, 0, 0, 0, 0, 0, 0));
    assert_eq!(velocity.pow(-2), dim(2, -2, 0, 0, 0, 0, 0));
}

#[test]
fn radical_divides_exponents() {
    let area = dim(0, 2, 0, 0, 0, 0, 0);
    assert_eq!(area.radical(2), dim(0, 1, 0, 0, 0, 0, 0));
    let six = dim(-6, 6, 0, 0, 0, 0, 0);
    assert_eq!(six.radical(3), dim(-2, 2, 0, 0, 0, 0, 0));
    assert_eq!(six.radical(-2), dim(3, -3, 0, 0, 0, 0, 0));
}

#[test]
fn inv_negates_exponents() {
    let hertz = dim(-1, 0, 0, 0, 0, 0, 0);
    assert_eq!(hertz.inv(), dim(1, 0, 0, 0, 0, 0, 0));
    assert_eq!(dim(1, 2, 3, 4, 5, 6, 7).inv(), dim(-1, -2, -3, -4, -5, -6, -7));
}

#[test]
fn equality_is_by_exponents() {
    let a = dim(-2, 2, 1, 0, 0, 0, 0);
    let b = dim(-1, 2, 1, 0, 0, 0, 0).mul(dim(-1, 0, 0, 0, 0, 0, 0));
    assert_eq!(a, b);
    assert_ne!(a, dim(-2, 2, 0, 0, 0, 0, 0));
}

#[test]
fn dimentional_formula_energy() {
    let energy = dim(-2, 2, 1, 0, 0, 0, 0);
    assert_eq!(energy.dimentional_formula(), "T^-2 L^2 M ");
}

#[test]
fn dimentional_formula_single_and_empty() {
    assert_eq!(dim(0, 1, 0, 0, 0, 0, 0).dimentional_formula(), "L ");
    assert_eq!(dim(0, 0, 0, 0, 0, 0, 0).dimentional_formula(), "");
    assert_eq!(dim(0, 0, 0, 0, 1, 0, 0).dimentional_formula(), "Θ ");
    assert_eq!(dim(0, 0, 0, 0, 0, 12, 0).dimentional_formula(), "N^12 ");
}

#[test]
fn display_sorts_descending_with_denominator() {
    let energy = dim(-2, 2, 1, 0, 0, 0, 0);
    assert_eq!(energy.to_display_string(), "m^2 kg / s^2");
    let velocity = dim(-1, 1, 0, 0, 0, 0, 0);
    assert_eq!(velocity.to_display_string(), "m / s");
    assert_eq!(dim(0, 0, 0, 0, 0, 0, 0).to_display_string(), "");
    assert_eq!(dim(1, 0, 0, 0, 0, 0, 0).to_display_string(), "s");
    let field = dim(-3, 0, 1, -1, 0, 0, 0);
    assert_eq!(field.to_display_string(), "kg / A s^3");
}

#[test]
fn error_message_names_the_variable() {
    let velocity = dim(-1, 1, 0, 0, 0, 0, 0);
    let length = dim(0, 1, 0, 0, 0, 0, 0);
    let err = DimensionError::expected_dimension_of(velocity, length, "velocity");
    assert_eq!(err.0, "Expected dimension m / s for velocity, found m");
}

#[test]
fn error_message_wraps_text() {
    let err = DimensionError::new("dimension mismatch");
    assert_eq!(err.0, "dimension mismatch");
}

#[test]
fn prefix_exponents() {
    assert_eq!(SIPrefix::Q.exponent(), 30);
    assert_eq!(SIPrefix::k.exponent(), 3);
    assert_eq!(SIPrefix::da.exponent(), 1);
    assert_eq!(SIPrefix::d.exponent(), -1);
    assert_eq!(SIPrefix::u.exponent(), -6);
    assert_eq!(SIPrefix::q.exponent(), -30);
}
