//! Physical dimensions as vectors of SI base-unit exponents.
//!
//! A `Dimension` identifies a physical quantity's type: two quantities may be
//! added or compared only when their dimensions are equal.  Multiplying
//! quantities adds the exponent vectors, dividing subtracts them, raising to a
//! power scales them, and an nth root is defined only when every exponent is
//! divisible by n.

use vstd::prelude::*;

verus! {

use crate::arith::divisible_by;
use crate::arith::div_exact;
use crate::text::formula_term;
use crate::text::push_term;
use crate::text::insert_desc;
use crate::text::insert_pair;
use crate::text::pair_views;
use crate::text::render_pairs;
use crate::text::render_symbols;
use vstd::string::StringExecFns;
use vstd::string::StrSliceExecFns;

/// Decimal SI prefixes, from quetta (10^30) down to quecto (10^-30).
///
/// Each variant is named by its SI symbol; micro, whose symbol is not an
/// ASCII letter, uses the conventional ASCII substitute `u`.
#[allow(non_camel_case_types)]
#[derive(Clone, Copy, Debug, PartialEq, Eq, Structural)]
pub enum SIPrefix {
    /// quetta
    Q,
    /// ronna
    R,
    /// yotta
    Y,
    /// zetta
    Z,
    /// exa
    E,
    /// peta
    P,
    /// tera
    N,
    /// giga
    G,
    /// mega
    M,
    /// kilo
    k,
    /// hecto
    h,
    /// deca
    da,
    /// deci
    d,
    /// centi
    c,
    /// milli
    m,
    /// micro
    u,
    /// nano
    n,
    /// pico
    p,
    /// femto
    f,
    /// atto
    a,
    /// zepto
    z,
    /// yocto
    y,
    /// ronto
    r,
    /// quecto
    q,
}

impl SIPrefix {
    /// The power of ten that the prefix scales by.
    pub open spec fn spec_exponent(self) -> int {
        match self {
            SIPrefix::Q => 30,
            SIPrefix::R => 27,
            SIPrefix::Y => 24,
            SIPrefix::Z => 21,
            SIPrefix::E => 18,
            SIPrefix::P => 15,
            SIPrefix::N => 12,
            SIPrefix::G => 9,
            SIPrefix::M => 6,
            SIPrefix::k => 3,
            SIPrefix::h => 2,
            SIPrefix::da => 1,
            SIPrefix::d => -1,
            SIPrefix::c => -2,
            SIPrefix::m => -3,
            SIPrefix::u => -6,
            SIPrefix::n => -9,
            SIPrefix::p => -12,
            SIPrefix::f => -15,
            SIPrefix::a => -18,
            SIPrefix::z => -21,
            SIPrefix::y => -24,
            SIPrefix::r => -27,
            SIPrefix::q => -30,
        }
    }

    /// The power of ten that the prefix scales by.
    pub fn exponent(self) -> (e: i32)
        ensures
            e == self.spec_exponent(),
    {
        match self {
            SIPrefix::Q => 30,
            SIPrefix::R => 27,
            SIPrefix::Y => 24,
            SIPrefix::Z => 21,
            SIPrefix::E => 18,
            SIPrefix::P => 15,
            SIPrefix::N => 12,
            SIPrefix::G => 9,
            SIPrefix::M => 6,
            SIPrefix::k => 3,
            SIPrefix::h => 2,
            SIPrefix::da => 1,
            SIPrefix::d => -1,
            SIPrefix::c => -2,
            SIPrefix::m => -3,
            SIPrefix::u => -6,
            SIPrefix::n => -9,
            SIPrefix::p => -12,
            SIPrefix::f => -15,
            SIPrefix::a => -18,
            SIPrefix::z => -21,
            SIPrefix::y => -24,
            SIPrefix::r => -27,
            SIPrefix::q => -30,
        }
    }
}

/// Exponents of the seven SI base units; equality means "same physical type".
#[derive(Clone, Copy, Debug, PartialEq, Eq, Structural)]
pub struct Dimension {
    pub time: i32,
    pub length: i32,
    pub mass: i32,
    pub electric_current: i32,
    pub thermodynamic_temperature: i32,
    pub amount_of_substance: i32,
    pub luminous_intensity: i32,
}

impl Dimension {
    /// Every exponent of the combined dimension stays within `i32`.
    pub open spec fn mul_in_range(self, rhs: Dimension) -> bool {
        &&& i32::MIN <= self.time + rhs.time <= i32::MAX
        &&& i32::MIN <= self.length + rhs.length <= i32::MAX
        &&& i32::MIN <= self.mass + rhs.mass <= i32::MAX
        &&& i32::MIN <= self.electric_current + rhs.electric_current <= i32::MAX
        &&& i32::MIN <= self.thermodynamic_temperature + rhs.thermodynamic_temperature <= i32::MAX
        &&& i32::MIN <= self.amount_of_substance + rhs.amount_of_substance <= i32::MAX
        &&& i32::MIN <= self.luminous_intensity + rhs.luminous_intensity <= i32::MAX
    }

    /// The dimension of a product: exponents add.
    pub fn mul(self, rhs: Dimension) -> (r: Dimension)
        requires
            self.mul_in_range(rhs),
        ensures
            r.time == self.time + rhs.time,
            r.length == self.length + rhs.length,
            r.mass == self.mass + rhs.mass,
            r.electric_current == self.electric_current + rhs.electric_current,
            r.thermodynamic_temperature == self.thermodynamic_temperature
                + rhs.thermodynamic_temperature,
            r.amount_of_substance == self.amount_of_substance + rhs.amount_of_substance,
            r.luminous_intensity == self.luminous_intensity + rhs.luminous_intensity,
    {
        Dimension {
            time: self.time + rhs.time,
            length: self.length + rhs.length,
            mass: self.mass + rhs.mass,
            electric_current: self.electric_current + rhs.electric_current,
            thermodynamic_temperature: self.thermodynamic_temperature
                + rhs.thermodynamic_temperature,
            amount_of_substance: self.amount_of_substance + rhs.amount_of_substance,
            luminous_intensity: self.luminous_intensity + rhs.luminous_intensity,
        }
    }

    /// Every exponent of the quotient dimension stays within `i32`.
    pub open spec fn div_in_range(self, rhs: Dimension) -> bool {
        &&& i32::MIN <= self.time - rhs.time <= i32::MAX
        &&& i32::MIN <= self.length - rhs.length <= i32::MAX
        &&& i32::MIN <= self.mass - rhs.mass <= i32::MAX
        &&& i32::MIN <= self.electric_current - rhs.electric_current <= i32::MAX
        &&& i32::MIN <= self.thermodynamic_temperature - rhs.thermodynamic_temperature <= i32::MAX
        &&& i32::MIN <= self.amount_of_substance - rhs.amount_of_substance <= i32::MAX
        &&& i32::MIN <= self.luminous_intensity - rhs.luminous_intensity <= i32::MAX
    }

    /// The dimension of a quotient: exponents subtract.
    pub fn div(self, rhs: Dimension) -> (r: Dimension)
        requires
            self.div_in_range(rhs),
        ensures
            r.time == self.time - rhs.time,
            r.length == self.length - rhs.length,
            r.mass == self.mass - rhs.mass,
            r.electric_current == self.electric_current - rhs.electric_current,
            r.thermodynamic_temperature == self.thermodynamic_temperature
                - rhs.thermodynamic_temperature,
            r.amount_of_substance == self.amount_of_substance - rhs.amount_of_substance,
            r.luminous_intensity == self.luminous_intensity - rhs.luminous_intensity,
    {
        Dimension {
            time: self.time - rhs.time,
            length: self.length - rhs.length,
            mass: self.mass - rhs.mass,
            electric_current: self.electric_current - rhs.electric_current,
            thermodynamic_temperature: self.thermodynamic_temperature
                - rhs.thermodynamic_temperature,
            amount_of_substance: self.amount_of_substance - rhs.amount_of_substance,
            luminous_intensity: self.luminous_intensity - rhs.luminous_intensity,
        }
    }

    /// Every exponent scaled by `exp` stays within `i32`.
    pub open spec fn pow_in_range(self, exp: i32) -> bool {
        &&& i32::MIN <= self.time * exp <= i32::MAX
        &&& i32::MIN <= self.length * exp <= i32::MAX
        &&& i32::MIN <= self.mass * exp <= i32::MAX
        &&& i32::MIN <= self.electric_current * exp <= i32::MAX
        &&& i32::MIN <= self.thermodynamic_temperature * exp <= i32::MAX
        &&& i32::MIN <= self.amount_of_substance * exp <= i32::MAX
        &&& i32::MIN <= self.luminous_intensity * exp <= i32::MAX
    }

    /// The dimension of a power: exponents scale.
    pub fn pow(self, exp: i32) -> (r: Dimension)
        requires
            self.pow_in_range(exp),
        ensures
            r.time == self.time * exp,
            r.length == self.length * exp,
            r.mass == self.mass * exp,
            r.electric_current == self.electric_current * exp,
            r.thermodynamic_temperature == self.thermodynamic_temperature * exp,
            r.amount_of_substance == self.amount_of_substance * exp,
            r.luminous_intensity == self.luminous_intensity * exp,
    {
        Dimension {
            time: self.time * exp,
            length: self.length * exp,
            mass: self.mass * exp,
            electric_current: self.electric_current * exp,
            thermodynamic_temperature: self.thermodynamic_temperature * exp,
            amount_of_substance: self.amount_of_substance * exp,
            luminous_intensity: self.luminous_intensity * exp,
        }
    }

    /// The nth root is defined: every exponent is divisible by `exp` (and the
    /// quotient is representable).
    pub open spec fn radical_defined(self, exp: i32) -> bool {
        &&& exp != 0
        &&& divisible_by(self.time as int, exp as int)
        &&& divisible_by(self.length as int, exp as int)
        &&& divisible_by(self.mass as int, exp as int)
        &&& divisible_by(self.electric_current as int, exp as int)
        &&& divisible_by(self.thermodynamic_temperature as int, exp as int)
        &&& divisible_by(self.amount_of_substance as int, exp as int)
        &&& divisible_by(self.luminous_intensity as int, exp as int)
        &&& exp == -1 ==> self.time != i32::MIN && self.length != i32::MIN && self.mass
            != i32::MIN && self.electric_current != i32::MIN && self.thermodynamic_temperature
            != i32::MIN && self.amount_of_substance != i32::MIN && self.luminous_intensity
            != i32::MIN
    }

    /// The dimension of an nth root: exponents divide exactly.
    pub fn radical(self, exp: i32) -> (r: Dimension)
        requires
            self.radical_defined(exp),
        ensures
            r.time * exp == self.time,
            r.length * exp == self.length,
            r.mass * exp == self.mass,
            r.electric_current * exp == self.electric_current,
            r.thermodynamic_temperature * exp == self.thermodynamic_temperature,
            r.amount_of_substance * exp == self.amount_of_substance,
            r.luminous_intensity * exp == self.luminous_intensity,
    {
        Dimension {
            time: div_exact(self.time, exp),
            length: div_exact(self.length, exp),
            mass: div_exact(self.mass, exp),
            electric_current: div_exact(self.electric_current, exp),
            thermodynamic_temperature: div_exact(self.thermodynamic_temperature, exp),
            amount_of_substance: div_exact(self.amount_of_substance, exp),
            luminous_intensity: div_exact(self.luminous_intensity, exp),
        }
    }

    /// Every exponent is negatable (no exponent is `i32::MIN`).
    pub open spec fn inv_in_range(self) -> bool {
        &&& self.time > i32::MIN
        &&& self.length > i32::MIN
        &&& self.mass > i32::MIN
        &&& self.electric_current > i32::MIN
        &&& self.thermodynamic_temperature > i32::MIN
        &&& self.amount_of_substance > i32::MIN
        &&& self.luminous_intensity > i32::MIN
    }

    /// The dimension of a reciprocal: exponents negate.
    pub fn inv(self) -> (r: Dimension)
        requires
            self.inv_in_range(),
        ensures
            r.time == -self.time,
            r.length == -self.length,
            r.mass == -self.mass,
            r.electric_current == -self.electric_current,
            r.thermodynamic_temperature == -self.thermodynamic_temperature,
            r.amount_of_substance == -self.amount_of_substance,
            r.luminous_intensity == -self.luminous_intensity,
    {
        Dimension {
            time: -self.time,
            length: -self.length,
            mass: -self.mass,
            electric_current: -self.electric_current,
            thermodynamic_temperature: -self.thermodynamic_temperature,
            amount_of_substance: -self.amount_of_substance,
            luminous_intensity: -self.luminous_intensity,
        }
    }

    /// The dimensional formula of this dimension: one `label^exponent` factor
    /// per base dimension with a nonzero exponent, in the fixed order
    /// T L M I Θ N J, each followed by one space.
    pub open spec fn spec_dimentional_formula(self) -> Seq<char> {
        formula_term(seq!['T'], self.time as int) + formula_term(seq!['L'], self.length as int)
            + formula_term(seq!['M'], self.mass as int) + formula_term(
            seq!['I'],
            self.electric_current as int,
        ) + formula_term(seq!['Θ'], self.thermodynamic_temperature as int) + formula_term(
            seq!['N'],
            self.amount_of_substance as int,
        ) + formula_term(seq!['J'], self.luminous_intensity as int)
    }

    /// Renders the dimensional formula, one factor per nonzero exponent.
    pub fn dimentional_formula(&self) -> (out: String)
        ensures
            out@ == self.spec_dimentional_formula(),
    {
        let mut out = String::new();
        proof {
            reveal_strlit("T");
            reveal_strlit("L");
            reveal_strlit("M");
            reveal_strlit("I");
            reveal_strlit("Θ");
            reveal_strlit("N");
            reveal_strlit("J");
            assert("T"@ =~= seq!['T']);
            assert("L"@ =~= seq!['L']);
            assert("M"@ =~= seq!['M']);
            assert("I"@ =~= seq!['I']);
            assert("Θ"@ =~= seq!['Θ']);
            assert("N"@ =~= seq!['N']);
            assert("J"@ =~= seq!['J']);
        }
        push_term(&mut out, "T", self.time);
        push_term(&mut out, "L", self.length);
        push_term(&mut out, "M", self.mass);
        push_term(&mut out, "I", self.electric_current);
        push_term(&mut out, "Θ", self.thermodynamic_temperature);
        push_term(&mut out, "N", self.amount_of_substance);
        push_term(&mut out, "J", self.luminous_intensity);
        proof {
            assert(out@ =~= self.spec_dimentional_formula());
        }
        out
    }

    /// All seven exponents are zero: a pure number.
    pub open spec fn is_dimensionless(self) -> bool {
        &&& self.time == 0
        &&& self.length == 0
        &&& self.mass == 0
        &&& self.electric_current == 0
        &&& self.thermodynamic_temperature == 0
        &&& self.amount_of_substance == 0
        &&& self.luminous_intensity == 0
    }

    /// The (slot, exponent) pairs in the order s, m, kg, A, K, mol, cd,
    /// stably sorted by descending exponent.
    pub open spec fn display_pairs(self) -> Seq<(int, int)> {
        insert_desc(
            insert_desc(
                insert_desc(
                    insert_desc(
                        insert_desc(
                            insert_desc(
                                insert_desc(Seq::empty(), (0, self.time as int)),
                                (1, self.length as int),
                            ),
                            (2, self.mass as int),
                        ),
                        (3, self.electric_current as int),
                    ),
                    (4, self.thermodynamic_temperature as int),
                ),
                (5, self.amount_of_substance as int),
            ),
            (6, self.luminous_intensity as int),
        )
    }

    /// The SI-symbol rendering: nothing for a pure number; otherwise the
    /// nonzero exponents in descending order, negative ones after a single
    /// `/`, separated by single spaces.
    pub open spec fn spec_display(self) -> Seq<char> {
        if self.is_dimensionless() {
            Seq::empty()
        } else {
            let u = render_symbols(self.display_pairs(), false);
            if u.len() == 0 {
                u
            } else {
                u.take(u.len() - 1)
            }
        }
    }

    /// Renders the dimension with SI base-unit symbols, largest exponents
    /// first and negative ones behind a `/`.
    pub fn to_display_string(&self) -> (out: String)
        ensures
            out@ == self.spec_display(),
    {
        if self.time == 0 && self.length == 0 && self.mass == 0 && self.electric_current == 0
            && self.thermodynamic_temperature == 0 && self.amount_of_substance == 0
            && self.luminous_intensity == 0 {
            return String::new();
        }
        let mut pairs: Vec<(u8, i32)> = Vec::new();
        proof {
            assert(pair_views(pairs@) =~= Seq::<(int, int)>::empty());
        }
        insert_pair(&mut pairs, (0, self.time));
        insert_pair(&mut pairs, (1, self.length));
        insert_pair(&mut pairs, (2, self.mass));
        insert_pair(&mut pairs, (3, self.electric_current));
        insert_pair(&mut pairs, (4, self.thermodynamic_temperature));
        insert_pair(&mut pairs, (5, self.amount_of_substance));
        insert_pair(&mut pairs, (6, self.luminous_intensity));
        let rendered = render_pairs(&pairs);
        let n = rendered.as_str().unicode_len();
        if n == 0 {
            rendered
        } else {
            let trimmed = rendered.as_str().substring_char(0, n - 1);
            proof {
                assert(trimmed@ =~= self.spec_display());
            }
            trimmed.to_owned()
        }
    }
}

/// The error of a quantity whose dimension is not the expected one; holds
/// the rendered message.
#[derive(Debug)]
pub struct DimensionError(pub String);

impl DimensionError {
    /// Wraps a ready-made message.
    pub fn new(message: &str) -> (r: DimensionError)
        ensures
            r.0@ == message@,
    {
        DimensionError(message.to_owned())
    }

    /// The message reported when `found` stands where `expected` belongs.
    pub open spec fn spec_expected_dimension_of(
        expected: Dimension,
        found: Dimension,
        var: Seq<char>,
    ) -> Seq<char> {
        "Expected dimension "@ + expected.spec_display() + " for "@ + var + ", found "@
            + found.spec_display()
    }

    /// Builds the mismatch error for the variable named `var`.
    pub fn expected_dimension_of(expected: Dimension, found: Dimension, var: &str) -> (r:
        DimensionError)
        ensures
            r.0@ == Self::spec_expected_dimension_of(expected, found, var@),
    {
        let mut out = String::new();
        out.append("Expected dimension ");
        let e = expected.to_display_string();
        out.append(e.as_str());
        out.append(" for ");
        out.append(var);
        out.append(", found ");
        let f = found.to_display_string();
        out.append(f.as_str());
        proof {
            assert(out@ =~= Self::spec_expected_dimension_of(expected, found, var@));
        }
        DimensionError(out)
    }
}

} // verus!
