//! Building the textual forms of dimensions: decimal exponents, dimensional
//! formulas, and the SI-symbol rendering with positive exponents first and a
//! single `/` before the negative ones.

use vstd::prelude::*;

verus! {

use vstd::string::StringExecFns;

/// The decimal digit character for `d` in `0..=9`.
pub open spec fn digit_char(d: int) -> char {
    if d == 0 {
        '0'
    } else if d == 1 {
        '1'
    } else if d == 2 {
        '2'
    } else if d == 3 {
        '3'
    } else if d == 4 {
        '4'
    } else if d == 5 {
        '5'
    } else if d == 6 {
        '6'
    } else if d == 7 {
        '7'
    } else if d == 8 {
        '8'
    } else {
        '9'
    }
}

/// The decimal digits of `v`, most significant first.
pub open spec fn decimal_digits(v: nat) -> Seq<char>
    decreases v,
{
    if v < 10 {
        seq![digit_char(v as int)]
    } else {
        decimal_digits(v / 10).push(digit_char((v % 10) as int))
    }
}

/// The decimal form of `v`, with a leading minus sign when negative.
pub open spec fn signed_decimal(v: int) -> Seq<char> {
    if v < 0 {
        seq!['-'] + decimal_digits((-v) as nat)
    } else {
        decimal_digits(v as nat)
    }
}

/// The one-character string for a decimal digit.
fn digit_str(d: u64) -> (r: &'static str)
    requires
        d < 10,
    ensures
        r@ == seq![digit_char(d as int)],
{
    if d == 0 {
        proof {
            reveal_strlit("0");
            assert("0"@ =~= seq![digit_char(0)]);
        }
        "0"
    } else if d == 1 {
        proof {
            reveal_strlit("1");
            assert("1"@ =~= seq![digit_char(1)]);
        }
        "1"
    } else if d == 2 {
        proof {
            reveal_strlit("2");
            assert("2"@ =~= seq![digit_char(2)]);
        }
        "2"
    } else if d == 3 {
        proof {
            reveal_strlit("3");
            assert("3"@ =~= seq![digit_char(3)]);
        }
        "3"
    } else if d == 4 {
        proof {
            reveal_strlit("4");
            assert("4"@ =~= seq![digit_char(4)]);
        }
        "4"
    } else if d == 5 {
        proof {
            reveal_strlit("5");
            assert("5"@ =~= seq![digit_char(5)]);
        }
        "5"
    } else if d == 6 {
        proof {
            reveal_strlit("6");
            assert("6"@ =~= seq![digit_char(6)]);
        }
        "6"
    } else if d == 7 {
        proof {
            reveal_strlit("7");
            assert("7"@ =~= seq![digit_char(7)]);
        }
        "7"
    } else if d == 8 {
        proof {
            reveal_strlit("8");
            assert("8"@ =~= seq![digit_char(8)]);
        }
        "8"
    } else {
        proof {
            reveal_strlit("9");
            assert("9"@ =~= seq![digit_char(9)]);
        }
        "9"
    }
}

/// Appends the decimal digits of `v` to `out`.
pub(crate) fn push_decimal(out: &mut String, v: u64)
    ensures
        final(out)@ == old(out)@ + decimal_digits(v as nat),
    decreases v,
{
    if v >= 10 {
        push_decimal(out, v / 10);
        out.append(digit_str(v % 10));
        proof {
            assert(out@ =~= old(out)@ + decimal_digits(v as nat));
        }
    } else {
        out.append(digit_str(v));
        proof {
            assert(out@ =~= old(out)@ + decimal_digits(v as nat));
        }
    }
}

/// Appends the decimal form of `v`, minus sign included, to `out`.
pub(crate) fn push_signed_decimal(out: &mut String, v: i32)
    ensures
        final(out)@ == old(out)@ + signed_decimal(v as int),
{
    let vl = v as i64;
    if vl < 0 {
        proof {
            reveal_strlit("-");
            assert("-"@ =~= seq!['-']);
        }
        out.append("-");
        push_decimal(out, (-vl) as u64);
        proof {
            assert(out@ =~= old(out)@ + signed_decimal(v as int));
        }
    } else {
        push_decimal(out, vl as u64);
    }
}

/// One factor of a dimensional formula: nothing for exponent zero, the bare
/// label for exponent one, and `label^exponent` otherwise, each followed by
/// one space.
pub open spec fn formula_term(label: Seq<char>, e: int) -> Seq<char> {
    if e == 0 {
        Seq::empty()
    } else if e == 1 {
        label + seq![' ']
    } else {
        label + seq!['^'] + signed_decimal(e) + seq![' ']
    }
}

/// Appends one factor of a dimensional formula to `out`.
pub(crate) fn push_term(out: &mut String, label: &str, e: i32)
    ensures
        final(out)@ == old(out)@ + formula_term(label@, e as int),
{
    if e == 0 {
        return ;
    }
    out.append(label);
    if e != 1 {
        proof {
            reveal_strlit("^");
            assert("^"@ =~= seq!['^']);
        }
        out.append("^");
        push_signed_decimal(out, e);
    }
    proof {
        reveal_strlit(" ");
        assert(" "@ =~= seq![' ']);
    }
    out.append(" ");
    proof {
        assert(out@ =~= old(out)@ + formula_term(label@, e as int));
    }
}

/// The SI base-unit symbol for a slot: the slots are numbered
/// s, m, kg, A, K, mol, cd.
pub open spec fn si_symbol(id: int) -> Seq<char> {
    if id == 0 {
        seq!['s']
    } else if id == 1 {
        seq!['m']
    } else if id == 2 {
        seq!['k', 'g']
    } else if id == 3 {
        seq!['A']
    } else if id == 4 {
        seq!['K']
    } else if id == 5 {
        seq!['m', 'o', 'l']
    } else {
        seq!['c', 'd']
    }
}

/// The SI base-unit symbol for a slot, as a string.
fn si_symbol_str(id: u8) -> (r: &'static str)
    ensures
        r@ == si_symbol(id as int),
{
    if id == 0 {
        proof {
            reveal_strlit("s");
            assert("s"@ =~= seq!['s']);
        }
        "s"
    } else if id == 1 {
        proof {
            reveal_strlit("m");
            assert("m"@ =~= seq!['m']);
        }
        "m"
    } else if id == 2 {
        proof {
            reveal_strlit("kg");
            assert("kg"@ =~= seq!['k', 'g']);
        }
        "kg"
    } else if id == 3 {
        proof {
            reveal_strlit("A");
            assert("A"@ =~= seq!['A']);
        }
        "A"
    } else if id == 4 {
        proof {
            reveal_strlit("K");
            assert("K"@ =~= seq!['K']);
        }
        "K"
    } else if id == 5 {
        proof {
            reveal_strlit("mol");
            assert("mol"@ =~= seq!['m', 'o', 'l']);
        }
        "mol"
    } else {
        proof {
            reveal_strlit("cd");
            assert("cd"@ =~= seq!['c', 'd']);
        }
        "cd"
    }
}

/// The integer views of a list of (symbol slot, exponent) pairs.
pub open spec fn pair_views(s: Seq<(u8, i32)>) -> Seq<(int, int)> {
    s.map_values(|p: (u8, i32)| (p.0 as int, p.1 as int))
}

/// Inserts a pair into a list sorted by weakly descending exponent, after
/// every pair whose exponent is at least as large (so repeated insertion is a
/// stable descending sort).
pub open spec fn insert_desc(s: Seq<(int, int)>, x: (int, int)) -> Seq<(int, int)>
    decreases s.len(),
{
    if s.len() == 0 {
        seq![x]
    } else if s[0].1 >= x.1 {
        seq![s[0]] + insert_desc(s.drop_first(), x)
    } else {
        seq![x] + s
    }
}

/// `insert_desc` puts `x` at the first position whose exponent is smaller.
proof fn lemma_insert_desc_at(s: Seq<(int, int)>, x: (int, int), i: int)
    requires
        0 <= i <= s.len(),
        forall|k: int| 0 <= k < i ==> s[k].1 >= x.1,
        i == s.len() || s[i].1 < x.1,
    ensures
        insert_desc(s, x) == s.insert(i, x),
    decreases i,
{
    if s.len() == 0 {
        assert(insert_desc(s, x) =~= s.insert(0, x));
    } else if i == 0 {
        assert(insert_desc(s, x) =~= s.insert(0, x));
    } else {
        assert(s[0].1 >= x.1);
        let rest = s.drop_first();
        assert(forall|k: int| 0 <= k < i - 1 ==> rest[k].1 >= x.1) by {
            assert(forall|k: int| 0 <= k < i - 1 ==> rest[k] == s[k + 1]);
        }
        lemma_insert_desc_at(rest, x, i - 1);
        assert(seq![s[0]] + rest.insert(i - 1, x) =~= s.insert(i, x));
    }
}

/// Inserts a pair into a list kept in weakly descending exponent order,
/// after every pair with an exponent at least as large.
pub(crate) fn insert_pair(v: &mut Vec<(u8, i32)>, x: (u8, i32))
    ensures
        pair_views(final(v)@) == insert_desc(pair_views(old(v)@), (x.0 as int, x.1 as int)),
{
    let mut i: usize = 0;
    while i < v.len() && v[i].1 >= x.1
        invariant
            i <= v@.len(),
            v@ == old(v)@,
            forall|k: int| 0 <= k < i ==> v@[k].1 >= x.1,
        decreases v@.len() - i,
    {
        i = i + 1;
    }
    v.insert(i, x);
    proof {
        let xv = (x.0 as int, x.1 as int);
        let s = pair_views(old(v)@);
        assert(forall|k: int| 0 <= k < i ==> s[k].1 >= xv.1);
        lemma_insert_desc_at(s, xv, i as int);
        assert(pair_views(v@) =~= s.insert(i as int, xv));
    }
}

/// The rendering of sorted (slot, exponent) pairs: zero exponents are
/// skipped, exponent one prints the bare symbol, larger exponents print
/// `symbol^exponent`, and the first negative exponent is preceded by a
/// single `/ `, after which exponents print their magnitude.  Every factor
/// is followed by one space.
pub open spec fn render_symbols(s: Seq<(int, int)>, denom: bool) -> Seq<char>
    decreases s.len(),
{
    if s.len() == 0 {
        Seq::empty()
    } else {
        let id = s[0].0;
        let e = s[0].1;
        let rest = s.drop_first();
        if e == 0 {
            render_symbols(rest, denom)
        } else if e == 1 {
            si_symbol(id) + seq![' '] + render_symbols(rest, denom)
        } else if e > 1 {
            si_symbol(id) + seq!['^'] + decimal_digits(e as nat) + seq![' '] + render_symbols(
                rest,
                denom,
            )
        } else {
            let piece = if e == -1 {
                si_symbol(id) + seq![' ']
            } else {
                si_symbol(id) + seq!['^'] + decimal_digits((-e) as nat) + seq![' ']
            };
            if denom {
                piece + render_symbols(rest, true)
            } else {
                seq!['/', ' '] + piece + render_symbols(rest, true)
            }
        }
    }
}

/// Renders a list of (slot, exponent) pairs already in descending exponent
/// order.
#[verifier::rlimit(50)]
pub(crate) fn render_pairs(pairs: &Vec<(u8, i32)>) -> (out: String)
    ensures
        out@ == render_symbols(pair_views(pairs@), false),
{
    let ghost view = pair_views(pairs@);
    let mut out = String::new();
    let mut denom = false;
    let mut i: usize = 0;
    proof {
        assert(view.skip(0) =~= view);
        assert(out@ + render_symbols(view, false) =~= render_symbols(view, false));
    }
    while i < pairs.len()
        invariant
            i <= pairs@.len(),
            view == pair_views(pairs@),
            render_symbols(view, false) == out@ + render_symbols(
                view.skip(i as int),
                denom,
            ),
        decreases pairs@.len() - i,
    {
        let (id, e) = pairs[i];
        let ghost at = view.skip(i as int);
        let ghost rest = view.skip(i as int + 1);
        let ghost prev = out@;
        let ghost denom0 = denom;
        proof {
            assert(at.drop_first() =~= rest);
            assert(at[0] == view[i as int]);
        }
        if e != 0 {
            let mut piece = String::new();
            if e < 0 && !denom {
                proof {
                    reveal_strlit("/ ");
                    assert("/ "@ =~= seq!['/', ' ']);
                }
                piece.append("/ ");
                denom = true;
            }
            piece.append(si_symbol_str(id));
            if e > 1 {
                proof {
                    reveal_strlit("^");
                    assert("^"@ =~= seq!['^']);
                }
                piece.append("^");
                push_decimal(&mut piece, e as u64);
            } else if e < -1 {
                proof {
                    reveal_strlit("^");
                    assert("^"@ =~= seq!['^']);
                }
                piece.append("^");
                push_decimal(&mut piece, (-(e as i64)) as u64);
            }
            proof {
                reveal_strlit(" ");
                assert(" "@ =~= seq![' ']);
            }
            piece.append(" ");
            proof {
                assert(render_symbols(at, denom0) =~= piece@ + render_symbols(rest, denom));
            }
            out.append(piece.as_str());
        }
        i = i + 1;
        proof {
            assert(prev + render_symbols(at, denom0) =~= out@ + render_symbols(rest, denom));
        }
    }
    proof {
        assert(view.skip(pairs@.len() as int) =~= Seq::empty());
    }
    out
}

} // verus!
