//! Rendering an assembled template against a slot base.
//!
//! A template is format text whose `{}` placeholders consume the
//! parameter list in order; `{{` and `}}` render as literal braces.
//! A slot parameter renders as the decimal value of `start + slot`,
//! so rendered class names line up with the names the constructor
//! hands out.

use vstd::prelude::*;

use crate::output::{Param, ParamV, param_view};

verus! {

// ---------------------------------------------------------------------------
// Decimal rendering
// ---------------------------------------------------------------------------

/// The digit character of a value below ten.
pub open spec fn digit_char(d: nat) -> char {
    if d == 0 {
        '0'
    } else if d == 1 {
        '1'
    } else if d == 2 {
        '2'
    } else if d == 3 {
        '3'
    } else if d == 4 {
        '4'
    } else if d == 5 {
        '5'
    } else if d == 6 {
        '6'
    } else if d == 7 {
        '7'
    } else if d == 8 {
        '8'
    } else {
        '9'
    }
}

/// The decimal digits of a number, most significant first.
pub open spec fn dec_digits(n: nat) -> Seq<char>
    decreases n,
{
    if n < 10 {
        seq![digit_char(n)]
    } else {
        dec_digits(n / 10) + seq![digit_char(n % 10)]
    }
}

fn digit_to_char(d: u64) -> (c: char)
    requires
        d < 10,
    ensures
        c == digit_char(d as nat),
{
    if d == 0 {
        '0'
    } else if d == 1 {
        '1'
    } else if d == 2 {
        '2'
    } else if d == 3 {
        '3'
    } else if d == 4 {
        '4'
    } else if d == 5 {
        '5'
    } else if d == 6 {
        '6'
    } else if d == 7 {
        '7'
    } else if d == 8 {
        '8'
    } else {
        '9'
    }
}

/// Appends the decimal digits of `n` to `out`.
pub fn push_dec(out: &mut Vec<char>, n: u64)
    ensures
        final(out)@ == old(out)@ + dec_digits(n as nat),
{
    if n < 10 {
        out.push(digit_to_char(n));
        proof {
            assert(out@ =~= old(out)@ + dec_digits(n as nat));
        }
        return;
    }
    let mut rev: Vec<char> = Vec::new();
    let mut m: u64 = n;
    proof {
        assert(rev@.reverse() =~= Seq::<char>::empty());
        assert(dec_digits(n as nat) =~= dec_digits(n as nat) + rev@.reverse());
    }
    while m >= 10
        invariant
            dec_digits(n as nat) == dec_digits(m as nat) + rev@.reverse(),
        decreases m,
    {
        let ghost oldrev = rev@;
        let ghost oldm = m as nat;
        let d = m % 10;
        rev.push(digit_to_char(d));
        m = m / 10;
        proof {
            assert(rev@.reverse() =~= seq![digit_char(oldm % 10)] + oldrev.reverse());
            assert(dec_digits(oldm) == dec_digits(oldm / 10) + seq![digit_char(oldm % 10)]);
            assert(dec_digits(m as nat) + rev@.reverse() =~= dec_digits(oldm)
                + oldrev.reverse());
        }
    }
    let ghost total = dec_digits(n as nat);
    out.push(digit_to_char(m));
    proof {
        assert(dec_digits(m as nat) == seq![digit_char(m as nat)]);
        assert(total =~= seq![digit_char(m as nat)] + rev@.reverse());
        assert(total.len() == 1 + rev@.len());
        assert(total.take(1) =~= seq![digit_char(m as nat)]);
        assert(out@ =~= old(out)@ + total.take(total.len() - rev@.len()));
        assert(total.skip(1) =~= rev@.reverse());
    }
    let mut i: usize = rev.len();
    while i > 0
        invariant
            0 <= i <= rev@.len(),
            total == dec_digits(n as nat),
            total.len() == 1 + rev@.len(),
            total.skip(1) == rev@.reverse(),
            out@ == old(out)@ + total.take(total.len() - i),
        decreases i,
    {
        out.push(rev[i - 1]);
        proof {
            assert(rev@[i - 1] == rev@.reverse()[rev@.len() - i]);
            assert(total[total.len() - i] == total.skip(1)[total.len() - i - 1]);
            assert(total[total.len() - i] == rev@.reverse()[rev@.len() - i]);
            assert(out@ =~= old(out)@ + total.take(total.len() - (i - 1)));
        }
        i -= 1;
    }
    proof {
        assert(total.take(total.len() as int) =~= total);
    }
}

// ---------------------------------------------------------------------------
// Template rendering
// ---------------------------------------------------------------------------

/// The text one parameter renders to: a slot renders as the decimal
/// value of `start + slot`; literal and expression parameters render
/// as their text.
pub open spec fn param_text(params: Seq<ParamV>, j: nat, start: u64) -> Seq<char> {
    if j < params.len() {
        match params[j as int] {
            ParamV::Slot(k) => dec_digits(start as nat + k as nat),
            ParamV::Lit(s) => s,
            ParamV::Expr(s) => s,
        }
    } else {
        Seq::empty()
    }
}

/// Renders the template from position `i`, with `j` parameters
/// already consumed.
pub open spec fn spec_render_from(
    fmt: Seq<char>,
    params: Seq<ParamV>,
    start: u64,
    i: nat,
    j: nat,
) -> Seq<char>
    decreases fmt.len() - i,
{
    if i >= fmt.len() {
        Seq::empty()
    } else if fmt[i as int] == '{' && i + 1 < fmt.len() && fmt[i as int + 1] == '{' {
        seq!['{'] + spec_render_from(fmt, params, start, i + 2, j)
    } else if fmt[i as int] == '}' && i + 1 < fmt.len() && fmt[i as int + 1] == '}' {
        seq!['}'] + spec_render_from(fmt, params, start, i + 2, j)
    } else if fmt[i as int] == '{' && i + 1 < fmt.len() && fmt[i as int + 1] == '}' {
        param_text(params, j, start) + spec_render_from(fmt, params, start, i + 2, j + 1)
    } else {
        seq![fmt[i as int]] + spec_render_from(fmt, params, start, i + 1, j)
    }
}

/// What a whole template renders to.
pub open spec fn spec_render(fmt: Seq<char>, params: Seq<ParamV>, start: u64) -> Seq<char> {
    spec_render_from(fmt, params, start, 0, 0)
}

/// Every slot parameter fits the counter: `start + slot` does not
/// overflow.
pub open spec fn params_fit(params: Seq<ParamV>, start: u64) -> bool {
    forall|j: int|
        0 <= j < params.len() ==> ((#[trigger] params[j]) is Slot ==> start + params[j]->Slot_0
            <= u64::MAX)
}

/// Renders a template (exec mirror of `spec_render`), appending to
/// `out`.
pub fn render_template(fmt: &Vec<char>, params: &Vec<Param>, start: u64, out: &mut Vec<char>)
    requires
        params_fit(params@.map_values(|p: Param| param_view(p)), start),
    ensures
        final(out)@ == old(out)@ + spec_render(
            fmt@,
            params@.map_values(|p: Param| param_view(p)),
            start,
        ),
{
    let ghost pv = params@.map_values(|p: Param| param_view(p));
    let ghost orig = out@;
    let n = fmt.len();
    let mut i: usize = 0;
    let mut j: usize = 0;
    while i < n
        invariant
            0 <= i <= n,
            n == fmt@.len(),
            pv == params@.map_values(|p: Param| param_view(p)),
            params_fit(pv, start),
            j <= i,
            out@ + spec_render_from(fmt@, pv, start, i as nat, j as nat) == orig
                + spec_render(fmt@, pv, start),
        decreases n - i,
    {
        let ghost old_out = out@;
        let c = fmt[i];
        if c == '{' && i + 1 < n && fmt[i + 1] == '{' {
            out.push('{');
            proof {
                assert(out@ + spec_render_from(fmt@, pv, start, (i + 2) as nat, j as nat) =~= old_out
                    + spec_render_from(fmt@, pv, start, i as nat, j as nat));
            }
            i += 2;
        } else if c == '}' && i + 1 < n && fmt[i + 1] == '}' {
            out.push('}');
            proof {
                assert(out@ + spec_render_from(fmt@, pv, start, (i + 2) as nat, j as nat) =~= old_out
                    + spec_render_from(fmt@, pv, start, i as nat, j as nat));
            }
            i += 2;
        } else if c == '{' && i + 1 < n && fmt[i + 1] == '}' {
            if j < params.len() {
                match &params[j] {
                    Param::Slot(k) => {
                        proof {
                            assert(pv[j as int] == param_view(params@[j as int]));
                        }
                        push_dec(out, start + *k);
                    },
                    Param::Lit(s) => {
                        let mut x: usize = 0;
                        while x < s.len()
                            invariant
                                0 <= x <= s@.len(),
                                out@ == old_out + s@.take(x as int),
                            decreases s@.len() - x,
                        {
                            out.push(s[x]);
                            proof {
                                assert(out@ =~= old_out + s@.take(x + 1));
                            }
                            x += 1;
                        }
                        proof {
                            assert(s@.take(s@.len() as int) =~= s@);
                        }
                    },
                    Param::Expr(s) => {
                        let mut x: usize = 0;
                        while x < s.len()
                            invariant
                                0 <= x <= s@.len(),
                                out@ == old_out + s@.take(x as int),
                            decreases s@.len() - x,
                        {
                            out.push(s[x]);
                            proof {
                                assert(out@ =~= old_out + s@.take(x + 1));
                            }
                            x += 1;
                        }
                        proof {
                            assert(s@.take(s@.len() as int) =~= s@);
                        }
                    },
                }
            }
            proof {
                assert(out@ =~= old_out + param_text(pv, j as nat, start));
                assert(out@ + spec_render_from(fmt@, pv, start, (i + 2) as nat, (j + 1) as nat) =~=
                    old_out + spec_render_from(fmt@, pv, start, i as nat, j as nat));
            }
            i += 2;
            j += 1;
        } else {
            out.push(c);
            proof {
                assert(out@ + spec_render_from(fmt@, pv, start, (i + 1) as nat, j as nat) =~= old_out
                    + spec_render_from(fmt@, pv, start, i as nat, j as nat));
            }
            i += 1;
        }
    }
    proof {
        assert(out@ =~= orig + spec_render(fmt@, pv, start));
    }
}

} // verus!
