//! Number text: rendering rationals as decimal text and the exact decimal
//! grammar that literal contents are parsed with. A literal parses as a
//! number when it is an optional sign followed by digits with at most one
//! decimal point; the value is held exactly, so `3.25` becomes `13/4`.

use vstd::prelude::*;
use vstd::arithmetic::power::{pow, lemma_pow_strictly_increases};
use crate::rational::{
    Rational, spec_canon, rat_fits, rat_result_matches, reduce,
};
use crate::strings::str_to_chars;

verus! {

/// The digit character for a value below ten.
pub open spec fn spec_digit_char(d: int) -> char {
    if d == 0 {
        '0'
    } else if d == 1 {
        '1'
    } else if d == 2 {
        '2'
    } else if d == 3 {
        '3'
    } else if d == 4 {
        '4'
    } else if d == 5 {
        '5'
    } else if d == 6 {
        '6'
    } else if d == 7 {
        '7'
    } else if d == 8 {
        '8'
    } else {
        '9'
    }
}

/// Decimal rendering of a natural number, most significant digit first.
pub open spec fn spec_nat_chars(n: nat) -> Seq<char>
    decreases n,
{
    if n < 10 {
        seq![spec_digit_char(n as int)]
    } else {
        spec_nat_chars(n / 10) + seq![spec_digit_char((n % 10) as int)]
    }
}

/// Decimal rendering of an integer: a minus sign for negative values.
pub open spec fn spec_int_chars(v: int) -> Seq<char> {
    if v < 0 {
        seq!['-'] + spec_nat_chars((-v) as nat)
    } else {
        spec_nat_chars(v as nat)
    }
}

/// Rendering of a rational pair: the numerator alone for integers, else
/// numerator and denominator separated by a slash.
pub open spec fn spec_rat_chars(p: (int, int)) -> Seq<char> {
    if p.1 == 1 {
        spec_int_chars(p.0)
    } else {
        spec_int_chars(p.0) + seq!['/'] + spec_nat_chars(p.1 as nat)
    }
}

fn digit_char(d: u64) -> (c: char)
    requires
        d < 10,
    ensures
        c == spec_digit_char(d as int),
{
    if d == 0 {
        '0'
    } else if d == 1 {
        '1'
    } else if d == 2 {
        '2'
    } else if d == 3 {
        '3'
    } else if d == 4 {
        '4'
    } else if d == 5 {
        '5'
    } else if d == 6 {
        '6'
    } else if d == 7 {
        '7'
    } else if d == 8 {
        '8'
    } else {
        '9'
    }
}

/// Renders a natural number in decimal.
pub fn nat_to_chars(n: u64) -> (r: Vec<char>)
    ensures
        r@ == spec_nat_chars(n as nat),
{
    let mut out: Vec<char> = Vec::new();
    let mut x = n;
    loop
        invariant_except_break
            out@.len() == 0 ==> x == n,
            out@.len() > 0 ==> x > 0 && spec_nat_chars(n as nat) == spec_nat_chars(x as nat)
                + out@,
        ensures
            spec_nat_chars(n as nat) == out@,
        decreases x,
    {
        let d = x % 10;
        let c = digit_char(d);
        let ghost prev = x;
        let ghost old_out = out@;
        out.insert(0, c);
        x = x / 10;
        proof {
            assert(out@ =~= seq![spec_digit_char((prev % 10) as int)] + old_out);
            if prev < 10 {
                assert(spec_nat_chars(prev as nat) == seq![spec_digit_char(prev as int)]);
                assert(prev % 10 == prev);
                assert(spec_nat_chars(prev as nat) + old_out =~= out@);
            } else {
                assert(spec_nat_chars(prev as nat) == spec_nat_chars((prev / 10) as nat) + seq![
                    spec_digit_char((prev % 10) as int),
                ]);
                assert(spec_nat_chars(prev as nat) + old_out =~= spec_nat_chars((prev / 10) as nat)
                    + out@);
            }
        }
        if x == 0 {
            break;
        }
    }
    out
}

/// Renders an integer in decimal.
pub fn int_to_chars(v: i64) -> (r: Vec<char>)
    requires
        v > i64::MIN,
    ensures
        r@ == spec_int_chars(v as int),
{
    if v < 0 {
        let mag = (-v) as u64;
        let mut out = nat_to_chars(mag);
        out.insert(0, '-');
        proof {
            assert(out@ =~= seq!['-'] + spec_nat_chars((-(v as int)) as nat));
        }
        out
    } else {
        nat_to_chars(v as u64)
    }
}

/// Renders a rational in decimal, as `n` or `n/d`.
pub fn rat_to_chars(r: &Rational) -> (out: Vec<char>)
    requires
        r.wf(),
    ensures
        out@ == spec_rat_chars(r.pair()),
{
    let n = r.int_part();
    let d = r.den_part();
    let mut out = int_to_chars(n);
    if d != 1 {
        out.push('/');
        let dc = nat_to_chars(d as u64);
        crate::strings::push_chars(&mut out, &dc);
        proof {
            assert(out@ =~= spec_int_chars(r.nv()) + seq!['/'] + spec_nat_chars(r.dv() as nat));
        }
    }
    out
}

/// `c` is a decimal digit.
pub open spec fn spec_is_digit(c: char) -> bool {
    '0' <= c <= '9'
}

/// The value of a digit character.
pub open spec fn spec_digit_val(c: char) -> int {
    c as int - '0' as int
}

/// Every character of `s` is a decimal digit.
pub open spec fn all_digits(s: Seq<char>) -> bool {
    forall|i: int| 0 <= i < s.len() ==> spec_is_digit(#[trigger] s[i])
}

/// The value of a digit string, most significant digit first.
pub open spec fn digits_val(s: Seq<char>) -> int
    decreases s.len(),
{
    if s.len() == 0 {
        0
    } else {
        digits_val(s.drop_last()) * 10 + spec_digit_val(s.last())
    }
}

pub proof fn lemma_digits_val_nonneg(s: Seq<char>)
    requires
        all_digits(s),
    ensures
        digits_val(s) >= 0,
    decreases s.len(),
{
    if s.len() > 0 {
        assert(all_digits(s.drop_last())) by {
            assert(forall|i: int| 0 <= i < s.len() - 1 ==> spec_is_digit(#[trigger] s.drop_last()[i]));
        }
        lemma_digits_val_nonneg(s.drop_last());
    }
}

/// The position of the first `.` in `s`, or `-1` if there is none.
pub open spec fn find_dot(s: Seq<char>) -> int
    decreases s.len(),
{
    if s.len() == 0 {
        -1
    } else if s[0] == '.' {
        0
    } else {
        let r = find_dot(s.skip(1));
        if r == -1 {
            -1
        } else {
            r + 1
        }
    }
}

/// The position of the first exponent marker `e` or `E` in `s`, or `-1`
/// if there is none.
pub open spec fn find_exp(s: Seq<char>) -> int
    decreases s.len(),
{
    if s.len() == 0 {
        -1
    } else if s[0] == 'e' || s[0] == 'E' {
        0
    } else {
        let r = find_exp(s.skip(1));
        if r == -1 {
            -1
        } else {
            r + 1
        }
    }
}

/// If nothing before `at` is an exponent marker and `s[at]` is one, the
/// first marker of `s` is at `at`.
proof fn lemma_find_exp_at(s: Seq<char>, at: int)
    requires
        0 <= at < s.len(),
        s[at] == 'e' || s[at] == 'E',
        forall|i: int| 0 <= i < at ==> #[trigger] s[i] != 'e' && s[i] != 'E',
    ensures
        find_exp(s) == at,
    decreases at,
{
    if at == 0 {
    } else {
        assert(s[0] != 'e' && s[0] != 'E');
        assert(forall|i: int| 0 <= i < at - 1 ==> #[trigger] s.skip(1)[i] == s[i + 1]);
        lemma_find_exp_at(s.skip(1), at - 1);
    }
}

/// A string without an exponent marker has none to find.
proof fn lemma_find_exp_none(s: Seq<char>)
    requires
        forall|i: int| 0 <= i < s.len() ==> #[trigger] s[i] != 'e' && s[i] != 'E',
    ensures
        find_exp(s) == -1,
    decreases s.len(),
{
    if s.len() > 0 {
        assert(forall|i: int| 0 <= i < s.len() - 1 ==> #[trigger] s.skip(1)[i] == s[i + 1]);
        lemma_find_exp_none(s.skip(1));
    }
}

/// A found exponent marker is in range and is a marker.
proof fn lemma_find_exp_is_marker(s: Seq<char>)
    requires
        find_exp(s) != -1,
    ensures
        0 <= find_exp(s) < s.len(),
        s[find_exp(s)] == 'e' || s[find_exp(s)] == 'E',
    decreases s.len(),
{
    if s.len() > 0 && s[0] != 'e' && s[0] != 'E' {
        lemma_find_exp_is_marker(s.skip(1));
    }
}

/// `s` with trailing `0` characters removed.
pub open spec fn strip_trailing_zeros(s: Seq<char>) -> Seq<char>
    decreases s.len(),
{
    if s.len() > 0 && s.last() == '0' {
        strip_trailing_zeros(s.drop_last())
    } else {
        s
    }
}

/// The exact decimal grammar of numeric literals. An optional sign is
/// followed by digits holding at most one point, with at least one digit,
/// optionally followed by an exponent marker `e` or `E`, its own optional
/// sign and digits. The result is the canonical rational; the parse
/// reports `None` for text outside the grammar, for an integer part beyond
/// the 64-bit range, for more than eighteen significant fractional digits,
/// for a nonzero value scaled more than eighteen decimal places in either
/// direction, and for a value whose canonical form does not fit a
/// `Rational`.
pub open spec fn spec_parse_decimal(s: Seq<char>) -> Option<(int, int)> {
    let neg = s.len() > 0 && s[0] == '-';
    let body = if s.len() > 0 && (s[0] == '-' || s[0] == '+') {
        s.skip(1)
    } else {
        s
    };
    let epos = find_exp(body);
    let mant = if epos == -1 {
        body
    } else {
        body.subrange(0, epos)
    };
    let es = if epos == -1 {
        Seq::<char>::empty()
    } else {
        body.skip(epos + 1)
    };
    let eneg = es.len() > 0 && es[0] == '-';
    let ed = if es.len() > 0 && (es[0] == '-' || es[0] == '+') {
        es.skip(1)
    } else {
        es
    };
    let exp_ok = epos == -1 || (all_digits(ed) && ed.len() >= 1);
    let dot = find_dot(mant);
    let ip = if dot == -1 {
        mant
    } else {
        mant.subrange(0, dot)
    };
    let fp0 = if dot == -1 {
        Seq::<char>::empty()
    } else {
        mant.skip(dot + 1)
    };
    if !(all_digits(ip) && all_digits(fp0) && ip.len() + fp0.len() >= 1 && exp_ok) {
        None
    } else {
        spec_parse_parts(neg, ip, fp0, eneg, ed)
    }
}

/// The numeric tail of the grammar: the value the split parts denote,
/// canonicalized, with the range checks of the grammar applied.
#[verifier::opaque]
pub open spec fn spec_parse_parts(
    neg: bool,
    ip: Seq<char>,
    fp0: Seq<char>,
    eneg: bool,
    ed: Seq<char>,
) -> Option<(int, int)> {
    let expv = if eneg {
        -digits_val(ed)
    } else {
        digits_val(ed)
    };
    let fp = strip_trailing_zeros(fp0);
    if fp.len() > 18 {
        None
    } else if digits_val(ip) > i64::MAX as int {
        None
    } else {
        let mant_num = digits_val(ip) * pow(10, fp.len() as nat) + digits_val(fp);
        let net = expv - fp.len();
        if mant_num == 0 {
            Some((0int, 1int))
        } else if net > 18 || net < -18 {
            None
        } else {
            let raw = if net >= 0 {
                mant_num * pow(10, net as nat)
            } else {
                mant_num
            };
            let den = if net >= 0 {
                1int
            } else {
                pow(10, (-net) as nat)
            };
            let num = if neg {
                -raw
            } else {
                raw
            };
            let c = spec_canon(num, den);
            if rat_fits(c) {
                Some(c)
            } else {
                None
            }
        }
    }
}

proof fn lemma_pow10_consts()
    ensures
        pow(10, 0) == 1,
        pow(10, 18) == 1_000_000_000_000_000_000,
        pow(10, 19) == 10_000_000_000_000_000_000,
{
    reveal_with_fuel(pow, 20);
}

/// Ten to the `k`.
pub fn pow10_u128(k: usize) -> (r: u128)
    requires
        k <= 18,
    ensures
        r as int == pow(10, k as nat),
        1 <= r,
{
    let mut r: u128 = 1;
    let mut i: usize = 0;
    proof {
        lemma_pow10_consts();
    }
    while i < k
        invariant
            i <= k,
            k <= 18,
            r as int == pow(10, i as nat),
            1 <= r,
        decreases k - i,
    {
        proof {
            if ((i + 1) as nat) < 19 {
                lemma_pow_strictly_increases(10, (i + 1) as nat, 19);
            }
            lemma_pow10_consts();
            assert(pow(10, (i + 1) as nat) == pow(10, i as nat) * 10) by {
                reveal(pow);
            }
        }
        r = r * 10;
        i = i + 1;
    }
    r
}

proof fn lemma_digits_val_append(s: Seq<char>, c: char)
    ensures
        digits_val(s.push(c)) == digits_val(s) * 10 + spec_digit_val(c),
{
    assert(s.push(c).drop_last() =~= s);
    assert(s.push(c).last() == c);
}

fn is_digit(c: char) -> (r: bool)
    ensures
        r == spec_is_digit(c),
{
    '0' <= c && c <= '9'
}

/// Scans a run of digits from position `from`, accumulating the value and
/// capping the accumulator once it passes the 64-bit range.
fn scan_digits(s: &Vec<char>, from: usize) -> (r: (usize, u128, bool))
    requires
        from <= s@.len(),
    ensures
        from <= r.0 <= s@.len(),
        all_digits(s@.subrange(from as int, r.0 as int)),
        r.0 < s@.len() ==> !spec_is_digit(s@[r.0 as int]),
        !r.2 ==> r.1 as int == digits_val(s@.subrange(from as int, r.0 as int)) && r.1 <= i64::MAX
            as u128,
        r.2 ==> digits_val(s@.subrange(from as int, r.0 as int)) > i64::MAX as int,
{
    let n = s.len();
    let mut i = from;
    let mut acc: u128 = 0;
    let mut over = false;
    while i < n
        invariant
            from <= i <= n,
            n == s@.len(),
            all_digits(s@.subrange(from as int, i as int)),
            !over ==> acc as int == digits_val(s@.subrange(from as int, i as int)) && acc
                <= i64::MAX as u128,
            over ==> digits_val(s@.subrange(from as int, i as int)) > i64::MAX as int,
        decreases n - i,
    {
        let c = s[i];
        if !is_digit(c) {
            return (i, acc, over);
        }
        let d = (c as u32) - ('0' as u32);
        let ghost p = s@.subrange(from as int, i as int);
        proof {
            assert(s@.subrange(from as int, i + 1) =~= p.push(s@[i as int]));
            lemma_digits_val_append(p, s@[i as int]);
            lemma_digits_val_nonneg(p);
        }
        if !over {
            if acc > (i64::MAX as u128) / 10 {
                proof {
                    assert(digits_val(p) * 10 + spec_digit_val(s@[i as int]) > i64::MAX as int)
                        by (nonlinear_arith)
                        requires
                            digits_val(p) == acc as int,
                            acc > (i64::MAX as u128) / 10,
                            spec_digit_val(s@[i as int]) >= 0,
                    ;
                }
                over = true;
            } else {
                acc = acc * 10 + (d as u128);
                if acc > i64::MAX as u128 {
                    over = true;
                }
                proof {
                    if acc > i64::MAX as u128 {
                        assert(digits_val(s@.subrange(from as int, i + 1)) > i64::MAX as int);
                    }
                }
            }
        } else {
            proof {
                assert(digits_val(p) * 10 + spec_digit_val(s@[i as int]) > i64::MAX as int)
                    by (nonlinear_arith)
                    requires
                        digits_val(p) > i64::MAX as int,
                        spec_digit_val(s@[i as int]) >= 0,
                ;
            }
        }
        i = i + 1;
    }
    (i, acc, over)
}

/// A scanned mantissa region holds digits and at most one point, so no
/// exponent marker stands in it.
proof fn lemma_mant_no_marker(s: Seq<char>, start: int, ip_end: int, mant_end: int, saw_dot: bool)
    requires
        0 <= start <= ip_end <= mant_end <= s.len(),
        all_digits(s.subrange(start, ip_end)),
        saw_dot ==> ip_end < mant_end && s[ip_end] == '.' && all_digits(
            s.subrange(ip_end + 1, mant_end),
        ),
        !saw_dot ==> mant_end == ip_end,
    ensures
        forall|i: int| start <= i < mant_end ==> #[trigger] s[i] != 'e' && s[i] != 'E',
{
    assert forall|i: int| start <= i < mant_end implies #[trigger] s[i] != 'e' && s[i] != 'E' by {
        if i < ip_end {
            assert(spec_is_digit(s.subrange(start, ip_end)[i - start]));
        } else if saw_dot && i == ip_end {
        } else {
            assert(spec_is_digit(s.subrange(ip_end + 1, mant_end)[i - ip_end - 1]));
        }
    }
}

/// A non-digit stray character inside the mantissa refutes the grammar:
/// whichever side of the first point it stands on is not all digits.
proof fn lemma_stray_refutes_grammar(mant: Seq<char>, ip_off: int, si: int, saw_dot: bool)
    requires
        0 <= ip_off <= si < mant.len(),
        all_digits(mant.subrange(0, ip_off)),
        saw_dot ==> ip_off < si && mant[ip_off] == '.' && all_digits(
            mant.subrange(ip_off + 1, si),
        ),
        !saw_dot ==> si == ip_off && mant[si] != '.',
        !spec_is_digit(mant[si]),
    ensures
        ({
            let dot = find_dot(mant);
            let ip = if dot == -1 {
                mant
            } else {
                mant.subrange(0, dot)
            };
            let fp0 = if dot == -1 {
                Seq::<char>::empty()
            } else {
                mant.skip(dot + 1)
            };
            !(all_digits(ip) && all_digits(fp0))
        }),
{
    if saw_dot {
        lemma_find_dot_at(mant, ip_off);
        assert(mant.skip(ip_off + 1)[si - ip_off - 1] == mant[si]);
        assert(!all_digits(mant.skip(ip_off + 1)));
    } else {
        if find_dot(mant) == -1 {
            assert(!all_digits(mant));
        } else {
            lemma_find_dot_prefix_digits(mant, si);
        }
    }
}

/// A fully scanned mantissa splits at its single point, if any, into its
/// digit parts.
proof fn lemma_mant_split(mant: Seq<char>, ip_off: int, saw_dot: bool)
    requires
        0 <= ip_off <= mant.len(),
        all_digits(mant.subrange(0, ip_off)),
        saw_dot ==> ip_off < mant.len() && mant[ip_off] == '.' && all_digits(
            mant.skip(ip_off + 1),
        ),
        !saw_dot ==> ip_off == mant.len(),
    ensures
        saw_dot ==> find_dot(mant) == ip_off,
        !saw_dot ==> find_dot(mant) == -1,
{
    if saw_dot {
        lemma_find_dot_at(mant, ip_off);
    } else {
        assert(mant =~= mant.subrange(0, ip_off));
        lemma_find_dot_none(mant);
    }
}

/// Builds the rational a split literal denotes: integer digits, fraction
/// digits, exponent sign and digits, each already scanned.
#[verifier::loop_isolation(false)]
#[verifier::rlimit(100)]
fn parts_value(
    neg: bool,
    int_acc: u128,
    int_over: bool,
    frac: Vec<char>,
    eneg: bool,
    e_acc: u128,
    e_over: bool,
    Ghost(ip): Ghost<Seq<char>>,
    Ghost(ed): Ghost<Seq<char>>,
) -> (r: Option<Rational>)
    requires
        all_digits(ip),
        all_digits(frac@),
        !int_over ==> int_acc as int == digits_val(ip) && int_acc <= i64::MAX as u128,
        int_over ==> digits_val(ip) > i64::MAX as int,
        !e_over ==> e_acc as int == digits_val(ed) && e_acc <= i64::MAX as u128,
        e_over ==> digits_val(ed) > i64::MAX as int,
    ensures
        rat_result_matches(r, spec_parse_parts(neg, ip, frac@, eneg, ed)),
{
    proof {
        reveal(spec_parse_parts);
    }
    let ghost fp0 = frac@;
    let mut frac = frac;
    while frac.len() > 0 && frac[frac.len() - 1] == '0'
        invariant
            strip_trailing_zeros(frac@) == strip_trailing_zeros(fp0),
            all_digits(frac@),
        decreases frac@.len(),
    {
        proof {
            assert(frac@.last() == '0');
            lemma_all_digits_drop_last(frac@);
        }
        frac.pop();
    }
    let ghost fp = strip_trailing_zeros(fp0);
    proof {
        assert(strip_trailing_zeros(frac@) == frac@);
        assert(frac@ == fp);
    }
    if frac.len() > 18 {
        return None;
    }
    if int_over {
        return None;
    }
    let k = frac.len();
    let p10 = pow10_u128(k);
    let (_, frac_acc, frac_over) = scan_digits_all(&frac);
    proof {
        lemma_digits_bound(frac@);
        lemma_pow10_bound(k as nat);
        lemma_pow10_consts();
        assert(!frac_over);
        assert(int_acc as int * p10 as int <= i64::MAX as int * pow(10, 18)) by (nonlinear_arith)
            requires
                0 <= int_acc as int <= i64::MAX as int,
                1 <= p10 as int <= pow(10, 18),
        ;
    }
    let mant_num: u128 = int_acc * p10 + frac_acc;
    proof {
        assert(mant_num as int == digits_val(ip) * pow(10, fp.len() as nat) + digits_val(fp));
    }
    if mant_num == 0 {
        return Some(Rational::zero());
    }
    if e_over {
        // the exponent digits overrun the 64-bit range: with a nonzero
        // mantissa the net scale is far outside the window either way
        return None;
    }
    let expv: i128 = if eneg {
        -(e_acc as i128)
    } else {
        e_acc as i128
    };
    let net: i128 = expv - k as i128;
    if net > 18 || net < -18 {
        return None;
    }
    if net >= 0 {
        proof {
            lemma_pow10_bound(net as nat);
        }
        if mant_num > i64::MAX as u128 {
            // scaling only grows the numerator, so the canonical form
            // cannot fit
            proof {
                assert((mant_num as int) * pow(10, net as nat) >= mant_num as int)
                    by (nonlinear_arith)
                    requires mant_num as int >= 1 && pow(10, net as nat) >= 1;
                let ghost raw = (mant_num as int) * pow(10, net as nat);
                crate::rational::lemma_canon_value(if neg { -raw } else { raw }, 1int);
                let ghost c = spec_canon(if neg { -raw } else { raw }, 1int);
                if neg {
                    assert(c.0 <= -raw) by (nonlinear_arith)
                        requires c.0 * 1 == (-raw) * c.1 && c.1 >= 1 && -raw < 0;
                } else {
                    assert(c.0 >= raw) by (nonlinear_arith)
                        requires c.0 * 1 == raw * c.1 && c.1 >= 1 && raw > 0;
                }
            }
            return None;
        }
        let p2 = pow10_u128(net as usize);
        proof {
            assert(mant_num as int * p2 as int <= i64::MAX as int * pow(10, 18))
                by (nonlinear_arith)
                requires
                    0 <= mant_num as int <= i64::MAX as int,
                    1 <= p2 as int <= pow(10, 18),
            ;
        }
        let raw: u128 = mant_num * p2;
        let num: i128 = if neg {
            -(raw as i128)
        } else {
            raw as i128
        };
        let r = reduce(num, 1);
        r
    } else {
        let m = (-net) as usize;
        let den128 = pow10_u128(m);
        proof {
            lemma_pow10_bound(m as nat);
        }
        let num: i128 = if neg {
            -(mant_num as i128)
        } else {
            mant_num as i128
        };
        let r = reduce(num, den128 as i128);
        r
    }
}

/// A literal whose mantissa scan stopped at a character that is neither
/// digit, point nor exponent marker is outside the grammar.
proof fn lemma_stray_parse_none(sv: Seq<char>, start: int, ip_end: int, mant_end: int, saw_dot: bool)
    requires
        start == (if sv.len() > 0 && (sv[0] == '-' || sv[0] == '+') {
            1int
        } else {
            0int
        }),
        start <= ip_end <= mant_end < sv.len(),
        all_digits(sv.subrange(start, ip_end)),
        saw_dot ==> ip_end < mant_end && sv[ip_end] == '.' && all_digits(
            sv.subrange(ip_end + 1, mant_end),
        ),
        !saw_dot ==> mant_end == ip_end && sv[ip_end] != '.',
        !spec_is_digit(sv[mant_end]),
        sv[mant_end] != 'e' && sv[mant_end] != 'E',
    ensures
        spec_parse_decimal(sv) is None,
{
    let body = if sv.len() > 0 && (sv[0] == '-' || sv[0] == '+') {
        sv.skip(1)
    } else {
        sv
    };
    assert(body.subrange(0, ip_end - start) =~= sv.subrange(start, ip_end));
    if saw_dot {
        assert(body.subrange(ip_end - start + 1, mant_end - start) =~= sv.subrange(
            ip_end + 1,
            mant_end,
        ));
    }
    lemma_mant_no_marker(body, 0, ip_end - start, mant_end - start, saw_dot);
    let epos = find_exp(body);
    let si = mant_end - start;
    if epos != -1 {
        lemma_find_exp_is_marker(body);
    }
    assert(epos == -1 || epos > si);
    let mant = if epos == -1 {
        body
    } else {
        body.subrange(0, epos)
    };
    assert(mant[si] == sv[mant_end]);
    assert(all_digits(mant.subrange(0, ip_end - start))) by {
        assert(mant.subrange(0, ip_end - start) =~= sv.subrange(start, ip_end));
    }
    if saw_dot {
        assert(mant.subrange(ip_end - start + 1, si) =~= sv.subrange(ip_end + 1, mant_end));
    }
    lemma_stray_refutes_grammar(mant, ip_end - start, si, saw_dot);
}

/// Under the facts a mantissa scan establishes, the parse of the whole
/// literal takes the shape of its split parts: the grammar still owes the
/// exponent-digit check and at least one mantissa digit, and the value is
/// the parts'.
#[verifier::rlimit(60)]
proof fn lemma_parse_shape(sv: Seq<char>, start: int, ip_end: int, mant_end: int, saw_dot: bool)
    requires
        start == (if sv.len() > 0 && (sv[0] == '-' || sv[0] == '+') {
            1int
        } else {
            0int
        }),
        start <= ip_end <= mant_end <= sv.len(),
        all_digits(sv.subrange(start, ip_end)),
        saw_dot ==> ip_end < mant_end && sv[ip_end] == '.' && all_digits(
            sv.subrange(ip_end + 1, mant_end),
        ),
        !saw_dot ==> mant_end == ip_end,
        mant_end < sv.len() ==> (sv[mant_end] == 'e' || sv[mant_end] == 'E'),
    ensures
        ({
            let neg = sv.len() > 0 && sv[0] == '-';
            let es = if mant_end == sv.len() {
                Seq::<char>::empty()
            } else {
                sv.subrange(mant_end + 1, sv.len() as int)
            };
            let ed = if es.len() > 0 && (es[0] == '-' || es[0] == '+') {
                es.skip(1)
            } else {
                es
            };
            let eneg = es.len() > 0 && es[0] == '-';
            let ip = sv.subrange(start, ip_end);
            let fp0 = if saw_dot {
                sv.subrange(ip_end + 1, mant_end)
            } else {
                Seq::<char>::empty()
            };
            spec_parse_decimal(sv) == (if (mant_end < sv.len() ==> (all_digits(ed) && ed.len()
                >= 1)) && ip.len() + fp0.len() >= 1 {
                spec_parse_parts(neg, ip, fp0, eneg, ed)
            } else {
                None
            })
        }),
{
    let body = if sv.len() > 0 && (sv[0] == '-' || sv[0] == '+') {
        sv.skip(1)
    } else {
        sv
    };
    assert(body.subrange(0, ip_end - start) =~= sv.subrange(start, ip_end));
    if saw_dot {
        assert(body.subrange(ip_end - start + 1, mant_end - start) =~= sv.subrange(
            ip_end + 1,
            mant_end,
        ));
    }
    lemma_mant_no_marker(body, 0, ip_end - start, mant_end - start, saw_dot);
    let epos = find_exp(body);
    if mant_end < sv.len() {
        assert(body[mant_end - start] == sv[mant_end]);
        lemma_find_exp_at(body, mant_end - start);
    } else {
        lemma_find_exp_none(body);
    }
    let mant = if epos == -1 {
        body
    } else {
        body.subrange(0, epos)
    };
    assert(mant =~= sv.subrange(start, mant_end));
    assert(all_digits(mant.subrange(0, ip_end - start))) by {
        assert(mant.subrange(0, ip_end - start) =~= sv.subrange(start, ip_end));
    }
    if saw_dot {
        assert(mant.skip(ip_end - start + 1) =~= sv.subrange(ip_end + 1, mant_end));
    }
    lemma_mant_split(mant, ip_end - start, saw_dot);
    let dot = find_dot(mant);
    if dot == -1 {
        assert(mant =~= sv.subrange(start, ip_end));
    } else {
        assert(mant.subrange(0, dot) =~= sv.subrange(start, ip_end));
        assert(mant.skip(dot + 1) =~= sv.subrange(ip_end + 1, mant_end));
    }
    if epos != -1 {
        assert(body.skip(epos + 1) =~= sv.subrange(mant_end + 1, sv.len() as int));
    }
}

/// The back half of a scanned literal: the optional exponent part, the
/// split into digit pieces, and the value they denote.
#[verifier::rlimit(100)]
fn finish_tail(
    v: &Vec<char>,
    n: usize,
    start: usize,
    neg: bool,
    ip_end: usize,
    int_acc: u128,
    int_over: bool,
    frac: Vec<char>,
    mant_end: usize,
    saw_dot: bool,
    Ghost(sv): Ghost<Seq<char>>,
) -> (r: Option<Rational>)
    requires
        v@ == sv,
        n == sv.len(),
        start as int == (if sv.len() > 0 && (sv[0] == '-' || sv[0] == '+') {
            1int
        } else {
            0int
        }),
        neg == (sv.len() > 0 && sv[0] == '-'),
        start <= ip_end <= mant_end <= n,
        all_digits(sv.subrange(start as int, ip_end as int)),
        !int_over ==> int_acc as int == digits_val(sv.subrange(start as int, ip_end as int))
            && int_acc <= i64::MAX as u128,
        int_over ==> digits_val(sv.subrange(start as int, ip_end as int)) > i64::MAX as int,
        saw_dot ==> ip_end < n && sv[ip_end as int] == '.' && ip_end + 1 <= mant_end && frac@
            == sv.subrange(ip_end + 1, mant_end as int) && all_digits(frac@),
        !saw_dot ==> mant_end == ip_end && frac@.len() == 0,
        mant_end < n ==> (sv[mant_end as int] == 'e' || sv[mant_end as int] == 'E'),
    ensures
        rat_result_matches(r, spec_parse_decimal(sv)),
{
    proof {
        lemma_parse_shape(sv, start as int, ip_end as int, mant_end as int, saw_dot);
    }
    let ghost es = if mant_end == n {
        Seq::<char>::empty()
    } else {
        sv.subrange(mant_end + 1, n as int)
    };
    let ghost ed = if es.len() > 0 && (es[0] == '-' || es[0] == '+') {
        es.skip(1)
    } else {
        es
    };
    let ghost ip = sv.subrange(start as int, ip_end as int);
    let ghost fp0 = if saw_dot {
        sv.subrange(ip_end + 1, mant_end as int)
    } else {
        Seq::<char>::empty()
    };
    let mut eneg = false;
    let mut e_acc: u128 = 0;
    let mut e_over = false;
    if mant_end < n {
        let mut ep = mant_end + 1;
        proof {
            assert(es =~= v@.subrange(mant_end + 1, n as int));
        }
        if ep < n && (v[ep] == '+' || v[ep] == '-') {
            eneg = v[ep] == '-';
            ep = ep + 1;
        }
        proof {
            assert(ed =~= v@.subrange(ep as int, n as int));
        }
        let (e_end, ea, eo) = scan_digits(v, ep);
        if e_end < n {
            // a stray character among the exponent digits
            proof {
                assert(ed[e_end - ep] == sv[e_end as int]);
                assert(!spec_is_digit(sv[e_end as int]));
                assert(!all_digits(ed));
            }
            return None;
        }
        if e_end == ep {
            // an exponent marker with no digits
            proof {
                assert(ed.len() == 0);
            }
            return None;
        }
        e_acc = ea;
        e_over = eo;
        proof {
            assert(ed =~= v@.subrange(ep as int, e_end as int));
            assert(all_digits(ed));
        }
    }
    proof {
        if mant_end == n {
            assert(ed.len() == 0);
        }
        assert(eneg == (es.len() > 0 && es[0] == '-'));
    }
    if ip_end == start && frac.len() == 0 {
        // no mantissa digits at all
        proof {
            assert(ip.len() + fp0.len() == 0);
        }
        return None;
    }
    proof {
        assert(frac@ == fp0);
        assert(all_digits(ip));
        assert(all_digits(fp0));
    }
    parts_value(neg, int_acc, int_over, frac, eneg, e_acc, e_over, Ghost(ip), Ghost(ed))
}

/// Finishes a literal whose mantissa has been scanned: checks for an
/// exponent part or a stray character, splits the pieces, and builds the
/// value.
#[verifier::rlimit(100)]
fn finish_literal(
    v: &Vec<char>,
    n: usize,
    start: usize,
    neg: bool,
    ip_end: usize,
    int_acc: u128,
    int_over: bool,
    frac: Vec<char>,
    mant_end: usize,
    saw_dot: bool,
    Ghost(sv): Ghost<Seq<char>>,
) -> (r: Option<Rational>)
    requires
        v@ == sv,
        n == sv.len(),
        start as int == (if sv.len() > 0 && (sv[0] == '-' || sv[0] == '+') {
            1int
        } else {
            0int
        }),
        neg == (sv.len() > 0 && sv[0] == '-'),
        start <= ip_end <= mant_end <= n,
        all_digits(sv.subrange(start as int, ip_end as int)),
        !int_over ==> int_acc as int == digits_val(sv.subrange(start as int, ip_end as int))
            && int_acc <= i64::MAX as u128,
        int_over ==> digits_val(sv.subrange(start as int, ip_end as int)) > i64::MAX as int,
        ip_end < n ==> !spec_is_digit(sv[ip_end as int]),
        saw_dot ==> ip_end < n && sv[ip_end as int] == '.' && ip_end + 1 <= mant_end && frac@
            == sv.subrange(ip_end + 1, mant_end as int) && all_digits(frac@),
        !saw_dot ==> mant_end == ip_end && frac@.len() == 0,
        !saw_dot && ip_end < n ==> sv[ip_end as int] != '.',
        saw_dot && mant_end < n ==> !spec_is_digit(sv[mant_end as int]),
    ensures
        rat_result_matches(r, spec_parse_decimal(sv)),
{
    let has_e = mant_end < n && (v[mant_end] == 'e' || v[mant_end] == 'E');
    if mant_end < n && !has_e {
        // a stray character: neither digit, point nor exponent marker
        proof {
            lemma_stray_parse_none(sv, start as int, ip_end as int, mant_end as int, saw_dot);
        }
        return None;
    }
    finish_tail(v, n, start, neg, ip_end, int_acc, int_over, frac, mant_end, saw_dot, Ghost(sv))
}

/// Parses a numeric literal by the exact decimal grammar.
#[verifier::rlimit(100)]
pub fn parse_decimal(s: &str) -> (r: Option<Rational>)
    ensures
        rat_result_matches(r, spec_parse_decimal(s@)),
{
    let v = str_to_chars(s);
    let n = v.len();
    let mut start: usize = 0;
    let mut neg = false;
    if n > 0 && (v[0] == '-' || v[0] == '+') {
        neg = v[0] == '-';
        start = 1;
    }
    let (ip_end, int_acc, int_over) = scan_digits(&v, start);
    let mut frac: Vec<char> = Vec::new();
    let mut mant_end = ip_end;
    let mut saw_dot = false;
    if ip_end < n && v[ip_end] == '.' {
        saw_dot = true;
        let (f_end, _facc, _fover) = scan_digits(&v, ip_end + 1);
        let mut j = ip_end + 1;
        while j < f_end
            invariant
                ip_end + 1 <= j <= f_end,
                f_end <= n,
                n == v@.len(),
                frac@ == v@.subrange(ip_end + 1, j as int),
            decreases f_end - j,
        {
            let c = v[j];
            frac.push(c);
            proof {
                assert(frac@ =~= v@.subrange(ip_end + 1, j + 1));
            }
            j = j + 1;
        }
        mant_end = f_end;
    }
    finish_literal(
        &v,
        n,
        start,
        neg,
        ip_end,
        int_acc,
        int_over,
        frac,
        mant_end,
        saw_dot,
        Ghost(s@),
    )
}

proof fn lemma_all_digits_drop_last(s: Seq<char>)
    requires
        s.len() > 0,
        s.last() == '0',
    ensures
        all_digits(s.drop_last()) == all_digits(s),
{
    if all_digits(s.drop_last()) {
        assert forall|i: int| 0 <= i < s.len() implies spec_is_digit(#[trigger] s[i]) by {
            if i < s.len() - 1 {
                assert(s[i] == s.drop_last()[i]);
            }
        }
    } else {
        let i = choose|i: int| 0 <= i < s.drop_last().len() && !spec_is_digit(
            #[trigger] s.drop_last()[i],
        );
        assert(!spec_is_digit(s[i]));
    }
}

proof fn lemma_strip_keeps_digits(s: Seq<char>)
    ensures
        all_digits(strip_trailing_zeros(s)) == all_digits(s),
    decreases s.len(),
{
    if s.len() > 0 && s.last() == '0' {
        lemma_all_digits_drop_last(s);
        lemma_strip_keeps_digits(s.drop_last());
    }
}

/// The digit value of `k` digits stays under ten to the `k`.
proof fn lemma_digits_bound(s: Seq<char>)
    requires
        all_digits(s),
    ensures
        digits_val(s) < pow(10, s.len() as nat),
    decreases s.len(),
{
    vstd::arithmetic::power::lemma_pow_positive(10, s.len() as nat);
    if s.len() == 0 {
        lemma_pow10_consts();
    } else {
        assert(all_digits(s.drop_last())) by {
            assert(forall|i: int| 0 <= i < s.len() - 1 ==> spec_is_digit(#[trigger] s.drop_last()[i]));
        }
        lemma_digits_bound(s.drop_last());
        assert(pow(10, s.len() as nat) == pow(10, (s.len() - 1) as nat) * 10) by {
            reveal(pow);
        }
        assert(digits_val(s.drop_last()) * 10 + spec_digit_val(s.last()) < pow(
            10,
            (s.len() - 1) as nat,
        ) * 10) by (nonlinear_arith)
            requires
                digits_val(s.drop_last()) < pow(10, (s.len() - 1) as nat),
                spec_digit_val(s.last()) <= 9,
        ;
    }
}

proof fn lemma_pow10_bound(k: nat)
    requires
        k <= 18,
    ensures
        pow(10, k) <= pow(10, 18),
        pow(10, k) >= 1,
{
    vstd::arithmetic::power::lemma_pow_positive(10, k);
    if k < 18 {
        lemma_pow_strictly_increases(10, k, 18);
    }
}

/// If every character before `at` is a digit and `s[at] == '.'`, the first
/// dot of `s` is at `at`.
proof fn lemma_find_dot_at(s: Seq<char>, at: int)
    requires
        0 <= at < s.len(),
        s[at] == '.',
        all_digits(s.subrange(0, at)),
    ensures
        find_dot(s) == at,
    decreases at,
{
    if at == 0 {
    } else {
        assert(spec_is_digit(s.subrange(0, at)[0]));
        assert(s[0] != '.');
        assert(s.skip(1).subrange(0, at - 1) =~= s.subrange(0, at).skip(1));
        assert(all_digits(s.skip(1).subrange(0, at - 1))) by {
            assert(forall|i: int| 0 <= i < at - 1 ==> spec_is_digit(
                #[trigger] s.skip(1).subrange(0, at - 1)[i],
            ));
        }
        lemma_find_dot_at(s.skip(1), at - 1);
    }
}

/// If the first dot of `s` is somewhere, but the character at `at` is
/// neither a digit nor a dot while everything before it is a digit, the
/// digits before that dot include position `at`: a contradiction, so the
/// prefix up to the dot is not all digits.
proof fn lemma_find_dot_prefix_digits(s: Seq<char>, at: int)
    requires
        0 <= at < s.len(),
        s[at] != '.',
        !spec_is_digit(s[at]),
        all_digits(s.subrange(0, at)),
        find_dot(s) != -1,
    ensures
        !all_digits(s.subrange(0, find_dot(s))),
    decreases at,
{
    lemma_find_dot_range(s);
    let d = find_dot(s);
    if d < at {
        assert(spec_is_digit(s.subrange(0, at)[d]));
        assert(s[d] == '.') by {
            lemma_find_dot_is_dot(s);
        }
        assert(false);
    } else {
        // at < d since s[at] is not the dot
        assert(s[at] != '.');
        assert(d != at) by {
            lemma_find_dot_is_dot(s);
        }
        assert(at < d);
        assert(!spec_is_digit(s.subrange(0, d)[at]));
    }
}

proof fn lemma_find_dot_range(s: Seq<char>)
    ensures
        find_dot(s) == -1 || (0 <= find_dot(s) < s.len()),
    decreases s.len(),
{
    if s.len() > 0 && s[0] != '.' {
        lemma_find_dot_range(s.skip(1));
    }
}

proof fn lemma_find_dot_is_dot(s: Seq<char>)
    requires
        find_dot(s) != -1,
    ensures
        0 <= find_dot(s) < s.len(),
        s[find_dot(s)] == '.',
    decreases s.len(),
{
    if s.len() > 0 && s[0] != '.' {
        lemma_find_dot_is_dot(s.skip(1));
    }
}

/// If `s` holds no dot and position `at` is not a digit, `s` is not all
/// digits; used when rejecting stray characters.
proof fn lemma_find_dot_none(s: Seq<char>)
    requires
        all_digits(s),
    ensures
        find_dot(s) == -1,
    decreases s.len(),
{
    if s.len() > 0 {
        assert(spec_is_digit(s[0]));
        assert(s[0] != '.');
        assert(all_digits(s.skip(1))) by {
            assert(forall|i: int| 0 <= i < s.len() - 1 ==> spec_is_digit(#[trigger] s.skip(1)[i]));
        }
        lemma_find_dot_none(s.skip(1));
    }
}

/// Scans a vector that is known to be all digits.
fn scan_digits_all(s: &Vec<char>) -> (r: (usize, u128, bool))
    requires
        all_digits(s@),
    ensures
        r.0 == s@.len(),
        !r.2 ==> r.1 as int == digits_val(s@),
        r.2 ==> digits_val(s@) > i64::MAX as int,
{
    let (e, acc, over) = scan_digits(s, 0);
    proof {
        if e < s@.len() {
            assert(spec_is_digit(s@[e as int]));
        }
        assert(s@.subrange(0, s@.len() as int) =~= s@);
    }
    (e, acc, over)
}

} // verus!
