//! Decimal rendering of integers, used when payloads and endpoint URLs are
//! written out as text.

use vstd::prelude::*;
use vstd::string::StringExecFns;

verus! {

/// The decimal digit character for a value between 0 and 9.
pub open spec fn digit_char(d: int) -> char {
    if d == 0 {
        '0'
    } else if d == 1 {
        '1'
    } else if d == 2 {
        '2'
    } else if d == 3 {
        '3'
    } else if d == 4 {
        '4'
    } else if d == 5 {
        '5'
    } else if d == 6 {
        '6'
    } else if d == 7 {
        '7'
    } else if d == 8 {
        '8'
    } else {
        '9'
    }
}

/// Decimal representation of a nonnegative integer, most significant digit
/// first, without a sign and without leading zeros (except for 0 itself).
pub open spec fn dec_rep(n: int) -> Seq<char>
    recommends
        n >= 0,
    decreases n,
{
    if n < 10 {
        seq![digit_char(n)]
    } else {
        dec_rep(n / 10).push(digit_char(n % 10))
    }
}

/// Decimal representation of an integer, with a leading minus sign when
/// negative.
pub open spec fn int_rep(n: int) -> Seq<char> {
    if n < 0 {
        "-"@ + dec_rep(-n)
    } else {
        dec_rep(n)
    }
}

/// The numeric value a decimal digit character denotes, 10 for any other
/// character.
pub open spec fn digit_val(c: char) -> int {
    if c == '0' {
        0
    } else if c == '1' {
        1
    } else if c == '2' {
        2
    } else if c == '3' {
        3
    } else if c == '4' {
        4
    } else if c == '5' {
        5
    } else if c == '6' {
        6
    } else if c == '7' {
        7
    } else if c == '8' {
        8
    } else if c == '9' {
        9
    } else {
        10
    }
}

/// The nonnegative integer a string of decimal digits denotes.
pub open spec fn dec_val(s: Seq<char>) -> int
    decreases s.len(),
{
    if s.len() == 0 {
        0
    } else {
        dec_val(s.drop_last()) * 10 + digit_val(s.last())
    }
}

/// The integer a decimal string denotes, honoring a leading minus sign.
pub open spec fn int_val(s: Seq<char>) -> int {
    if s.len() > 0 && s[0] == '-' {
        -dec_val(s.drop_first())
    } else {
        dec_val(s)
    }
}

/// Reading a rendered nonnegative decimal back yields the value rendered:
/// the rendering loses nothing. The rendered text is never empty and never
/// starts with a minus sign.
pub proof fn lemma_dec_rep_round_trip(n: int)
    requires
        n >= 0,
    ensures
        dec_val(dec_rep(n)) == n,
        dec_rep(n).len() >= 1,
        dec_rep(n)[0] != '-',
    decreases n,
{
    if n < 10 {
        assert(dec_rep(n) == seq![digit_char(n)]);
        assert(dec_rep(n).drop_last() =~= Seq::<char>::empty());
        assert(dec_val(Seq::<char>::empty()) == 0);
        assert(dec_val(dec_rep(n)) == dec_val(dec_rep(n).drop_last()) * 10 + digit_val(
            dec_rep(n).last(),
        ));
        assert(digit_val(digit_char(n)) == n);
    } else {
        lemma_dec_rep_round_trip(n / 10);
        assert(dec_rep(n).drop_last() =~= dec_rep(n / 10));
        assert(dec_rep(n).last() == digit_char(n % 10));
        assert(digit_val(digit_char(n % 10)) == n % 10);
        assert(n / 10 * 10 + n % 10 == n);
        assert(dec_rep(n)[0] == dec_rep(n / 10)[0]);
    }
}

/// Reading a rendered integer back yields the value rendered: decimal
/// rendering loses nothing.
pub proof fn lemma_int_rep_round_trip(n: int)
    ensures
        int_val(int_rep(n)) == n,
{
    if n >= 0 {
        lemma_dec_rep_round_trip(n);
    } else {
        reveal_strlit("-");
        lemma_dec_rep_round_trip(-n);
        assert(int_rep(n)[0] == '-');
        assert(int_rep(n).drop_first() =~= dec_rep(-n));
    }
}

fn digit_to_char(d: u64) -> (c: char)
    requires
        d < 10,
    ensures
        c == digit_char(d as int),
{
    if d == 0 {
        '0'
    } else if d == 1 {
        '1'
    } else if d == 2 {
        '2'
    } else if d == 3 {
        '3'
    } else if d == 4 {
        '4'
    } else if d == 5 {
        '5'
    } else if d == 6 {
        '6'
    } else if d == 7 {
        '7'
    } else if d == 8 {
        '8'
    } else {
        '9'
    }
}

/// Relies on std's String::push: appends exactly one character.
#[verifier::external_body]
pub(crate) fn push_char(s: &mut String, c: char)
    ensures
        final(s)@ == old(s)@.push(c),
{
    s.push(c)
}

/// Renders a nonnegative integer in decimal.
pub fn u64_to_string(n: u64) -> (r: String)
    ensures
        r@ == dec_rep(n as int),
{
    let mut rev: Vec<char> = Vec::new();
    let mut m: u64 = n;
    loop
        invariant_except_break
            dec_rep(n as int) =~= dec_rep(m as int) + rev@.reverse(),
        ensures
            dec_rep(n as int) =~= rev@.reverse(),
        decreases m,
    {
        let ghost m0 = m as int;
        let ghost rev0 = rev@;
        let d: u64 = m % 10;
        let c = digit_to_char(d);
        rev.push(c);
        proof {
            assert(rev@.reverse() =~= seq![c] + rev0.reverse());
        }
        m = m / 10;
        if m == 0 {
            proof {
                assert(dec_rep(m0) =~= seq![digit_char(m0)]);
                assert(dec_rep(n as int) =~= rev@.reverse());
            }
            break;
        }
        proof {
            assert(dec_rep(m0) == dec_rep(m0 / 10).push(digit_char(m0 % 10)));
            assert(dec_rep(m as int) + seq![c] =~= dec_rep(m0 / 10).push(c));
            assert(dec_rep(m as int) + rev@.reverse() =~= dec_rep(m0) + rev0.reverse());
        }
    }
    let mut out = String::new();
    let mut j: usize = rev.len();
    while j > 0
        invariant
            j <= rev@.len(),
            out@ =~= rev@.subrange(j as int, rev@.len() as int).reverse(),
        decreases j,
    {
        let ghost outpre = out@;
        j = j - 1;
        push_char(&mut out, rev[j]);
        proof {
            assert(out@ =~= rev@.subrange(j as int, rev@.len() as int).reverse());
        }
    }
    proof {
        assert(rev@.subrange(0, rev@.len() as int) =~= rev@);
        assert(out@ =~= dec_rep(n as int));
    }
    out
}

/// Renders a signed 32-bit integer in decimal, with a minus sign when
/// negative.
pub fn i32_to_string(n: i32) -> (r: String)
    ensures
        r@ == int_rep(n as int),
{
    if n >= 0 {
        u64_to_string(n as u64)
    } else {
        let magnitude: u64 = (-(n as i64)) as u64;
        let digits = u64_to_string(magnitude);
        let mut out = String::new();
        out.append("-");
        out.append(digits.as_str());
        proof {
            assert(out@ =~= int_rep(n as int));
        }
        out
    }
}

} // verus!
