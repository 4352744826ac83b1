//! Rendering of JSON string literals and comma-joined lists, the textual
//! building blocks of the wire format.

use vstd::prelude::*;
use vstd::string::{StrSliceExecFns, StringExecFns};

use crate::decimal::{digit_char, push_char};

verus! {

/// The lowercase hexadecimal digit character for a value between 0 and 15.
pub open spec fn hex_char(d: int) -> char {
    if d < 10 {
        digit_char(d)
    } else if d == 10 {
        'a'
    } else if d == 11 {
        'b'
    } else if d == 12 {
        'c'
    } else if d == 13 {
        'd'
    } else if d == 14 {
        'e'
    } else {
        'f'
    }
}

/// How one character is written inside a JSON string literal: quote and
/// backslash get a backslash escape, other control characters a `\u00XX`
/// escape, everything else stands for itself.
pub open spec fn esc_char(c: char) -> Seq<char> {
    if c == '"' {
        "\\\""@
    } else if c == '\\' {
        "\\\\"@
    } else if (c as u32) < 32 {
        "\\u00"@ + seq![hex_char((c as u32 / 16) as int), hex_char((c as u32 % 16) as int)]
    } else {
        seq![c]
    }
}

/// The body of a JSON string literal holding `s`: each character escaped.
pub open spec fn esc_str(s: Seq<char>) -> Seq<char>
    decreases s.len(),
{
    if s.len() == 0 {
        Seq::empty()
    } else {
        esc_str(s.drop_last()) + esc_char(s.last())
    }
}

/// A JSON string literal holding `s`.
pub open spec fn json_string(s: Seq<char>) -> Seq<char> {
    "\""@ + esc_str(s) + "\""@
}

/// The elements of `elems`, joined with commas, in order.
pub open spec fn join_comma(elems: Seq<Seq<char>>) -> Seq<char>
    decreases elems.len(),
{
    if elems.len() == 0 {
        Seq::empty()
    } else if elems.len() == 1 {
        elems[0]
    } else {
        join_comma(elems.drop_last()) + ","@ + elems.last()
    }
}

/// Escaping a string one character longer appends that character's escape:
/// escaped text keeps its characters in their original order.
pub proof fn lemma_esc_str_push(s: Seq<char>, c: char)
    ensures
        esc_str(s.push(c)) == esc_str(s) + esc_char(c),
{
    assert(s.push(c).drop_last() =~= s);
    assert(s.push(c).last() == c);
}

/// Joining a list with one more element appends that element's text at the
/// end: a rendered list keeps its elements in the order they were appended.
pub proof fn lemma_join_comma_push(elems: Seq<Seq<char>>, e: Seq<char>)
    ensures
        join_comma(elems.push(e)) == if elems.len() == 0 {
            e
        } else {
            (join_comma(elems) + ","@ + e)
        },
{
    assert(elems.push(e).drop_last() =~= elems);
    assert(elems.push(e).last() == e);
    if elems.len() == 0 {
        assert(join_comma(elems.push(e)) == elems.push(e)[0]);
    }
}

/// The value of a lowercase hexadecimal digit character, 16 for any other
/// character.
pub open spec fn hex_val(c: char) -> int {
    if c == '0' {
        0
    } else if c == '1' {
        1
    } else if c == '2' {
        2
    } else if c == '3' {
        3
    } else if c == '4' {
        4
    } else if c == '5' {
        5
    } else if c == '6' {
        6
    } else if c == '7' {
        7
    } else if c == '8' {
        8
    } else if c == '9' {
        9
    } else if c == 'a' {
        10
    } else if c == 'b' {
        11
    } else if c == 'c' {
        12
    } else if c == 'd' {
        13
    } else if c == 'e' {
        14
    } else if c == 'f' {
        15
    } else {
        16
    }
}

/// Reads one escape unit from the front of an escaped string body: the
/// character it stands for, and how many characters the unit occupies.
pub open spec fn unesc_first(s: Seq<char>) -> Option<(char, int)> {
    if s.len() == 0 {
        Option::None
    } else if s[0] == '\\' {
        if s.len() >= 2 && s[1] == '"' {
            Option::Some(('"', 2))
        } else if s.len() >= 2 && s[1] == '\\' {
            Option::Some(('\\', 2))
        } else if s.len() >= 6 && s[1] == 'u' && s[2] == '0' && s[3] == '0' && hex_val(s[4]) < 16
            && hex_val(s[5]) < 16 {
            Option::Some((((16 * hex_val(s[4]) + hex_val(s[5])) as u32) as char, 6))
        } else {
            Option::None
        }
    } else {
        Option::Some((s[0], 1))
    }
}

/// Escaped text can also be taken apart at the front: the first character's
/// escape comes first, then the escaped rest.
pub proof fn lemma_esc_str_front(s: Seq<char>)
    requires
        s.len() > 0,
    ensures
        esc_str(s) == esc_char(s[0]) + esc_str(s.drop_first()),
    decreases s.len(),
{
    if s.len() == 1 {
        assert(s.drop_last() =~= Seq::<char>::empty());
        assert(s.drop_first() =~= Seq::<char>::empty());
        assert(esc_str(s) =~= esc_char(s[0]) + esc_str(s.drop_first()));
    } else {
        let t = s.drop_last();
        lemma_esc_str_front(t);
        assert(t[0] == s[0]);
        assert(s.drop_first().len() > 0);
        assert(s.drop_first().last() == s.last());
        assert(s.drop_first().drop_last() =~= t.drop_first());
        assert(esc_str(s.drop_first()) == esc_str(t.drop_first()) + esc_char(s.last()));
        assert((esc_char(s[0]) + esc_str(t.drop_first())) + esc_char(s.last()) =~= esc_char(s[0])
            + (esc_str(t.drop_first()) + esc_char(s.last())));
        assert(esc_str(s) =~= esc_char(s[0]) + esc_str(s.drop_first()));
    }
}

fn hex_to_char(d: u32) -> (c: char)
    requires
        d < 16,
    ensures
        c == hex_char(d as int),
{
    if d == 0 {
        '0'
    } else if d == 1 {
        '1'
    } else if d == 2 {
        '2'
    } else if d == 3 {
        '3'
    } else if d == 4 {
        '4'
    } else if d == 5 {
        '5'
    } else if d == 6 {
        '6'
    } else if d == 7 {
        '7'
    } else if d == 8 {
        '8'
    } else if d == 9 {
        '9'
    } else if d == 10 {
        'a'
    } else if d == 11 {
        'b'
    } else if d == 12 {
        'c'
    } else if d == 13 {
        'd'
    } else if d == 14 {
        'e'
    } else {
        'f'
    }
}

/// Renders `s` as a JSON string literal, escaping as `esc_char` describes.
pub fn json_string_text(s: &str) -> (r: String)
    ensures
        r@ == json_string(s@),
{
    let mut out = String::new();
    out.append("\"");
    let n = s.unicode_len();
    let mut i: usize = 0;
    while i < n
        invariant
            n == s@.len(),
            i <= n,
            out@ =~= "\""@ + esc_str(s@.subrange(0, i as int)),
        decreases n - i,
    {
        let c = s.get_char(i);
        if c == '"' {
            out.append("\\\"");
        } else if c == '\\' {
            out.append("\\\\");
        } else {
            let code = c as u32;
            if code < 32 {
                out.append("\\u00");
                let hi = hex_to_char(code / 16);
                let lo = hex_to_char(code % 16);
                push_char(&mut out, hi);
                push_char(&mut out, lo);
                proof {
                    assert("\\u00"@.push(hi).push(lo) =~= "\\u00"@ + seq![hi, lo]);
                }
            } else {
                push_char(&mut out, c);
            }
        }
        proof {
            let pre = s@.subrange(0, i as int);
            assert(s@.subrange(0, i + 1) =~= pre.push(s@[i as int]));
            lemma_esc_str_push(pre, s@[i as int]);
            assert(out@ =~= "\""@ + esc_str(s@.subrange(0, i + 1)));
        }
        i += 1;
    }
    out.append("\"");
    proof {
        assert(s@.subrange(0, n as int) =~= s@);
        assert(out@ =~= json_string(s@));
    }
    out
}

} // verus!
