//! Reading the wire text back: a parser for exactly the JSON the library
//! emits, and the proof that parsing inverts rendering. Nothing executes
//! here; the parser is the specification against which the wire format is
//! shown to be lossless.

use vstd::prelude::*;

use crate::decimal::{
    dec_rep, dec_val, digit_val, int_rep, lemma_dec_rep_round_trip,
};
use crate::i5_request::{
    json_document, json_field, json_file, json_opt_string, json_request, DocumentView, FieldView,
    FileView, I5ReqeustView,
};
use crate::json_text::{
    esc_char, esc_str, join_comma, json_string, lemma_esc_str_front, unesc_first,
};

verus! {

/// One escape unit of `esc_char` reads back as the character it encodes,
/// whatever follows it; an escape unit never begins with a quote.
pub proof fn lemma_unesc_first_esc_char(c: char, suffix: Seq<char>)
    ensures
        unesc_first(esc_char(c) + suffix) == Some((c, esc_char(c).len() as int)),
        1 <= esc_char(c).len(),
        (esc_char(c) + suffix)[0] != '"',
{
    let e = esc_char(c);
    let full = e + suffix;
    if c == '"' {
        reveal_strlit("\\\"");
        assert(e.len() == 2 && e[0] == '\\' && e[1] == '"');
        assert(unesc_first(full) == Option::Some(('"', 2int)));
    } else if c == '\\' {
        reveal_strlit("\\\\");
        assert(e.len() == 2 && e[0] == '\\' && e[1] == '\\');
        assert(e[1] != '"');
        assert(unesc_first(full) == Option::Some(('\\', 2int)));
    } else if (c as u32) < 32 {
        reveal_strlit("\\u00");
        let code = c as u32;
        let hi = (code / 16) as int;
        let lo = (code % 16) as int;
        assert(e.len() == 6);
        assert(e[0] == '\\' && e[1] == 'u' && e[2] == '0' && e[3] == '0');
        assert(e[4] == crate::json_text::hex_char(hi) && e[5] == crate::json_text::hex_char(lo));
        assert(0 <= hi < 16 && 0 <= lo < 16);
        assert(crate::json_text::hex_val(crate::json_text::hex_char(hi)) == hi
            && crate::json_text::hex_val(crate::json_text::hex_char(lo)) == lo);
        assert(e[1] != '"' && e[1] != '\\');
        assert(16 * crate::json_text::hex_val(full[4]) + crate::json_text::hex_val(full[5])
            == code);
        vstd::utf8::char_u32_cast(c, code);
        assert(((16 * crate::json_text::hex_val(full[4]) + crate::json_text::hex_val(
            full[5],
        )) as u32) as char == c);
        assert(unesc_first(full) == Option::Some((c, 6int)));
    } else {
        assert(e =~= seq![c]);
        assert(full[0] == c && c != '\\');
        assert(unesc_first(full) == Option::Some((c, 1int)));
    }
}

/// Scans the body of a JSON string literal up to its closing quote, reading
/// one escape unit at a time; yields the decoded text and how many
/// characters were consumed, closing quote included.
pub open spec fn parse_string_body(s: Seq<char>) -> Option<(Seq<char>, int)>
    decreases s.len(),
{
    if s.len() == 0 {
        Option::None
    } else if s[0] == '"' {
        Option::Some((Seq::empty(), 1))
    } else {
        match unesc_first(s) {
            Option::None => Option::None,
            Option::Some((c, k)) => if 1 <= k <= s.len() {
                match parse_string_body(s.subrange(k, s.len() as int)) {
                    Option::None => Option::None,
                    Option::Some((rest, k2)) => Option::Some((seq![c] + rest, k + k2)),
                }
            } else {
                Option::None
            },
        }
    }
}

/// Parses a JSON string literal at the front of `s`: the decoded string and
/// how many characters it occupied, quotes included.
pub open spec fn parse_string(s: Seq<char>) -> Option<(Seq<char>, int)> {
    if s.len() >= 1 && s[0] == '"' {
        match parse_string_body(s.subrange(1, s.len() as int)) {
            Option::None => Option::None,
            Option::Some((body, k)) => Option::Some((body, 1 + k)),
        }
    } else {
        Option::None
    }
}

proof fn lemma_parse_string_body(x: Seq<char>, rest: Seq<char>)
    ensures
        parse_string_body(esc_str(x) + seq!['"'] + rest) == Some((
            x,
            esc_str(x).len() as int + 1,
        )),
    decreases x.len(),
{
    let s = esc_str(x) + seq!['"'] + rest;
    if x.len() == 0 {
        assert(esc_str(x) == Seq::<char>::empty());
        assert(s =~= seq!['"'] + rest);
        assert(s[0] == '"');
        assert(x =~= Seq::<char>::empty());
    } else {
        let c = x[0];
        let tail = x.drop_first();
        lemma_esc_str_front(x);
        let e = esc_char(c);
        let suffix = esc_str(tail) + seq!['"'] + rest;
        assert(s =~= e + suffix);
        lemma_unesc_first_esc_char(c, suffix);
        assert(s[0] != '"');
        assert(unesc_first(s) == Some((c, e.len() as int)));
        assert(s.subrange(e.len() as int, s.len() as int) =~= suffix);
        lemma_parse_string_body(tail, rest);
        assert(seq![c] + tail =~= x);
    }
}

/// A rendered JSON string literal parses back to the string it rendered,
/// whatever follows it, consuming exactly its own text.
pub proof fn lemma_parse_json_string(x: Seq<char>, rest: Seq<char>)
    ensures
        parse_string(json_string(x) + rest) == Some((x, json_string(x).len() as int)),
{
    reveal_strlit("\"");
    let s = json_string(x) + rest;
    assert(s[0] == '"');
    assert(s.subrange(1, s.len() as int) =~= esc_str(x) + seq!['"'] + rest);
    lemma_parse_string_body(x, rest);
    assert(json_string(x).len() == esc_str(x).len() + 2);
}

/// `c` is a decimal digit character.
pub open spec fn is_digit(c: char) -> bool {
    digit_val(c) < 10
}

/// The length of the run of decimal digit characters at the front of `s`.
pub open spec fn digit_run_len(s: Seq<char>) -> int
    decreases s.len(),
{
    if s.len() == 0 || !is_digit(s[0]) {
        0
    } else {
        1 + digit_run_len(s.drop_first())
    }
}

/// Parses a JSON integer (an optional minus sign, then decimal digits) at
/// the front of `s`.
pub open spec fn parse_int(s: Seq<char>) -> Option<(int, int)> {
    if s.len() >= 1 && s[0] == '-' {
        let t = s.drop_first();
        let n = digit_run_len(t);
        if n > 0 {
            Option::Some((-dec_val(t.subrange(0, n)), 1 + n))
        } else {
            Option::None
        }
    } else {
        let n = digit_run_len(s);
        if n > 0 {
            Option::Some((dec_val(s.subrange(0, n)), n))
        } else {
            Option::None
        }
    }
}

proof fn lemma_dec_rep_digits(n: int)
    requires
        n >= 0,
    ensures
        forall|i: int| 0 <= i < dec_rep(n).len() ==> is_digit(#[trigger] dec_rep(n)[i]),
    decreases n,
{
    if n < 10 {
        assert(dec_rep(n) == seq![crate::decimal::digit_char(n)]);
        assert(is_digit(crate::decimal::digit_char(n)));
    } else {
        lemma_dec_rep_digits(n / 10);
        assert(dec_rep(n) == dec_rep(n / 10).push(crate::decimal::digit_char(n % 10)));
        assert(is_digit(crate::decimal::digit_char(n % 10)));
        assert forall|i: int| 0 <= i < dec_rep(n).len() implies is_digit(
            #[trigger] dec_rep(n)[i],
        ) by {
            if i < dec_rep(n / 10).len() {
                assert(dec_rep(n)[i] == dec_rep(n / 10)[i]);
            } else {
                assert(dec_rep(n)[i] == crate::decimal::digit_char(n % 10));
            }
        }
    }
}

proof fn lemma_digit_run(t: Seq<char>, u: Seq<char>)
    requires
        forall|i: int| 0 <= i < t.len() ==> is_digit(#[trigger] t[i]),
        u.len() == 0 || !is_digit(u[0]),
    ensures
        digit_run_len(t + u) == t.len(),
    decreases t.len(),
{
    if t.len() == 0 {
        assert(t + u =~= u);
    } else {
        assert((t + u)[0] == t[0]);
        assert((t + u).drop_first() =~= t.drop_first() + u);
        lemma_digit_run(t.drop_first(), u);
    }
}

/// A rendered integer parses back to the value rendered, whatever follows it
/// so long as that does not begin with another digit, consuming exactly its
/// own text.
pub proof fn lemma_parse_int_rep(v: int, rest: Seq<char>)
    requires
        rest.len() == 0 || !is_digit(rest[0]),
    ensures
        parse_int(int_rep(v) + rest) == Some((v, int_rep(v).len() as int)),
{
    let s = int_rep(v) + rest;
    if v >= 0 {
        lemma_dec_rep_round_trip(v);
        lemma_dec_rep_digits(v);
        lemma_digit_run(dec_rep(v), rest);
        assert(s =~= dec_rep(v) + rest);
        assert(s[0] == dec_rep(v)[0]);
        assert(s[0] != '-');
        assert(digit_run_len(s) == dec_rep(v).len());
        assert(s.subrange(0, dec_rep(v).len() as int) =~= dec_rep(v));
    } else {
        reveal_strlit("-");
        assert(int_rep(v) == "-"@ + dec_rep(-v));
        assert(s[0] == '-');
        let t = s.drop_first();
        assert(t =~= dec_rep(-v) + rest);
        lemma_dec_rep_round_trip(-v);
        lemma_dec_rep_digits(-v);
        lemma_digit_run(dec_rep(-v), rest);
        assert(t.subrange(0, dec_rep(-v).len() as int) =~= dec_rep(-v));
        assert(int_rep(v).len() == 1 + dec_rep(-v).len());
    }
}

/// Parses `(',' element)* ']'`: the tail of a JSON array whose first element
/// has already been read. Yields the remaining elements and how many
/// characters were consumed, closing bracket included.
pub open spec fn parse_list_tail<T>(
    s: Seq<char>,
    elem: spec_fn(Seq<char>) -> Option<(T, int)>,
) -> Option<(Seq<T>, int)>
    decreases s.len(),
{
    if s.len() >= 1 && s[0] == ']' {
        Option::Some((Seq::empty(), 1))
    } else if s.len() >= 1 && s[0] == ',' {
        match elem(s.drop_first()) {
            Option::None => Option::None,
            Option::Some((x, k)) => if 1 <= k <= s.len() - 1 {
                match parse_list_tail(s.subrange(1 + k, s.len() as int), elem) {
                    Option::None => Option::None,
                    Option::Some((xs, k2)) => Option::Some((seq![x] + xs, 1 + k + k2)),
                }
            } else {
                Option::None
            },
        }
    } else {
        Option::None
    }
}

/// Parses a JSON array body `elements ']'` (the opening bracket already
/// consumed), elements separated by commas.
pub open spec fn parse_list<T>(
    s: Seq<char>,
    elem: spec_fn(Seq<char>) -> Option<(T, int)>,
) -> Option<(Seq<T>, int)> {
    if s.len() >= 1 && s[0] == ']' {
        Option::Some((Seq::empty(), 1))
    } else {
        match elem(s) {
            Option::None => Option::None,
            Option::Some((x, k)) => if 1 <= k <= s.len() {
                match parse_list_tail(s.subrange(k, s.len() as int), elem) {
                    Option::None => Option::None,
                    Option::Some((xs, k2)) => Option::Some((seq![x] + xs, k + k2)),
                }
            } else {
                Option::None
            },
        }
    }
}

/// The text an array renders after its first element: a comma before each
/// further element.
pub open spec fn joined_tail(ts: Seq<Seq<char>>) -> Seq<char>
    decreases ts.len(),
{
    if ts.len() == 0 {
        Seq::empty()
    } else {
        ","@ + ts[0] + joined_tail(ts.drop_first())
    }
}

proof fn lemma_joined_tail_push(ts: Seq<Seq<char>>, y: Seq<char>)
    ensures
        joined_tail(ts.push(y)) == joined_tail(ts) + ","@ + y,
    decreases ts.len(),
{
    if ts.len() == 0 {
        assert(ts.push(y)[0] == y);
        assert(ts.push(y).drop_first() =~= Seq::<Seq<char>>::empty());
        assert(joined_tail(Seq::<Seq<char>>::empty()) == Seq::<char>::empty());
        assert(ts =~= Seq::<Seq<char>>::empty());
        assert(joined_tail(ts.push(y)) == ","@ + y + joined_tail(ts.push(y).drop_first()));
        assert(joined_tail(ts.push(y)) =~= joined_tail(ts) + ","@ + y);
    } else {
        assert(ts.push(y)[0] == ts[0]);
        assert(ts.push(y).drop_first() =~= ts.drop_first().push(y));
        lemma_joined_tail_push(ts.drop_first(), y);
        assert(joined_tail(ts.push(y)) == ","@ + ts[0] + joined_tail(ts.push(y).drop_first()));
        assert(joined_tail(ts.push(y).drop_first()) == joined_tail(ts.drop_first().push(y)));
        assert(joined_tail(ts.push(y)) =~= joined_tail(ts) + ","@ + y);
    }
}

/// A comma-joined list can also be taken apart at the front: the first
/// element's text, then a comma before each further element's text.
pub proof fn lemma_join_comma_front(ts: Seq<Seq<char>>)
    requires
        ts.len() >= 1,
    ensures
        join_comma(ts) == ts[0] + joined_tail(ts.drop_first()),
    decreases ts.len(),
{
    if ts.len() == 1 {
        assert(ts.drop_first() =~= Seq::<Seq<char>>::empty());
        assert(join_comma(ts) == ts[0]);
        assert(ts[0] + joined_tail(ts.drop_first()) =~= ts[0]);
    } else {
        let a = ts.drop_last();
        lemma_join_comma_front(a);
        assert(a[0] == ts[0]);
        assert(ts.drop_first() =~= a.drop_first().push(ts.last()));
        lemma_joined_tail_push(a.drop_first(), ts.last());
        assert(join_comma(ts) == join_comma(a) + ","@ + ts.last());
        assert(join_comma(ts) =~= ts[0] + joined_tail(ts.drop_first()));
    }
}

proof fn lemma_parse_list_tail<T>(
    items: Seq<T>,
    render: spec_fn(T) -> Seq<char>,
    elem: spec_fn(Seq<char>) -> Option<(T, int)>,
    rest: Seq<char>,
)
    requires
        forall|x: T, suffix: Seq<char>|
            items.contains(x) ==> #[trigger] elem(render(x) + suffix) == Some((
                x,
                render(x).len() as int,
            )),
        forall|x: T| items.contains(x) ==> (#[trigger] render(x)).len() >= 1 && render(x)[0]
            == '{',
    ensures
        parse_list_tail(joined_tail(items.map_values(render)) + seq![']'] + rest, elem) == Some(
            (items, joined_tail(items.map_values(render)).len() as int + 1),
        ),
    decreases items.len(),
{
    reveal_strlit(",");
    let texts = items.map_values(render);
    let s = joined_tail(texts) + seq![']'] + rest;
    if items.len() == 0 {
        assert(texts.len() == 0);
        assert(s =~= seq![']'] + rest);
        assert(s[0] == ']');
        assert(items =~= Seq::<T>::empty());
    } else {
        let x = items[0];
        assert(items.contains(x));
        assert(texts[0] == render(x));
        assert(s[0] == ',');
        assert(s[0] != ']');
        let suffix = joined_tail(texts.drop_first()) + seq![']'] + rest;
        assert(s.drop_first() =~= render(x) + suffix);
        assert(elem(render(x) + suffix) == Some((x, render(x).len() as int)));
        let k = render(x).len() as int;
        assert(k >= 1);
        assert(s.subrange(1 + k, s.len() as int) =~= suffix);
        assert(texts.drop_first() =~= items.drop_first().map_values(render));
        assert forall|y: T| items.drop_first().contains(y) implies items.contains(y) by {
            let j = choose|j: int|
                0 <= j < items.drop_first().len() && items.drop_first()[j] == y;
            assert(items[j + 1] == y);
        }
        assert forall|y: T, suf: Seq<char>| items.drop_first().contains(y) implies #[trigger]
        elem(render(y) + suf) == Some((y, render(y).len() as int)) by {
            assert(items.contains(y));
        }
        assert forall|y: T| items.drop_first().contains(y) implies (
        #[trigger] render(y)).len() >= 1 && render(y)[0] == '{' by {
            assert(items.contains(y));
        }
        lemma_parse_list_tail(items.drop_first(), render, elem, rest);
        assert(seq![x] + items.drop_first() =~= items);
    }
}

/// A rendered array body (the elements' texts joined with commas, then the
/// closing bracket) parses back to exactly those elements, in order,
/// whatever follows it, provided every element's text parses back to it and
/// begins with an opening brace.
pub proof fn lemma_parse_list<T>(
    items: Seq<T>,
    render: spec_fn(T) -> Seq<char>,
    elem: spec_fn(Seq<char>) -> Option<(T, int)>,
    rest: Seq<char>,
)
    requires
        forall|x: T, suffix: Seq<char>|
            items.contains(x) ==> #[trigger] elem(render(x) + suffix) == Some((
                x,
                render(x).len() as int,
            )),
        forall|x: T| items.contains(x) ==> (#[trigger] render(x)).len() >= 1 && render(x)[0]
            == '{',
    ensures
        parse_list(join_comma(items.map_values(render)) + seq![']'] + rest, elem) == Some((
            items,
            join_comma(items.map_values(render)).len() as int + 1,
        )),
{
    let texts = items.map_values(render);
    let s = join_comma(texts) + seq![']'] + rest;
    if items.len() == 0 {
        assert(texts.len() == 0);
        assert(s =~= seq![']'] + rest);
        assert(s[0] == ']');
        assert(items =~= Seq::<T>::empty());
    } else {
        let x = items[0];
        assert(items.contains(x));
        assert(texts[0] == render(x));
        lemma_join_comma_front(texts);
        let suffix = joined_tail(texts.drop_first()) + seq![']'] + rest;
        assert(s =~= render(x) + suffix);
        assert(s[0] == '{');
        assert(s[0] != ']');
        assert(elem(render(x) + suffix) == Some((x, render(x).len() as int)));
        let k = render(x).len() as int;
        assert(s.subrange(k, s.len() as int) =~= suffix);
        assert(texts.drop_first() =~= items.drop_first().map_values(render));
        assert forall|y: T| items.drop_first().contains(y) implies items.contains(y) by {
            let j = choose|j: int|
                0 <= j < items.drop_first().len() && items.drop_first()[j] == y;
            assert(items[j + 1] == y);
        }
        assert forall|y: T, suf: Seq<char>| items.drop_first().contains(y) implies #[trigger]
        elem(render(y) + suf) == Some((y, render(y).len() as int)) by {
            assert(items.contains(y));
        }
        assert forall|y: T| items.drop_first().contains(y) implies (
        #[trigger] render(y)).len() >= 1 && render(y)[0] == '{' by {
            assert(items.contains(y));
        }
        lemma_parse_list_tail(items.drop_first(), render, elem, rest);
        assert(seq![x] + items.drop_first() =~= items);
    }
}

/// Parses a fixed literal followed by a JSON string literal; yields the
/// decoded string and the total count of characters consumed.
pub open spec fn parse_lit_string(s: Seq<char>, lit: Seq<char>) -> Option<(Seq<char>, int)> {
    if lit.is_prefix_of(s) {
        match parse_string(s.subrange(lit.len() as int, s.len() as int)) {
            Option::None => Option::None,
            Option::Some((x, k)) => Option::Some((x, lit.len() as int + k)),
        }
    } else {
        Option::None
    }
}

/// Parses a fixed literal followed by a JSON integer.
pub open spec fn parse_lit_int(s: Seq<char>, lit: Seq<char>) -> Option<(int, int)> {
    if lit.is_prefix_of(s) {
        match parse_int(s.subrange(lit.len() as int, s.len() as int)) {
            Option::None => Option::None,
            Option::Some((v, k)) => Option::Some((v, lit.len() as int + k)),
        }
    } else {
        Option::None
    }
}

proof fn lemma_parse_lit_string(lit: Seq<char>, x: Seq<char>, rest: Seq<char>)
    ensures
        parse_lit_string(lit + json_string(x) + rest, lit) == Some((
            x,
            lit.len() as int + json_string(x).len() as int,
        )),
{
    let s = lit + json_string(x) + rest;
    assert(lit =~= s.subrange(0, lit.len() as int));
    assert(s.subrange(lit.len() as int, s.len() as int) =~= json_string(x) + rest);
    lemma_parse_json_string(x, rest);
}

proof fn lemma_parse_lit_int(lit: Seq<char>, v: int, rest: Seq<char>)
    requires
        rest.len() == 0 || !is_digit(rest[0]),
    ensures
        parse_lit_int(lit + int_rep(v) + rest, lit) == Some((
            v,
            lit.len() as int + int_rep(v).len() as int,
        )),
{
    let s = lit + int_rep(v) + rest;
    assert(lit =~= s.subrange(0, lit.len() as int));
    assert(s.subrange(lit.len() as int, s.len() as int) =~= int_rep(v) + rest);
    lemma_parse_int_rep(v, rest);
}

/// Parses one field object at the front of `s`.
pub open spec fn parse_field(s: Seq<char>) -> Option<(FieldView, int)> {
    match parse_lit_string(s, "{\"Name\":"@) {
        Option::None => Option::None,
        Option::Some((name, ka)) => if 0 <= ka <= s.len() {
            let sa = s.subrange(ka, s.len() as int);
            match parse_lit_string(sa, ",\"Value\":"@) {
                Option::None => Option::None,
                Option::Some((value, kb)) => if 0 <= kb <= sa.len() {
                    let sb = sa.subrange(kb, sa.len() as int);
                    match parse_lit_int(sb, ",\"ItemNo\":"@) {
                        Option::None => Option::None,
                        Option::Some((num, kc)) => if 0 <= kc < sb.len() && sb[kc] == '}'
                            && i32::MIN <= num <= i32::MAX {
                            Option::Some((
                                FieldView { name, value, item_number: num as i32 },
                                ka + kb + kc + 1,
                            ))
                        } else {
                            Option::None
                        },
                    }
                } else {
                    Option::None
                },
            }
        } else {
            Option::None
        },
    }
}

/// A rendered field parses back to itself, whatever follows it, consuming
/// exactly its own text.
#[verifier::rlimit(50)]
pub proof fn lemma_parse_field(f: FieldView, rest: Seq<char>)
    ensures
        parse_field(json_field(f) + rest) == Some((f, json_field(f).len() as int)),
{
    reveal_strlit("}");
    let l1 = "{\"Name\":"@;
    let l2 = ",\"Value\":"@;
    let l3 = ",\"ItemNo\":"@;
    let a = json_string(f.name);
    let b = json_string(f.value);
    let c = int_rep(f.item_number as int);
    let s = json_field(f) + rest;
    let tail_b = l3 + c + ("}"@ + rest);
    let tail_a = l2 + b + tail_b;
    assert(s =~= l1 + a + tail_a);
    lemma_parse_lit_string(l1, f.name, tail_a);
    let ka = l1.len() as int + a.len() as int;
    assert(parse_lit_string(s, l1) == Some((f.name, ka)));
    let sa = s.subrange(ka, s.len() as int);
    assert(sa =~= tail_a);
    lemma_parse_lit_string(l2, f.value, tail_b);
    let kb = l2.len() as int + b.len() as int;
    assert(parse_lit_string(sa, l2) == Some((f.value, kb)));
    let sb = sa.subrange(kb, sa.len() as int);
    assert(sb =~= tail_b);
    assert(("}"@ + rest)[0] == '}');
    assert(!is_digit('}'));
    lemma_parse_lit_int(l3, f.item_number as int, "}"@ + rest);
    let kc = l3.len() as int + c.len() as int;
    assert(parse_lit_int(sb, l3) == Some((f.item_number as int, kc)));
    assert(sb[kc] == '}');
    assert(i32::MIN <= f.item_number as int <= i32::MAX);
    assert((FieldView { name: f.name, value: f.value, item_number: f.item_number }) == f);
    assert(json_field(f).len() == ka + kb + kc + 1);
}

/// Parses a JSON string literal or the literal `null` at the front of `s`.
pub open spec fn parse_opt_string(s: Seq<char>) -> Option<(Option<Seq<char>>, int)> {
    if s.len() >= 1 && s[0] == '"' {
        match parse_string(s) {
            Option::None => Option::None,
            Option::Some((x, k)) => Option::Some((Option::Some(x), k)),
        }
    } else if "null"@.is_prefix_of(s) {
        Option::Some((Option::None, "null"@.len() as int))
    } else {
        Option::None
    }
}

proof fn lemma_parse_opt_string(k: Option<Seq<char>>, rest: Seq<char>)
    ensures
        parse_opt_string(json_opt_string(k) + rest) == Some((
            k,
            json_opt_string(k).len() as int,
        )),
{
    let s = json_opt_string(k) + rest;
    match k {
        Option::Some(x) => {
            reveal_strlit("\"");
            assert(s[0] == '"');
            assert(json_opt_string(k) == json_string(x));
            lemma_parse_json_string(x, rest);
        },
        Option::None => {
            reveal_strlit("null");
            assert(json_opt_string(k) == "null"@);
            assert(s[0] == 'n');
            assert(s[0] != '"');
            assert("null"@ =~= s.subrange(0, "null"@.len() as int));
        },
    }
}

/// Parses one file-attachment object at the front of `s`.
pub open spec fn parse_file(s: Seq<char>) -> Option<(FileView, int)> {
    match parse_lit_string(s, "{\"Name\":"@) {
        Option::None => Option::None,
        Option::Some((name, ka)) => if 0 <= ka <= s.len() {
            let sa = s.subrange(ka, s.len() as int);
            if ",\"Key\":"@.is_prefix_of(sa) {
                let sb = sa.subrange(",\"Key\":"@.len() as int, sa.len() as int);
                match parse_opt_string(sb) {
                    Option::None => Option::None,
                    Option::Some((key, kb)) => if 0 <= kb <= sb.len() {
                        let sc = sb.subrange(kb, sb.len() as int);
                        match parse_lit_string(sc, ",\"Data\":"@) {
                            Option::None => Option::None,
                            Option::Some((data, kc)) => if 0 <= kc < sc.len() && sc[kc] == '}' {
                                Option::Some((
                                    FileView { name, key, data },
                                    ka + ",\"Key\":"@.len() as int + kb + kc + 1,
                                ))
                            } else {
                                Option::None
                            },
                        }
                    } else {
                        Option::None
                    },
                }
            } else {
                Option::None
            }
        } else {
            Option::None
        },
    }
}

/// A rendered file attachment parses back to itself, whatever follows it,
/// consuming exactly its own text.
#[verifier::rlimit(50)]
pub proof fn lemma_parse_file(f: FileView, rest: Seq<char>)
    ensures
        parse_file(json_file(f) + rest) == Some((f, json_file(f).len() as int)),
{
    reveal_strlit("}");
    let l1 = "{\"Name\":"@;
    let l2 = ",\"Key\":"@;
    let l3 = ",\"Data\":"@;
    let a = json_string(f.name);
    let b = json_opt_string(f.key);
    let c = json_string(f.data);
    let s = json_file(f) + rest;
    let tail_b = l3 + c + ("}"@ + rest);
    let tail_a = l2 + b + tail_b;
    assert(s =~= l1 + a + tail_a);
    lemma_parse_lit_string(l1, f.name, tail_a);
    let ka = l1.len() as int + a.len() as int;
    assert(parse_lit_string(s, l1) == Some((f.name, ka)));
    let sa = s.subrange(ka, s.len() as int);
    assert(sa =~= tail_a);
    assert(l2 =~= sa.subrange(0, l2.len() as int));
    let sb = sa.subrange(l2.len() as int, sa.len() as int);
    assert(sb =~= b + tail_b);
    lemma_parse_opt_string(f.key, tail_b);
    let kb = b.len() as int;
    assert(parse_opt_string(sb) == Some((f.key, kb)));
    let sc = sb.subrange(kb, sb.len() as int);
    assert(sc =~= tail_b);
    lemma_parse_lit_string(l3, f.data, "}"@ + rest);
    let kc = l3.len() as int + c.len() as int;
    assert(parse_lit_string(sc, l3) == Some((f.data, kc)));
    assert(("}"@ + rest)[0] == '}');
    assert(sc[kc] == '}');
    assert((FileView { name: f.name, key: f.key, data: f.data }) == f);
    assert(json_file(f).len() == ka + l2.len() + kb + kc + 1);
}

/// Parses one document object at the front of `s`.
pub open spec fn parse_document(s: Seq<char>) -> Option<(DocumentView, int)> {
    match parse_lit_string(s, "{\"Name\":"@) {
        Option::None => Option::None,
        Option::Some((name, ka)) => if 0 <= ka <= s.len() {
            let sa = s.subrange(ka, s.len() as int);
            if ",\"Fields\":["@.is_prefix_of(sa) {
                let sb = sa.subrange(",\"Fields\":["@.len() as int, sa.len() as int);
                match parse_list(sb, |t: Seq<char>| parse_field(t)) {
                    Option::None => Option::None,
                    Option::Some((fields, kb)) => if 0 <= kb <= sb.len() {
                        let sc = sb.subrange(kb, sb.len() as int);
                        if ",\"Files\":["@.is_prefix_of(sc) {
                            let sd = sc.subrange(",\"Files\":["@.len() as int, sc.len() as int);
                            match parse_list(sd, |t: Seq<char>| parse_file(t)) {
                                Option::None => Option::None,
                                Option::Some((files, kc)) => if 0 <= kc < sd.len() && sd[kc]
                                    == '}' {
                                    Option::Some((
                                        DocumentView { name, fields, files },
                                        ka + ",\"Fields\":["@.len() as int + kb
                                            + ",\"Files\":["@.len() as int + kc + 1,
                                    ))
                                } else {
                                    Option::None
                                },
                            }
                        } else {
                            Option::None
                        }
                    } else {
                        Option::None
                    },
                }
            } else {
                Option::None
            }
        } else {
            Option::None
        },
    }
}

proof fn lemma_parse_fields_list(fields: Seq<FieldView>, rest: Seq<char>)
    ensures
        parse_list(
            join_comma(fields.map_values(|x: FieldView| json_field(x))) + seq![']'] + rest,
            |t: Seq<char>| parse_field(t),
        ) == Some((
            fields,
            join_comma(fields.map_values(|x: FieldView| json_field(x))).len() as int + 1,
        )),
{
    reveal_strlit("{\"Name\":");
    let elem_f = |t: Seq<char>| parse_field(t);
    let render_f = |x: FieldView| json_field(x);
    assert forall|x: FieldView, suffix: Seq<char>| fields.contains(x) implies #[trigger] elem_f(
        render_f(x) + suffix,
    ) == Some((x, render_f(x).len() as int)) by {
        lemma_parse_field(x, suffix);
    }
    assert forall|x: FieldView| fields.contains(x) implies (#[trigger] render_f(x)).len() >= 1
        && render_f(x)[0] == '{' by {
        assert(json_field(x)[0] == "{\"Name\":"@[0]);
    }
    lemma_parse_list(fields, render_f, elem_f, rest);
    assert(fields.map_values(|x: FieldView| json_field(x)) == fields.map_values(render_f));
}

proof fn lemma_parse_files_list(files: Seq<FileView>, rest: Seq<char>)
    ensures
        parse_list(
            join_comma(files.map_values(|x: FileView| json_file(x))) + seq![']'] + rest,
            |t: Seq<char>| parse_file(t),
        ) == Some((
            files,
            join_comma(files.map_values(|x: FileView| json_file(x))).len() as int + 1,
        )),
{
    reveal_strlit("{\"Name\":");
    let elem_g = |t: Seq<char>| parse_file(t);
    let render_g = |x: FileView| json_file(x);
    assert forall|x: FileView, suffix: Seq<char>| files.contains(x) implies #[trigger] elem_g(
        render_g(x) + suffix,
    ) == Some((x, render_g(x).len() as int)) by {
        lemma_parse_file(x, suffix);
    }
    assert forall|x: FileView| files.contains(x) implies (#[trigger] render_g(x)).len() >= 1
        && render_g(x)[0] == '{' by {
        assert(json_file(x)[0] == "{\"Name\":"@[0]);
    }
    lemma_parse_list(files, render_g, elem_g, rest);
    assert(files.map_values(|x: FileView| json_file(x)) == files.map_values(render_g));
}

proof fn lemma_doc_text_shape(d: DocumentView, rest: Seq<char>)
    ensures
        json_document(d) + rest == "{\"Name\":"@ + json_string(d.name) + (",\"Fields\":["@ + (
        join_comma(d.fields.map_values(|x: FieldView| json_field(x))) + seq![']'] + (
        ",\"Files\":["@ + (join_comma(d.files.map_values(|x: FileView| json_file(x)))
            + seq![']'] + (seq!['}'] + rest))))),
{
    reveal_strlit("],\"Files\":[");
    reveal_strlit(",\"Files\":[");
    reveal_strlit("]}");
    assert(json_document(d) + rest =~= "{\"Name\":"@ + json_string(d.name) + (",\"Fields\":["@
        + (join_comma(d.fields.map_values(|x: FieldView| json_field(x))) + seq![']'] + (
    ",\"Files\":["@ + (join_comma(d.files.map_values(|x: FileView| json_file(x))) + seq![']']
        + (seq!['}'] + rest))))));
}

/// A rendered document parses back to itself, whatever follows it, consuming
/// exactly its own text.
#[verifier::rlimit(50)]
pub proof fn lemma_parse_document(d: DocumentView, rest: Seq<char>)
    ensures
        parse_document(json_document(d) + rest) == Some((d, json_document(d).len() as int)),
{
    let l1 = "{\"Name\":"@;
    let lf = ",\"Fields\":["@;
    let lg = ",\"Files\":["@;
    let a = json_string(d.name);
    let fjoin = join_comma(d.fields.map_values(|x: FieldView| json_field(x)));
    let gjoin = join_comma(d.files.map_values(|x: FileView| json_file(x)));
    let s = json_document(d) + rest;
    let tail_g = gjoin + seq![']'] + (seq!['}'] + rest);
    let tail_f = fjoin + seq![']'] + (lg + tail_g);
    let tail_a = lf + tail_f;
    lemma_doc_text_shape(d, rest);
    assert(lg + tail_g =~= lg + (gjoin + seq![']'] + (seq!['}'] + rest)));
    assert(s == l1 + a + tail_a);
    lemma_parse_lit_string(l1, d.name, tail_a);
    let ka = l1.len() as int + a.len() as int;
    assert(parse_lit_string(s, l1) == Some((d.name, ka)));
    let sa = s.subrange(ka, s.len() as int);
    assert(sa =~= tail_a);
    assert(lf =~= sa.subrange(0, lf.len() as int));
    let sb = sa.subrange(lf.len() as int, sa.len() as int);
    assert(sb =~= tail_f);
    lemma_parse_fields_list(d.fields, lg + tail_g);
    let kb = fjoin.len() as int + 1;
    assert(parse_list(sb, |t: Seq<char>| parse_field(t)) == Some((d.fields, kb)));
    let sc = sb.subrange(kb, sb.len() as int);
    assert(sc =~= lg + tail_g);
    assert(lg =~= sc.subrange(0, lg.len() as int));
    let sd = sc.subrange(lg.len() as int, sc.len() as int);
    assert(sd =~= tail_g);
    lemma_parse_files_list(d.files, seq!['}'] + rest);
    let kc = gjoin.len() as int + 1;
    assert(parse_list(sd, |t: Seq<char>| parse_file(t)) == Some((d.files, kc)));
    assert(sd[kc] == '}');
    assert((DocumentView { name: d.name, fields: d.fields, files: d.files }) == d);
    assert(json_document(d).len() == ka + lf.len() + kb + lg.len() + kc + 1);
}

/// Parses a whole payload: the parse succeeds only when the text is exactly
/// one payload object, nothing before and nothing after.
pub open spec fn parse_request(s: Seq<char>) -> Option<I5ReqeustView> {
    match parse_lit_string(s, "{\"Name\":"@) {
        Option::None => Option::None,
        Option::Some((name, ka)) => if 0 <= ka <= s.len() {
            let sa = s.subrange(ka, s.len() as int);
            if ",\"Documents\":["@.is_prefix_of(sa) {
                let sb = sa.subrange(",\"Documents\":["@.len() as int, sa.len() as int);
                match parse_list(sb, |t: Seq<char>| parse_document(t)) {
                    Option::None => Option::None,
                    Option::Some((documents, kb)) => if 0 <= kb < sb.len() && sb[kb] == '}' && kb
                        + 1 == sb.len() {
                        Option::Some(I5ReqeustView { name, documents })
                    } else {
                        Option::None
                    },
                }
            } else {
                Option::None
            }
        } else {
            Option::None
        },
    }
}

/// Deserializing the wire text of any payload reconstructs the payload
/// exactly: the payload name, the documents in order, and every document's
/// fields and files in order, with their names, values, item numbers, keys
/// and data. Serialization loses nothing.
pub proof fn lemma_wire_round_trip(r: I5ReqeustView)
    ensures
        parse_request(json_request(r)) == Some(r),
{
    reveal_strlit("{\"Name\":");
    reveal_strlit(",\"Documents\":[");
    reveal_strlit("]}");
    let l1 = "{\"Name\":"@;
    let ld = ",\"Documents\":["@;
    let a = json_string(r.name);
    let dtexts = r.documents.map_values(|x: DocumentView| json_document(x));
    let djoin = join_comma(dtexts);
    let s = json_request(r);
    assert("]}"@ =~= seq![']'] + seq!['}']);
    let tail_d = djoin + seq![']'] + seq!['}'];
    let tail_a = ld + tail_d;
    assert(s =~= l1 + a + tail_a);
    assert(s == l1 + a + tail_a);
    lemma_parse_lit_string(l1, r.name, tail_a);
    let ka = l1.len() as int + a.len() as int;
    assert(parse_lit_string(s, l1) == Some((r.name, ka)));
    let sa = s.subrange(ka, s.len() as int);
    assert(sa =~= tail_a);
    assert(ld =~= sa.subrange(0, ld.len() as int));
    let sb = sa.subrange(ld.len() as int, sa.len() as int);
    assert(sb =~= tail_d);
    let elem_d = |t: Seq<char>| parse_document(t);
    let render_d = |x: DocumentView| json_document(x);
    assert forall|x: DocumentView, suffix: Seq<char>| r.documents.contains(x) implies #[trigger]
    elem_d(render_d(x) + suffix) == Some((x, render_d(x).len() as int)) by {
        lemma_parse_document(x, suffix);
    }
    assert forall|x: DocumentView| r.documents.contains(x) implies (
    #[trigger] render_d(x)).len() >= 1 && render_d(x)[0] == '{' by {
        assert(json_document(x)[0] == l1[0]);
    }
    lemma_parse_list(r.documents, render_d, elem_d, seq!['}']);
    assert(dtexts == r.documents.map_values(render_d));
    let kb = djoin.len() as int + 1;
    assert(parse_list(sb, elem_d) == Some((r.documents, kb)));
    assert(sb[kb] == '}');
    assert(kb + 1 == sb.len());
    assert((I5ReqeustView { name: r.name, documents: r.documents }) == r);
}

} // verus!
