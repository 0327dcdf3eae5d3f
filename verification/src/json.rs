//! The JSON rendering of a generic value, specified character for
//! character, and a verified encoder that produces exactly that text.
//!
//! The mapping follows the usual JSON encoding of configuration data:
//! strings and date/times render as JSON strings with the standard
//! escapes, integers as plain decimal numbers, booleans as literals,
//! arrays and tables as JSON arrays and objects with order preserved
//! and no added whitespace.

use vstd::prelude::*;
use vstd::string::StringExecFns;

use crate::value::{SpecValue, GenericValue, model, model_seq, model_pairs};

verus! {

broadcast use vstd::seq::axiom_seq_index_decreases, vstd::seq::axiom_seq_subrange_decreases,
    vstd::std_specs::vec::axiom_vec_decreases_to_view, vstd::std_specs::vec::axiom_vec_index_decreases;

/// The decimal digit `d` as a character; meaningful for `d < 10`.
pub open spec fn digit_char(d: nat) -> char
    recommends
        d < 10,
{
    if d == 0 { '0' }
    else if d == 1 { '1' }
    else if d == 2 { '2' }
    else if d == 3 { '3' }
    else if d == 4 { '4' }
    else if d == 5 { '5' }
    else if d == 6 { '6' }
    else if d == 7 { '7' }
    else if d == 8 { '8' }
    else { '9' }
}

/// The hexadecimal digit `d` as a lowercase character; meaningful for
/// `d < 16`.
pub open spec fn hex_char(d: nat) -> char
    recommends
        d < 16,
{
    if d < 10 { digit_char(d) }
    else if d == 10 { 'a' }
    else if d == 11 { 'b' }
    else if d == 12 { 'c' }
    else if d == 13 { 'd' }
    else if d == 14 { 'e' }
    else { 'f' }
}

/// The decimal numeral of `n`, most significant digit first, with no
/// leading zeros (a single `0` for zero).
pub open spec fn dec_digits(n: nat) -> Seq<char>
    decreases n,
{
    if n < 10 {
        seq![digit_char(n)]
    } else {
        dec_digits(n / 10).push(digit_char(n % 10))
    }
}

/// The JSON rendering of an integer: a decimal numeral, with a leading
/// minus sign when negative. No fractional part, no exponent.
pub open spec fn json_int(i: int) -> Seq<char> {
    if i < 0 {
        seq!['-'] + dec_digits((-i) as nat)
    } else {
        dec_digits(i as nat)
    }
}

/// The JSON escape of one character: `"` and `\` get a backslash,
/// the control characters below space render as `\b`, `\t`, `\n`,
/// `\f`, `\r` or `\u00XX` with lowercase hex, and every other
/// character stands for itself.
pub open spec fn esc_char(c: char) -> Seq<char> {
    if c == '"' { seq!['\\', '"'] }
    else if c == '\\' { seq!['\\', '\\'] }
    else if c == '\u{8}' { seq!['\\', 'b'] }
    else if c == '\t' { seq!['\\', 't'] }
    else if c == '\n' { seq!['\\', 'n'] }
    else if c == '\u{c}' { seq!['\\', 'f'] }
    else if c == '\r' { seq!['\\', 'r'] }
    else if (c as u32) < 32 {
        seq!['\\', 'u', '0', '0', hex_char(((c as u32) / 16) as nat), hex_char(
            ((c as u32) % 16) as nat,
        )]
    } else {
        seq![c]
    }
}

/// The escaped body of a JSON string: each character's escape, in order.
pub open spec fn esc_str(s: Seq<char>) -> Seq<char>
    decreases s.len(),
{
    if s.len() == 0 {
        Seq::empty()
    } else {
        esc_str(s.drop_last()) + esc_char(s.last())
    }
}

/// The JSON rendering of a string: the escaped body between quotes.
pub open spec fn json_string(s: Seq<char>) -> Seq<char> {
    seq!['"'] + esc_str(s) + seq!['"']
}

/// The JSON rendering of a generic value.
pub open spec fn json_of(v: SpecValue) -> Seq<char>
    decreases v,
{
    match v {
        SpecValue::Text(s) => json_string(s),
        SpecValue::Int(i) => json_int(i),
        SpecValue::Float(t) => t,
        SpecValue::Bool(b) => if b { seq!['t', 'r', 'u', 'e'] } else { seq!['f', 'a', 'l', 's', 'e'] },
        SpecValue::Datetime(s) => json_string(s),
        SpecValue::Array(es) => seq!['['] + json_elems(es) + seq![']'],
        SpecValue::Table(ps) => seq!['{'] + json_members(ps) + seq!['}'],
    }
}

/// The comma-separated renderings of an array's elements, in order.
pub open spec fn json_elems(es: Seq<SpecValue>) -> Seq<char>
    decreases es,
{
    if es.len() == 0 {
        Seq::empty()
    } else if es.len() == 1 {
        json_of(es.last())
    } else {
        json_elems(es.drop_last()) + seq![','] + json_of(es.last())
    }
}

/// The comma-separated renderings of a table's members, in declaration
/// order: each member is the quoted key, a colon, and the value.
pub open spec fn json_members(ps: Seq<(Seq<char>, SpecValue)>) -> Seq<char>
    decreases ps,
{
    if ps.len() == 0 {
        Seq::empty()
    } else if ps.len() == 1 {
        json_member(ps.last())
    } else {
        json_members(ps.drop_last()) + seq![','] + json_member(ps.last())
    }
}

/// One object member: `"key":value`.
pub open spec fn json_member(p: (Seq<char>, SpecValue)) -> Seq<char>
    decreases p,
{
    json_string(p.0) + seq![':'] + json_of(p.1)
}

/// Relies on `String::push` of std: appends the one character to the
/// end of the string.
#[verifier::external_body]
fn push_char(out: &mut String, c: char)
    ensures
        final(out)@ == old(out)@.push(c),
{
    out.push(c);
}

/// The decimal digit `d` as a character.
fn digit_of(d: u64) -> (c: char)
    requires
        d < 10,
    ensures
        c == digit_char(d as nat),
{
    if d == 0 { '0' }
    else if d == 1 { '1' }
    else if d == 2 { '2' }
    else if d == 3 { '3' }
    else if d == 4 { '4' }
    else if d == 5 { '5' }
    else if d == 6 { '6' }
    else if d == 7 { '7' }
    else if d == 8 { '8' }
    else { '9' }
}

/// Appends the decimal numeral of `n`.
fn enc_u64(n: u64, out: &mut String)
    ensures
        final(out)@ == old(out)@ + dec_digits(n as nat),
    decreases n,
{
    if n < 10 {
        push_char(out, digit_of(n));
        assert(final(out)@ =~= old(out)@ + dec_digits(n as nat));
    } else {
        enc_u64(n / 10, out);
        push_char(out, digit_of(n % 10));
        assert(final(out)@ =~= old(out)@ + dec_digits(n as nat));
    }
}

/// Appends the JSON rendering of an integer.
fn enc_i64(i: i64, out: &mut String)
    ensures
        final(out)@ == old(out)@ + json_int(i as int),
{
    if i >= 0 {
        enc_u64(i as u64, out);
    } else {
        push_char(out, '-');
        let m: u64 = if i == i64::MIN {
            9223372036854775808u64
        } else {
            (-i) as u64
        };
        assert(m as nat == -(i as int));
        enc_u64(m, out);
        assert(final(out)@ =~= old(out)@ + json_int(i as int));
    }
}

/// The hexadecimal digit `d` as a lowercase character.
fn hex_of(d: u32) -> (c: char)
    requires
        d < 16,
    ensures
        c == hex_char(d as nat),
{
    if d == 0 { '0' }
    else if d == 1 { '1' }
    else if d == 2 { '2' }
    else if d == 3 { '3' }
    else if d == 4 { '4' }
    else if d == 5 { '5' }
    else if d == 6 { '6' }
    else if d == 7 { '7' }
    else if d == 8 { '8' }
    else if d == 9 { '9' }
    else if d == 10 { 'a' }
    else if d == 11 { 'b' }
    else if d == 12 { 'c' }
    else if d == 13 { 'd' }
    else if d == 14 { 'e' }
    else { 'f' }
}

/// Appends the JSON escape of one character.
fn enc_char(c: char, out: &mut String)
    ensures
        final(out)@ == old(out)@ + esc_char(c),
{
    if c == '"' {
        push_char(out, '\\');
        push_char(out, '"');
    } else if c == '\\' {
        push_char(out, '\\');
        push_char(out, '\\');
    } else if c == '\u{8}' {
        push_char(out, '\\');
        push_char(out, 'b');
    } else if c == '\t' {
        push_char(out, '\\');
        push_char(out, 't');
    } else if c == '\n' {
        push_char(out, '\\');
        push_char(out, 'n');
    } else if c == '\u{c}' {
        push_char(out, '\\');
        push_char(out, 'f');
    } else if c == '\r' {
        push_char(out, '\\');
        push_char(out, 'r');
    } else {
        let n = c as u32;
        if n < 32 {
            push_char(out, '\\');
            push_char(out, 'u');
            push_char(out, '0');
            push_char(out, '0');
            push_char(out, hex_of(n / 16));
            push_char(out, hex_of(n % 16));
        } else {
            push_char(out, c);
        }
    }
    assert(final(out)@ =~= old(out)@ + esc_char(c));
}

/// Appends the JSON rendering of a string: quoted, with each
/// character escaped.
fn enc_string(s: &String, out: &mut String)
    ensures
        final(out)@ == old(out)@ + json_string(s@),
{
    push_char(out, '"');
    let n = s.as_str().unicode_len();
    let mut i: usize = 0;
    while i < n
        invariant
            n == s@.len(),
            i <= n,
            out@ == old(out)@ + seq!['"'] + esc_str(s@.take(i as int)),
        decreases n - i,
    {
        let c = s.as_str().get_char(i);
        enc_char(c, out);
        proof {
            assert(s@.take(i + 1).drop_last() =~= s@.take(i as int));
            assert(s@.take(i + 1).last() == s@[i as int]);
            assert(out@ =~= old(out)@ + seq!['"'] + esc_str(s@.take(i + 1)));
        }
        i += 1;
    }
    proof {
        assert(s@.take(n as int) =~= s@);
    }
    push_char(out, '"');
    assert(final(out)@ =~= old(out)@ + json_string(s@));
}

/// Appends the JSON rendering of a generic value.
#[verifier::loop_isolation(false)]
fn enc_value(v: &GenericValue, out: &mut String)
    ensures
        final(out)@ == old(out)@ + json_of(v@),
    decreases v,
{
    match v {
        GenericValue::Text(s) => {
            enc_string(s, out);
        },
        GenericValue::Int(i) => {
            enc_i64(*i, out);
        },
        GenericValue::Float(t) => {
            out.append(t.as_str());
        },
        GenericValue::Bool(b) => {
            if *b {
                out.append("true");
                proof {
                    reveal_strlit("true");
                    assert(final(out)@ =~= old(out)@ + json_of(v@));
                }
            } else {
                out.append("false");
                proof {
                    reveal_strlit("false");
                    assert(final(out)@ =~= old(out)@ + json_of(v@));
                }
            }
        },
        GenericValue::Datetime(s) => {
            enc_string(s, out);
        },
        GenericValue::Array(es) => {
            proof {
                crate::value::lemma_model_seq(es@);
            }
            let ghost ms = model_seq(es@);
            push_char(out, '[');
            let n = es.len();
            let mut i: usize = 0;
            while i < n
                invariant
                    n == es.len(),
                    i <= n,
                    ms == model_seq(es@),
                    ms.len() == n,
                    forall|j: int| 0 <= j < n ==> ms[j] == model(es@[j]),
                    out@ == old(out)@ + seq!['['] + json_elems(ms.take(i as int)),
                decreases n - i,
            {
                if i > 0 {
                    push_char(out, ',');
                }
                proof {
                    assert(decreases_to!(*v => *es));
                    assert(decreases_to!(*es => es@[i as int]));
                }
                enc_value(&es[i], out);
                proof {
                    assert(ms.take(i + 1).drop_last() =~= ms.take(i as int));
                    assert(ms.take(i + 1).last() == ms[i as int]);
                    assert(out@ =~= old(out)@ + seq!['['] + json_elems(ms.take(i + 1)));
                }
                i += 1;
            }
            proof {
                assert(ms.take(n as int) =~= ms);
            }
            push_char(out, ']');
            assert(final(out)@ =~= old(out)@ + json_of(v@));
        },
        GenericValue::Table(ps) => {
            proof {
                crate::value::lemma_model_pairs(ps@);
            }
            let ghost ms = model_pairs(ps@);
            push_char(out, '{');
            let n = ps.len();
            let mut i: usize = 0;
            while i < n
                invariant
                    n == ps.len(),
                    i <= n,
                    ms == model_pairs(ps@),
                    ms.len() == n,
                    forall|j: int| 0 <= j < n ==> ms[j] == (ps@[j].0@, model(ps@[j].1)),
                    out@ == old(out)@ + seq!['{'] + json_members(ms.take(i as int)),
                decreases n - i,
            {
                if i > 0 {
                    push_char(out, ',');
                }
                enc_string(&ps[i].0, out);
                push_char(out, ':');
                proof {
                    assert(decreases_to!(*v => *ps));
                    assert(decreases_to!(*ps => ps@[i as int]));
                    assert(decreases_to!(ps@[i as int] => ps@[i as int].1));
                }
                enc_value(&ps[i].1, out);
                proof {
                    assert(ms.take(i + 1).drop_last() =~= ms.take(i as int));
                    assert(ms.take(i + 1).last() == ms[i as int]);
                    assert(json_member(ms[i as int]) == json_string(ps@[i as int].0@) + seq![':']
                        + json_of(model(ps@[i as int].1)));
                    if i == 0 {
                        assert(json_members(ms.take(1)) == json_member(ms[0]));
                    } else {
                        assert(json_members(ms.take(i + 1)) == json_members(ms.take(i as int))
                            + seq![','] + json_member(ms[i as int]));
                    }
                    assert(out@ =~= old(out)@ + seq!['{'] + json_members(ms.take(i + 1)));
                }
                i += 1;
            }
            proof {
                assert(ms.take(n as int) =~= ms);
            }
            push_char(out, '}');
            assert(final(out)@ =~= old(out)@ + json_of(v@));
        },
    }
}

/// Renders a generic value as JSON text: exactly the characters that
/// the spec-level rendering gives, with order preserved and no added
/// whitespace.
pub fn encode_json(v: &GenericValue) -> (out: String)
    ensures
        out@ == json_of(v@),
{
    let mut out = String::new();
    enc_value(v, &mut out);
    proof {
        assert(out@ =~= json_of(v@));
    }
    out
}

} // verus!
