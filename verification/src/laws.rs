//! Properties of the JSON rendering, stated and proved once for all
//! inputs: scalar renderings can be read back to the value they came
//! from, and arrays and tables render exactly one piece of text per
//! element or member, in declaration order.

use vstd::prelude::*;

use crate::value::{SpecValue, wf};
use crate::json::{
    digit_char, hex_char, dec_digits, json_int, esc_char, esc_str, json_string, json_of,
    json_elems, json_members, json_member,
};

verus! {

/// The value of a decimal digit character; meaningful for `'0'..='9'`.
pub open spec fn digit_val(c: char) -> nat {
    if c == '0' { 0 }
    else if c == '1' { 1 }
    else if c == '2' { 2 }
    else if c == '3' { 3 }
    else if c == '4' { 4 }
    else if c == '5' { 5 }
    else if c == '6' { 6 }
    else if c == '7' { 7 }
    else if c == '8' { 8 }
    else { 9 }
}

/// The value of a lowercase hexadecimal digit character.
pub open spec fn hex_val(c: char) -> nat {
    if c == 'a' { 10 }
    else if c == 'b' { 11 }
    else if c == 'c' { 12 }
    else if c == 'd' { 13 }
    else if c == 'e' { 14 }
    else if c == 'f' { 15 }
    else { digit_val(c) }
}

/// The numeric value of a sequence of decimal digit characters.
pub open spec fn num_of(s: Seq<char>) -> nat
    decreases s.len(),
{
    if s.len() == 0 {
        0
    } else {
        num_of(s.drop_last()) * 10 + digit_val(s.last())
    }
}

/// The integer a JSON number numeral denotes: an optional leading
/// minus sign, then decimal digits.
pub open spec fn int_of_numeral(s: Seq<char>) -> int {
    if s.len() > 0 && s[0] == '-' {
        -(num_of(s.drop_first()) as int)
    } else {
        num_of(s) as int
    }
}

/// Prepends one character to a read-back result, keeping failure.
pub open spec fn prepend(c: char, o: Option<Seq<char>>) -> Option<Seq<char>> {
    match o {
        Option::Some(t) => Option::Some(seq![c] + t),
        Option::None => Option::None,
    }
}

/// Reads the body of a JSON string back: undoes the escapes that
/// [`esc_str`] writes, one at a time from the front.
pub open spec fn unesc(s: Seq<char>) -> Option<Seq<char>>
    decreases s.len(),
{
    if s.len() == 0 {
        Option::Some(Seq::empty())
    } else if s[0] != '\\' {
        prepend(s[0], unesc(s.drop_first()))
    } else if s.len() < 2 {
        Option::None
    } else if s[1] == '"' {
        prepend('"', unesc(s.skip(2)))
    } else if s[1] == '\\' {
        prepend('\\', unesc(s.skip(2)))
    } else if s[1] == 'b' {
        prepend('\u{8}', unesc(s.skip(2)))
    } else if s[1] == 't' {
        prepend('\t', unesc(s.skip(2)))
    } else if s[1] == 'n' {
        prepend('\n', unesc(s.skip(2)))
    } else if s[1] == 'f' {
        prepend('\u{c}', unesc(s.skip(2)))
    } else if s[1] == 'r' {
        prepend('\r', unesc(s.skip(2)))
    } else if s[1] == 'u' {
        if s.len() < 6 {
            Option::None
        } else {
            let v = hex_val(s[2]) * 4096 + hex_val(s[3]) * 256 + hex_val(s[4]) * 16 + hex_val(
                s[5],
            );
            prepend((v as u32) as char, unesc(s.skip(6)))
        }
    } else {
        Option::None
    }
}

/// Reads a JSON string back: strips the quotes and undoes the escapes.
pub open spec fn unquote(s: Seq<char>) -> Option<Seq<char>> {
    if s.len() >= 2 && s[0] == '"' && s.last() == '"' {
        unesc(s.subrange(1, s.len() - 1))
    } else {
        Option::None
    }
}

/// Pieces of text joined by a separator, in order.
pub open spec fn joined(ts: Seq<Seq<char>>, sep: Seq<char>) -> Seq<char>
    decreases ts.len(),
{
    if ts.len() == 0 {
        Seq::empty()
    } else if ts.len() == 1 {
        ts[0]
    } else {
        joined(ts.drop_last(), sep) + sep + ts.last()
    }
}

/// A decimal numeral reads back to the number it was written from,
/// is never empty, and never starts with a minus sign.
proof fn lemma_dec_digits_num(n: nat)
    ensures
        num_of(dec_digits(n)) == n,
        dec_digits(n).len() >= 1,
        dec_digits(n)[0] != '-',
    decreases n,
{
    if n < 10 {
        assert(dec_digits(n) == seq![digit_char(n)]);
        assert(dec_digits(n).len() == 1);
        assert(dec_digits(n).last() == digit_char(n));
        assert(dec_digits(n).drop_last() =~= Seq::<char>::empty());
        assert(num_of(Seq::<char>::empty()) == 0);
        assert(num_of(dec_digits(n)) == num_of(dec_digits(n).drop_last()) * 10 + digit_val(
            dec_digits(n).last(),
        ));
        assert(digit_val(digit_char(n)) == n);
    } else {
        lemma_dec_digits_num(n / 10);
        assert(dec_digits(n).drop_last() =~= dec_digits(n / 10));
        assert(dec_digits(n).last() == digit_char(n % 10));
        assert(num_of(dec_digits(n)) == (n / 10) * 10 + n % 10);
        assert(dec_digits(n)[0] == dec_digits(n / 10)[0]);
    }
}

/// Round-trip fidelity for integers: the JSON number written for an
/// integer denotes that integer, for every integer.
pub proof fn lemma_int_round_trip(i: int)
    ensures
        int_of_numeral(json_int(i)) == i,
{
    if i < 0 {
        lemma_dec_digits_num((-i) as nat);
        let s = json_int(i);
        assert(s[0] == '-');
        assert(s.drop_first() =~= dec_digits((-i) as nat));
    } else {
        lemma_dec_digits_num(i as nat);
    }
}

/// The escaped body of a string can also be peeled from the front:
/// first the first character's escape, then the rest.
proof fn lemma_esc_str_front(s: Seq<char>)
    requires
        s.len() > 0,
    ensures
        esc_str(s) == esc_char(s[0]) + esc_str(s.drop_first()),
    decreases s.len(),
{
    if s.len() == 1 {
        assert(s.drop_last() =~= Seq::<char>::empty());
        assert(s.drop_first() =~= Seq::<char>::empty());
        assert(s.last() == s[0]);
        assert(esc_str(s) =~= esc_char(s[0]) + esc_str(s.drop_first()));
    } else {
        lemma_esc_str_front(s.drop_last());
        assert(s.drop_last()[0] == s[0]);
        assert(s.drop_last().drop_first() =~= s.drop_first().drop_last());
        assert(s.drop_first().last() == s.last());
        assert(esc_str(s.drop_first()) == esc_str(s.drop_first().drop_last()) + esc_char(
            s.drop_first().last(),
        ));
        assert(esc_str(s) =~= esc_char(s[0]) + esc_str(s.drop_first()));
    }
}

/// Undoing the escapes recovers the original string, for every string.
proof fn lemma_unesc_esc(s: Seq<char>)
    ensures
        unesc(esc_str(s)) == Option::Some(s),
    decreases s.len(),
{
    if s.len() == 0 {
        assert(esc_str(s) =~= Seq::<char>::empty());
        assert(s =~= Seq::<char>::empty());
    } else {
        let c = s[0];
        let rest = s.drop_first();
        lemma_esc_str_front(s);
        lemma_unesc_esc(rest);
        let out = esc_str(s);
        assert(out == esc_char(c) + esc_str(rest));
        if c == '"' || c == '\\' || c == '\u{8}' || c == '\t' || c == '\n' || c == '\u{c}'
            || c == '\r' {
            assert(out.len() == 2 + esc_str(rest).len());
            assert(out[0] == '\\');
            assert(out.skip(2) =~= esc_str(rest));
            assert(seq![c] + rest =~= s);
        } else if (c as u32) < 32 {
            let v = c as u32;
            assert(out[0] == '\\');
            assert(out[1] == 'u');
            assert(out.len() >= 6);
            assert(out[2] == '0' && out[3] == '0');
            assert(out[4] == hex_char((v / 16) as nat));
            assert(out[5] == hex_char((v % 16) as nat));
            assert(hex_val('0') == 0);
            assert(hex_val(hex_char((v / 16) as nat)) == v / 16);
            assert(hex_val(hex_char((v % 16) as nat)) == v % 16);
            let w = hex_val(out[2]) * 4096 + hex_val(out[3]) * 256 + hex_val(out[4]) * 16
                + hex_val(out[5]);
            assert(w == v as nat);
            assert((w as u32) == v);
            vstd::utf8::char_u32_cast(c, v);
            assert((w as u32) as char == c);
            assert(out.skip(6) =~= esc_str(rest));
            assert(seq![c] + rest =~= s);
        } else {
            assert(esc_char(c) == seq![c]);
            assert(out[0] == c);
            assert(c != '\\');
            assert(out.drop_first() =~= esc_str(rest));
            assert(seq![c] + rest =~= s);
        }
    }
}

/// Round-trip fidelity for strings (and date/times, which render the
/// same way): reading the rendered JSON string back gives exactly the
/// characters it was written from, for every string.
pub proof fn lemma_string_round_trip(s: Seq<char>)
    ensures
        unquote(json_string(s)) == Option::Some(s),
{
    lemma_unesc_esc(s);
    let q = json_string(s);
    assert(q.len() == 2 + esc_str(s).len());
    assert(q[0] == '"');
    assert(q.last() == '"');
    assert(q.subrange(1, q.len() - 1) =~= esc_str(s));
}

/// Round-trip fidelity for every scalar shape: a document whose value
/// is a scalar renders to JSON text that reads back as the expected
/// JSON-native equivalent. Strings and date/times read back through
/// [`unquote`], integers through [`int_of_numeral`], and booleans are
/// the JSON literals themselves. (A float renders as the number token
/// carried in the value, which the decoder produced; nothing more can
/// be said of it here.)
pub proof fn lemma_scalar_round_trip(v: SpecValue)
    ensures
        v matches SpecValue::Text(s) ==> unquote(json_of(v)) == Option::Some(s),
        v matches SpecValue::Datetime(s) ==> unquote(json_of(v)) == Option::Some(s),
        v matches SpecValue::Int(i) ==> int_of_numeral(json_of(v)) == i,
        v matches SpecValue::Bool(b) ==> json_of(v) == (if b {
            seq!['t', 'r', 'u', 'e']
        } else {
            seq!['f', 'a', 'l', 's', 'e']
        }),
        v matches SpecValue::Float(t) ==> json_of(v) == t,
{
    match v {
        SpecValue::Text(s) => lemma_string_round_trip(s),
        SpecValue::Datetime(s) => lemma_string_round_trip(s),
        SpecValue::Int(i) => lemma_int_round_trip(i),
        _ => {},
    }
}

/// An array's elements each render once, in order.
proof fn lemma_elems_joined(es: Seq<SpecValue>)
    ensures
        json_elems(es) == joined(es.map_values(|e: SpecValue| json_of(e)), seq![',']),
    decreases es.len(),
{
    let ts = es.map_values(|e: SpecValue| json_of(e));
    if es.len() == 0 {
    } else if es.len() == 1 {
        assert(ts[0] == json_of(es[0]));
        assert(es.last() == es[0]);
    } else {
        lemma_elems_joined(es.drop_last());
        assert(es.drop_last().map_values(|e: SpecValue| json_of(e)) =~= ts.drop_last());
        assert(ts.last() == json_of(es.last()));
    }
}

/// A table's members each render once, in order.
proof fn lemma_members_joined(ps: Seq<(Seq<char>, SpecValue)>)
    ensures
        json_members(ps) == joined(
            ps.map_values(|p: (Seq<char>, SpecValue)| json_member(p)),
            seq![','],
        ),
    decreases ps.len(),
{
    let ts = ps.map_values(|p: (Seq<char>, SpecValue)| json_member(p));
    if ps.len() == 0 {
    } else if ps.len() == 1 {
        assert(ts[0] == json_member(ps[0]));
        assert(ps.last() == ps[0]);
    } else {
        lemma_members_joined(ps.drop_last());
        assert(ps.drop_last().map_values(|p: (Seq<char>, SpecValue)| json_member(p))
            =~= ts.drop_last());
        assert(ts.last() == json_member(ps.last()));
    }
}

/// Structural fidelity for arrays: an array renders as `[`, then one
/// piece of text per element, in element order, joined by commas,
/// then `]`. Nesting mirrors the value because each piece is itself
/// the rendering of that element.
pub proof fn lemma_array_structure(es: Seq<SpecValue>)
    ensures
        json_of(SpecValue::Array(es)) == seq!['['] + joined(
            es.map_values(|e: SpecValue| json_of(e)),
            seq![','],
        ) + seq![']'],
        es.map_values(|e: SpecValue| json_of(e)).len() == es.len(),
{
    lemma_elems_joined(es);
}

/// Structural fidelity and key uniqueness for tables: a table with N
/// members renders as `{`, then exactly N pieces of text, one per
/// member in declaration order, joined by commas, then `}`; each
/// piece is the quoted key, a colon, and the value's rendering. In a
/// well-formed document the N keys are pairwise distinct, so each key
/// appears in exactly one member.
pub proof fn lemma_table_structure(ps: Seq<(Seq<char>, SpecValue)>)
    ensures
        json_of(SpecValue::Table(ps)) == seq!['{'] + joined(
            ps.map_values(|p: (Seq<char>, SpecValue)| json_member(p)),
            seq![','],
        ) + seq!['}'],
        ps.map_values(|p: (Seq<char>, SpecValue)| json_member(p)).len() == ps.len(),
        wf(SpecValue::Table(ps)) ==> forall|i: int, j: int|
            0 <= i < j < ps.len() ==> ps[i].0 != ps[j].0,
{
    lemma_members_joined(ps);
}

} // verus!

