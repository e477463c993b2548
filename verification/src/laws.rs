use vstd::prelude::*;
use crate::json::JsonData;
use crate::parse::{
    clamp_idx, digits_val, hex_val, is_digit, is_number_lexeme, is_ws, parse_spec, sp_digits_end, sp_escape,
    sp_hex4, sp_number, sp_string, sp_elems, sp_members, sp_value, sp_ws, ws_to,
};
use crate::ser::{dec_str, digit_char, esc, esc_char, ser, ser_fields, ser_items, ser_member};

verus! {

/// The text `s` continues at `i` with exactly the characters of `t`.
pub open spec fn has_at(s: Seq<char>, i: int, t: Seq<char>) -> bool {
    0 <= i && i + t.len() <= s.len() && (forall|k: int|
        0 <= k < t.len() ==> s[i + k] == #[trigger] t[k])
}

/// A text that continues with a concatenation continues with each part.
proof fn lemma_has_at_split(s: Seq<char>, i: int, a: Seq<char>, b: Seq<char>)
    requires
        has_at(s, i, a + b),
    ensures
        has_at(s, i, a),
        has_at(s, i + a.len(), b),
{
    assert forall|k: int| 0 <= k < a.len() implies s[i + k] == a[k] by {
        assert((a + b)[k] == a[k]);
    }
    assert forall|k: int| 0 <= k < b.len() implies s[i + a.len() + k] == b[k] by {
        assert((a + b)[a.len() + k] == b[k]);
    }
}

/// Whitespace skipping does not move off a non-whitespace character.
proof fn lemma_ws_to_fixed(s: Seq<char>, i: int)
    requires
        0 <= i <= s.len(),
        i < s.len() ==> !is_ws(s[i]),
    ensures
        ws_to(s, i) == i,
{
    assert(sp_ws(s, i) == i);
}

/// Decimal renderings are non-empty and all digits.
pub proof fn lemma_dec_str_digits(n: u64)
    ensures
        dec_str(n).len() >= 1,
        forall|k: int| 0 <= k < dec_str(n).len() ==> is_digit(#[trigger] dec_str(n)[k]),
    decreases n,
{
    if n >= 10 {
        lemma_dec_str_digits(n / 10);
        assert forall|k: int| 0 <= k < dec_str(n).len() implies is_digit(dec_str(n)[k]) by {
            if k < dec_str(n).len() - 1 {
                assert(dec_str(n)[k] == dec_str(n / 10)[k]);
            } else {
                assert(dec_str(n)[k] == digit_char((n % 10) as int));
            }
        }
    }
}

/// A run of digits moves the digit scan to its end.
proof fn lemma_digits_end_run(s: Seq<char>, i: int, j: int)
    requires
        0 <= i <= j <= s.len(),
        forall|k: int| i <= k < j ==> is_digit(#[trigger] s[k]),
    ensures
        sp_digits_end(s, i) == sp_digits_end(s, j),
    decreases j - i,
{
    if i < j {
        assert(is_digit(s[i]));
        lemma_digits_end_run(s, i + 1, j);
    }
}

/// Reading back a decimal rendering yields the number.
pub proof fn lemma_dec_val(s: Seq<char>, i: int, n: u64)
    requires
        has_at(s, i, dec_str(n)),
    ensures
        digits_val(s, i, i + dec_str(n).len()) == n,
    decreases n,
{
    let t = dec_str(n);
    if n < 10 {
        assert(t[0] == digit_char(n as int));
        assert(s[i + 0] == t[0]);
        assert(digits_val(s, i, i) == 0);
        assert(digits_val(s, i, i + 1) == (s[i] as u32) as int - 48);
    } else {
        let u = dec_str(n / 10);
        assert(t == u.push(digit_char((n % 10) as int)));
        assert forall|k: int| 0 <= k < u.len() implies s[i + k] == u[k] by {
            assert(t[k] == u[k]);
        }
        lemma_dec_val(s, i, n / 10);
        assert(s[i + t.len() - 1] == t[t.len() - 1]);
        assert(t[t.len() - 1] == digit_char((n % 10) as int));
        assert(digits_val(s, i, i + t.len()) == digits_val(s, i, i + t.len() - 1) * 10 + (
        (s[i + t.len() - 1] as u32) as int - 48));
    }
}


/// The serialization of a document begins with its kind's marker: a
/// letter of a literal, a quote, a minus sign or digit, or an opening
/// bracket or brace — never whitespace or a closing mark.
proof fn lemma_ser_first(d: JsonData)
    requires
        d.wf(),
    ensures
        ser(d).len() >= 1,
        ({
            let c = ser(d)[0];
            c == 'n' || c == 't' || c == 'f' || c == '"' || c == '-' || is_digit(c) || c == '['
                || c == '{'
        }),
{
    match d {
        JsonData::Num(t) => {
            lemma_lexeme_start(t);
        },
        JsonData::Str(t) => {
            assert(ser(d)[0] == '"');
        },
        JsonData::Arr(items) => {
            assert(ser(d)[0] == '[');
        },
        JsonData::Obj(fields) => {
            assert(ser(d)[0] == '{');
        },
        _ => {},
    }
}

/// A character after which a number's digit run surely ends.
pub open spec fn ends_number(s: Seq<char>, e: int) -> bool {
    e == s.len() || (!is_digit(s[e]) && s[e] != '.' && s[e] != 'e' && s[e] != 'E')
}

/// A decimal rendering is a number lexeme.
pub proof fn lemma_dec_str_lexeme(n: u64)
    ensures
        is_number_lexeme(dec_str(n)),
{
    let t = dec_str(n);
    lemma_dec_str_digits(n);
    lemma_digits_end_run(t, 0, t.len() as int);
    assert(sp_digits_end(t, t.len() as int) == t.len() as int);
    assert(clamp_idx(t.len() as int, 0, t) == t.len() as int);
}

/// A number lexeme is non-empty and starts with a minus sign or digit.
proof fn lemma_lexeme_start(t: Seq<char>)
    requires
        is_number_lexeme(t),
    ensures
        t.len() >= 1,
        t[0] == '-' || is_digit(t[0]),
{
    if t.len() == 0 {
        assert(sp_digits_end(t, 0) == 0);
    } else if t[0] != '-' {
        assert(clamp_idx(sp_digits_end(t, 0), 0, t) != 0);
        assert(sp_digits_end(t, 0) != 0);
        assert(is_digit(t[0]));
    }
}

/// The digit scan, spelled out: all characters before its end are
/// digits, and the character at its end, if any, is not.
proof fn lemma_digits_end_chars(t: Seq<char>, a: int)
    requires
        0 <= a <= t.len(),
    ensures
        a <= sp_digits_end(t, a) <= t.len(),
        forall|k: int| a <= k < sp_digits_end(t, a) ==> is_digit(#[trigger] t[k]),
        sp_digits_end(t, a) < t.len() ==> !is_digit(t[sp_digits_end(t, a)]),
    decreases t.len() - a,
{
    if a < t.len() && is_digit(t[a]) {
        lemma_digits_end_chars(t, a + 1);
    }
}

/// The digit scan moves with an embedded text, when a run that reaches
/// the text's end cannot continue into what follows.
proof fn lemma_digits_end_translate(s: Seq<char>, i: int, t: Seq<char>, a: int)
    requires
        has_at(s, i, t),
        0 <= a <= t.len(),
        sp_digits_end(t, a) == t.len() ==> (i + t.len() == s.len() || !is_digit(s[i + t.len()])),
    ensures
        sp_digits_end(s, i + a) == i + sp_digits_end(t, a),
{
    let b = sp_digits_end(t, a);
    lemma_digits_end_chars(t, a);
    assert forall|k: int| i + a <= k < i + b implies is_digit(#[trigger] s[k]) by {
        assert(s[i + (k - i)] == t[k - i]);
    }
    lemma_digits_end_run(s, i + a, i + b);
    if i + b < s.len() && b < t.len() {
        assert(s[i + b] == t[b]);
    }
    assert(sp_digits_end(s, i + b) == i + b);
}

/// A number lexeme parses back to itself wherever it is embedded, when
/// what follows cannot extend it.
#[verifier::rlimit(100)]
proof fn lemma_parse_number(s: Seq<char>, i: int, t: Seq<char>)
    requires
        is_number_lexeme(t),
        has_at(s, i, t),
        0 <= i,
        ends_number(s, i + t.len()),
    ensures
        sp_number(s, i) == Some((JsonData::Num(t), i + t.len())),
{
    let e = i + t.len();
    lemma_lexeme_start(t);
    let neg = t[0] == '-';
    let i0t: int = if neg {
        1
    } else {
        0
    };
    assert(s[i + 0] == t[0]);
    lemma_digits_end_chars(t, i0t);
    let j1t = sp_digits_end(t, i0t);
    assert(clamp_idx(j1t, i0t, t) == j1t);
    lemma_digits_end_translate(s, i, t, i0t);
    assert(clamp_idx(i + j1t, i + i0t, s) == i + j1t);
    if j1t < t.len() {
        assert(s[i + j1t] == t[j1t]);
    }
    if j1t < t.len() && t[j1t] == '.' {
        lemma_digits_end_chars(t, j1t + 1);
        lemma_digits_end_translate(s, i, t, j1t + 1);
        let j2t = sp_digits_end(t, j1t + 1);
        assert(clamp_idx(j2t, j1t + 1, t) == j2t);
        assert(clamp_idx(i + j2t, i + j1t + 1, s) == i + j2t);
        if j2t < t.len() {
            assert(s[i + j2t] == t[j2t]);
        }
        lemma_parse_number_exp(s, i, t, j2t);
    } else {
        lemma_parse_number_exp(s, i, t, j1t);
    }
    assert(s.subrange(i, e) =~= t);
}

/// The exponent tail of the number scan moves with the embedding.
#[verifier::rlimit(100)]
proof fn lemma_parse_number_exp(s: Seq<char>, i: int, t: Seq<char>, j2t: int)
    requires
        has_at(s, i, t),
        0 <= i,
        0 <= j2t <= t.len(),
        ends_number(s, i + t.len()),
    ensures
        j2t < t.len() && (t[j2t] == 'e' || t[j2t] == 'E') ==> ({
            let m0t = if j2t + 1 < t.len() && (t[j2t + 1] == '+' || t[j2t + 1] == '-') {
                j2t + 2
            } else {
                j2t + 1
            };
            &&& m0t <= t.len()
            &&& clamp_idx(sp_digits_end(t, m0t), m0t, t) == sp_digits_end(t, m0t)
            &&& sp_digits_end(s, i + m0t) == i + sp_digits_end(t, m0t)
        }),
        j2t < t.len() ==> s[i + j2t] == t[j2t],
        j2t + 1 < t.len() ==> s[i + j2t + 1] == t[j2t + 1],
{
    if j2t < t.len() {
        assert(s[i + j2t] == t[j2t]);
    }
    if j2t + 1 < t.len() {
        assert(s[i + (j2t + 1)] == t[j2t + 1]);
    }
    if j2t < t.len() && (t[j2t] == 'e' || t[j2t] == 'E') {
        let m0t = if j2t + 1 < t.len() && (t[j2t + 1] == '+' || t[j2t + 1] == '-') {
            j2t + 2
        } else {
            j2t + 1
        };
        lemma_digits_end_chars(t, m0t);
        lemma_digits_end_translate(s, i, t, m0t);
    }
}

/// Escaping processes the string from the front as well.
proof fn lemma_esc_front(t: Seq<char>)
    requires
        t.len() >= 1,
    ensures
        esc(t) == esc_char(t[0]) + esc(t.drop_first()),
    decreases t.len(),
{
    if t.len() == 1 {
        assert(t.drop_last() =~= Seq::<char>::empty());
        assert(t.drop_first() =~= Seq::<char>::empty());
        assert(t.last() == t[0]);
        assert(Seq::<char>::empty() + esc_char(t[0]) =~= esc_char(t[0]) + Seq::<char>::empty());
    } else {
        let u = t.drop_last();
        lemma_esc_front(u);
        assert(t.drop_first().drop_last() =~= u.drop_first());
        assert(t.drop_first().last() == t.last());
        assert(esc(t.drop_first()) == esc(u.drop_first()) + esc_char(t.last()));
        assert(u[0] == t[0]);
        assert((esc_char(t[0]) + esc(u.drop_first())) + esc_char(t.last()) =~= esc_char(t[0]) + (
        esc(u.drop_first()) + esc_char(t.last())));
    }
}

/// A serialized string body followed by its closing quote parses back to
/// the string.
proof fn lemma_parse_string(s: Seq<char>, i: int, t: Seq<char>)
    requires
        has_at(s, i, esc(t)),
        i + esc(t).len() < s.len(),
        s[i + esc(t).len()] == '"',
    ensures
        sp_string(s, i) == Some((t, i + esc(t).len() + 1)),
    decreases t.len(),
{
    broadcast use vstd::utf8::char_u32_cast;

    if t.len() == 0 {
        assert(s[i] == '"');
        assert(t =~= Seq::<char>::empty());
    } else {
        lemma_esc_front(t);
        let c = t[0];
        let ec = esc_char(c);
        let rest = t.drop_first();
        lemma_has_at_split(s, i, ec, esc(rest));
        let i2 = i + ec.len();
        lemma_parse_string(s, i2, rest);
        assert(seq![c] + rest =~= t);
        if c == '"' || c == '\\' {
            assert(s[i + 0] == ec[0]);
            assert(s[i + 1] == ec[1]);
            assert(sp_escape(s, i) == Some((c, i + 2)));
            assert(clamp_idx(i + 2, i + 1, s) == i + 2);
        } else if (c as u32) < 32 {
            assert(s[i + 0] == ec[0]);
            assert(s[i + 1] == ec[1]);
            assert(s[i + 2] == ec[2]);
            assert(s[i + 3] == ec[3]);
            assert(s[i + 4] == ec[4]);
            assert(s[i + 5] == ec[5]);
            let hi = (c as u32 / 16) as int;
            let lo = (c as u32 % 16) as int;
            assert(hex_val('0') == 0);
            assert(hex_val(digit_char(hi)) == hi);
            assert(hex_val(digit_char(lo)) == lo);
            assert(sp_hex4(s, i + 2) == (c as u32) as int);
            let h = sp_hex4(s, i + 2);
            assert(h as u32 == c as u32);
            vstd::utf8::char_u32_cast(c, h as u32);
            assert((h as u32) as char == c);
            assert(sp_escape(s, i) == Some((c, i + 6)));
            assert(clamp_idx(i + 6, i + 1, s) == i + 6);
        } else {
            assert(s[i + 0] == ec[0]);
        }
    }
}


/// Array serialization processes the elements from the front as well.
proof fn lemma_ser_items_front(items: Seq<JsonData>)
    requires
        items.len() >= 1,
    ensures
        ser_items(items) == if items.len() == 1 {
            ser(items[0])
        } else {
            ser(items[0]) + seq![','] + ser_items(items.drop_first())
        },
    decreases items.len(),
{
    if items.len() == 1 {
        assert(items.last() == items[0]);
    } else {
        let u = items.drop_last();
        let df = items.drop_first();
        lemma_ser_items_front(u);
        assert(df.drop_last() =~= u.drop_first());
        assert(df.last() == items.last());
        assert(u[0] == items[0]);
        let a = ser(items[0]);
        let c = seq![','];
        let l = ser(items.last());
        if items.len() == 2 {
            assert(df.len() == 1);
            assert(ser_items(df) == ser(df.last()));
            assert(ser_items(u) == ser(u[0]));
        } else {
            let up = ser_items(u.drop_first());
            assert(ser_items(df) == ser_items(df.drop_last()) + c + ser(df.last()));
            assert(ser_items(df.drop_last()) == ser_items(u.drop_first()));
            assert(ser_items(u) == (a + c) + up);
            assert((((a + c) + up) + c) + l =~= (a + c) + ((up + c) + l));
        }
    }
}

/// Object serialization processes the members from the front as well.
proof fn lemma_ser_fields_front(fields: Seq<(Seq<char>, JsonData)>)
    requires
        fields.len() >= 1,
    ensures
        ser_fields(fields) == if fields.len() == 1 {
            ser_member(fields[0])
        } else {
            ser_member(fields[0]) + seq![','] + ser_fields(fields.drop_first())
        },
    decreases fields.len(),
{
    if fields.len() == 1 {
        assert(fields.last() == fields[0]);
    } else {
        let u = fields.drop_last();
        let df = fields.drop_first();
        lemma_ser_fields_front(u);
        assert(df.drop_last() =~= u.drop_first());
        assert(df.last() == fields.last());
        assert(u[0] == fields[0]);
        let a = ser_member(fields[0]);
        let c = seq![','];
        let l = ser_member(fields.last());
        if fields.len() == 2 {
            assert(df.len() == 1);
            assert(ser_fields(df) == ser_member(df.last()));
            assert(ser_fields(u) == ser_member(u[0]));
        } else {
            let up = ser_fields(u.drop_first());
            assert(ser_fields(df) == ser_fields(df.drop_last()) + c + ser_member(df.last()));
            assert(ser_fields(df.drop_last()) == ser_fields(u.drop_first()));
            assert(ser_fields(u) == (a + c) + up);
            assert((((a + c) + up) + c) + l =~= (a + c) + ((up + c) + l));
        }
    }
}


/// A serialized value parses back to itself, when what follows cannot
/// extend a number.
#[verifier::rlimit(100)]
proof fn lemma_parse_value(s: Seq<char>, i: int, d: JsonData)
    requires
        d.wf(),
        has_at(s, i, ser(d)),
        ends_number(s, i + ser(d).len()),
    ensures
        sp_value(s, i) == Some((d, i + ser(d).len())),
    decreases d,
{
    let e = i + ser(d).len();
    lemma_ser_first(d);
    match d {
        JsonData::Null => {
            assert(s[i + 0] == ser(d)[0]);
            assert(s[i + 1] == ser(d)[1]);
            assert(s[i + 2] == ser(d)[2]);
            assert(s[i + 3] == ser(d)[3]);
        },
        JsonData::Bool(b) => {
            assert(s[i + 0] == ser(d)[0]);
            assert(s[i + 1] == ser(d)[1]);
            assert(s[i + 2] == ser(d)[2]);
            assert(s[i + 3] == ser(d)[3]);
            if !b {
                assert(s[i + 4] == ser(d)[4]);
            }
        },
        JsonData::Num(t) => {
            lemma_parse_number(s, i, t);
            assert(s[i + 0] == ser(d)[0]);
        },
        JsonData::Str(t) => {
            lemma_has_at_split(s, i, seq!['"'] + esc(t), seq!['"']);
            lemma_has_at_split(s, i, seq!['"'], esc(t));
            assert(s[i + 0] == (seq!['"'] + esc(t))[0]);
            assert(s[i + 1 + esc(t).len()] == seq!['"'][0]);
            lemma_parse_string(s, i + 1, t);
        },
        JsonData::Arr(items) => {
            lemma_has_at_split(s, i, seq!['['] + ser_items(items), seq![']']);
            lemma_has_at_split(s, i, seq!['['], ser_items(items));
            assert(s[i + 0] == (seq!['['] + ser_items(items))[0]);
            assert(s[i + 1 + ser_items(items).len()] == seq![']'][0]);
            if items.len() == 0 {
                assert(s[i + 1] == ']');
                lemma_ws_to_fixed(s, i + 1);
                assert(items =~= Seq::<JsonData>::empty());
            } else {
                lemma_ser_items_front(items);
                lemma_ser_first(items[0]);
                assert(s[i + 1 + 0] == ser_items(items)[0]);
                assert(ser_items(items)[0] == ser(items[0])[0]);
                lemma_ws_to_fixed(s, i + 1);
                assert(forall|k: int| 0 <= k < items.len() ==> (#[trigger] items[k]).wf());
                lemma_parse_elems(s, i + 1, items);
            }
        },
        JsonData::Obj(fields) => {
            lemma_has_at_split(s, i, seq!['{'] + ser_fields(fields), seq!['}']);
            lemma_has_at_split(s, i, seq!['{'], ser_fields(fields));
            assert(s[i + 0] == (seq!['{'] + ser_fields(fields))[0]);
            assert(s[i + 1 + ser_fields(fields).len()] == seq!['}'][0]);
            if fields.len() == 0 {
                assert(s[i + 1] == '}');
                lemma_ws_to_fixed(s, i + 1);
                assert(fields =~= Seq::<(Seq<char>, JsonData)>::empty());
            } else {
                lemma_ser_fields_front(fields);
                assert(s[i + 1 + 0] == ser_fields(fields)[0]);
                assert(ser_fields(fields)[0] == ser_member(fields[0])[0]);
                assert(ser_member(fields[0])[0] == '"');
                lemma_ws_to_fixed(s, i + 1);
                assert(forall|k: int| 0 <= k < fields.len() ==> (#[trigger] fields[k]).1.wf());
                lemma_parse_members(s, i + 1, fields);
            }
        },
    }
}

/// A serialized element list followed by its closing bracket parses back
/// to the elements.
#[verifier::rlimit(100)]
proof fn lemma_parse_elems(s: Seq<char>, i: int, items: Seq<JsonData>)
    requires
        items.len() >= 1,
        forall|k: int| 0 <= k < items.len() ==> (#[trigger] items[k]).wf(),
        has_at(s, i, ser_items(items)),
        i + ser_items(items).len() < s.len(),
        s[i + ser_items(items).len()] == ']',
    ensures
        sp_elems(s, i) == Some((items, i + ser_items(items).len() + 1)),
    decreases items,
{
    lemma_ser_items_front(items);
    let d0 = items[0];
    assert(d0.wf());
    lemma_ser_first(d0);
    let l0 = ser(d0).len();
    if items.len() == 1 {
        lemma_parse_value(s, i, d0);
        lemma_ws_to_fixed(s, i + l0);
        assert(clamp_idx(i + l0, i + 1, s) == i + l0);
        assert(seq![d0] =~= items);
    } else {
        let df = items.drop_first();
        lemma_has_at_split(s, i, ser(d0) + seq![','], ser_items(df));
        lemma_has_at_split(s, i, ser(d0), seq![',']);
        assert(s[i + l0 + 0] == seq![','][0]);
        lemma_parse_value(s, i, d0);
        lemma_ws_to_fixed(s, i + l0);
        assert(clamp_idx(i + l0, i + 1, s) == i + l0);
        lemma_ser_items_front(df);
        lemma_ser_first(df[0]);
        assert(s[(i + l0 + 1) + 0] == ser_items(df)[0]);
        assert(ser_items(df)[0] == ser(df[0])[0]);
        lemma_ws_to_fixed(s, i + l0 + 1);
        assert(forall|k: int| 0 <= k < df.len() ==> (#[trigger] df[k]).wf());
        lemma_parse_elems(s, i + l0 + 1, df);
        assert(seq![d0] + df =~= items);
    }
}

/// A serialized member list followed by its closing brace parses back to
/// the members.
#[verifier::rlimit(100)]
proof fn lemma_parse_members(s: Seq<char>, i: int, fields: Seq<(Seq<char>, JsonData)>)
    requires
        fields.len() >= 1,
        forall|k: int| 0 <= k < fields.len() ==> (#[trigger] fields[k]).1.wf(),
        has_at(s, i, ser_fields(fields)),
        i + ser_fields(fields).len() < s.len(),
        s[i + ser_fields(fields).len()] == '}',
    ensures
        sp_members(s, i) == Some((fields, i + ser_fields(fields).len() + 1)),
    decreases fields,
{
    lemma_ser_fields_front(fields);
    let kv = fields[0];
    assert(kv.1.wf());
    let m0 = ser_member(kv);
    // ser_member(kv) = ((['"'] + esc(kv.0)) + ['"', ':']) + ser(kv.1)
    let lm = m0.len();
    if fields.len() == 1 {
        lemma_member_shape(s, i, kv);
        lemma_ws_to_fixed(s, i + lm);
        assert(seq![kv] =~= fields);
    } else {
        let df = fields.drop_first();
        lemma_has_at_split(s, i, m0 + seq![','], ser_fields(df));
        lemma_has_at_split(s, i, m0, seq![',']);
        assert(s[i + lm + 0] == seq![','][0]);
        lemma_member_shape(s, i, kv);
        lemma_ws_to_fixed(s, i + lm);
        lemma_ser_fields_front(df);
        assert(s[(i + lm + 1) + 0] == ser_fields(df)[0]);
        assert(ser_fields(df)[0] == ser_member(df[0])[0]);
        assert(ser_member(df[0])[0] == '"');
        lemma_ws_to_fixed(s, i + lm + 1);
        assert(forall|k: int| 0 <= k < df.len() ==> (#[trigger] df[k]).1.wf());
        lemma_parse_members(s, i + lm + 1, df);
        assert(seq![kv] + df =~= fields);
    }
}

/// One serialized member at `i`: the key string, the colon, and the
/// value parse back as the member.
#[verifier::rlimit(100)]
proof fn lemma_member_shape(s: Seq<char>, i: int, kv: (Seq<char>, JsonData))
    requires
        kv.1.wf(),
        has_at(s, i, ser_member(kv)),
        i + ser_member(kv).len() < s.len(),
        s[i + ser_member(kv).len()] == '}' || s[i + ser_member(kv).len()] == ',',
    ensures
        ({
            let j0 = i + 1 + esc(kv.0).len() + 1;
            let k0 = j0 + 1;
            &&& s[i] == '"'
            &&& sp_string(s, i + 1) == Some((kv.0, j0))
            &&& s[j0] == ':'
            &&& sp_value(s, k0) == Some((kv.1, i + ser_member(kv).len()))
        }),
    decreases kv,
{
    let a = seq!['"'];
    let b = esc(kv.0);
    let c = seq!['"', ':'];
    let v = ser(kv.1);
    lemma_has_at_split(s, i, (a + b) + c, v);
    lemma_has_at_split(s, i, a + b, c);
    lemma_has_at_split(s, i, a, b);
    assert(s[i + 0] == a[0]);
    let qi = i + 1 + b.len();
    assert(s[qi + 0] == c[0]);
    assert(s[qi + 1] == c[1]);
    lemma_parse_string(s, i + 1, kv.0);
    lemma_ser_first(kv.1);
    lemma_parse_value(s, qi + 2, kv.1);
}


/// Round trip of the JSON codec: parsing the canonical serialization of
/// any well-formed document yields exactly that document.
pub proof fn lemma_text_round_trip(d: JsonData)
    requires
        d.wf(),
    ensures
        parse_spec(ser(d)) == Some(d),
{
    let s = ser(d);
    lemma_ser_first(d);
    lemma_ws_to_fixed(s, 0);
    assert(has_at(s, 0, s));
    assert(ends_number(s, s.len() as int));
    lemma_parse_value(s, 0, d);
    assert(clamp_idx(s.len() as int, 0, s) == s.len() as int);
    lemma_ws_to_fixed(s, s.len() as int);
}

} // verus!
