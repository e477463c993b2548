use vstd::prelude::*;
use crate::json::{jv_fields, jv_seq, lemma_jv_fields_index, lemma_jv_seq_index, JsonData, JsonValue};

verus! {

/// The character for one decimal or hexadecimal digit value.
pub open spec fn digit_char(d: int) -> char {
    if d < 10 {
        ((48 + d) as u8) as char
    } else {
        ((87 + d) as u8) as char
    }
}

/// The decimal rendering of an unsigned integer, no leading zeros.
pub open spec fn dec_str(n: u64) -> Seq<char>
    decreases n,
{
    if n < 10 {
        seq![digit_char(n as int)]
    } else {
        dec_str(n / 10).push(digit_char((n % 10) as int))
    }
}

/// The escape sequence a character contributes inside a JSON string:
/// quote and backslash get a backslash escape, control characters the
/// four-digit hexadecimal form, every other character stands as itself.
pub open spec fn esc_char(c: char) -> Seq<char> {
    if c == '"' {
        seq!['\\', '"']
    } else if c == '\\' {
        seq!['\\', '\\']
    } else if (c as u32) < 32 {
        seq![
            '\\',
            'u',
            '0',
            '0',
            digit_char((c as u32 / 16) as int),
            digit_char((c as u32 % 16) as int),
        ]
    } else {
        seq![c]
    }
}

/// The body of a JSON string: every character escaped as `esc_char` says.
pub open spec fn esc(s: Seq<char>) -> Seq<char>
    decreases s.len(),
{
    if s.len() == 0 {
        Seq::empty()
    } else {
        esc(s.drop_last()) + esc_char(s.last())
    }
}

/// The serialization of a JSON document: the canonical text this library
/// writes — no whitespace, object members in their held order, strings
/// escaped as `esc` says.
pub open spec fn ser(d: JsonData) -> Seq<char>
    decreases d,
{
    match d {
        JsonData::Null => seq!['n', 'u', 'l', 'l'],
        JsonData::Bool(b) => if b {
            seq!['t', 'r', 'u', 'e']
        } else {
            seq!['f', 'a', 'l', 's', 'e']
        },
        JsonData::Num(t) => t,
        JsonData::Str(s) => seq!['"'] + esc(s) + seq!['"'],
        JsonData::Arr(items) => seq!['['] + ser_items(items) + seq![']'],
        JsonData::Obj(fields) => seq!['{'] + ser_fields(fields) + seq!['}'],
    }
}

/// The comma-separated serializations of an array's elements.
pub open spec fn ser_items(s: Seq<JsonData>) -> Seq<char>
    decreases s,
{
    if s.len() == 0 {
        Seq::empty()
    } else if s.len() == 1 {
        ser(s.last())
    } else {
        ser_items(s.drop_last()) + seq![','] + ser(s.last())
    }
}

/// The serialization of one object member: quoted key, colon, value.
pub open spec fn ser_member(kv: (Seq<char>, JsonData)) -> Seq<char>
    decreases kv,
{
    seq!['"'] + esc(kv.0) + seq!['"', ':'] + ser(kv.1)
}

/// The comma-separated serializations of an object's members.
pub open spec fn ser_fields(s: Seq<(Seq<char>, JsonData)>) -> Seq<char>
    decreases s,
{
    if s.len() == 0 {
        Seq::empty()
    } else if s.len() == 1 {
        ser_member(s.last())
    } else {
        ser_fields(s.drop_last()) + seq![','] + ser_member(s.last())
    }
}

/// One more element extends `ser_items` by a comma (past the first) and
/// the element's serialization.
proof fn lemma_ser_items_step(s: Seq<JsonData>, i: int)
    requires
        0 <= i < s.len(),
    ensures
        ser_items(s.take(i + 1)) == if i == 0 {
            ser(s[0])
        } else {
            ser_items(s.take(i)) + seq![','] + ser(s[i])
        },
{
    let t = s.take(i + 1);
    assert(t.drop_last() =~= s.take(i));
    assert(t.last() == s[i]);
}

/// One more member extends `ser_fields` likewise.
proof fn lemma_ser_fields_step(s: Seq<(Seq<char>, JsonData)>, i: int)
    requires
        0 <= i < s.len(),
    ensures
        ser_fields(s.take(i + 1)) == if i == 0 {
            ser_member(s[0])
        } else {
            ser_fields(s.take(i)) + seq![','] + ser_member(s[i])
        },
{
    let t = s.take(i + 1);
    assert(t.drop_last() =~= s.take(i));
    assert(t.last() == s[i]);
}

/// Appends the decimal rendering of `n`.
pub fn push_dec(n: u64, out: &mut Vec<char>)
    ensures
        final(out)@ == old(out)@ + dec_str(n),
    decreases n,
{
    if n >= 10 {
        push_dec(n / 10, out);
    }
    let d: u8 = (n % 10) as u8;
    out.push((48 + d) as char);
    proof {
        assert(out@ =~= old(out)@ + dec_str(n));
    }
}

/// Appends the characters of a string slice.
#[verifier::loop_isolation(false)]
pub fn push_chars(s: &str, out: &mut Vec<char>)
    ensures
        final(out)@ == old(out)@ + s@,
{
    let n = s.unicode_len();
    let mut i: usize = 0;
    while i < n
        invariant
            n == s@.len(),
            i <= n,
            out@ == old(out)@ + s@.take(i as int),
        decreases n - i,
    {
        out.push(s.get_char(i));
        i = i + 1;
        proof {
            assert(s@.take(i as int) =~= s@.take(i as int - 1).push(s@[i as int - 1]));
            assert(out@ =~= old(out)@ + s@.take(i as int));
        }
    }
    proof {
        assert(s@.take(n as int) =~= s@);
    }
}

/// Appends the escaped body of a JSON string.
#[verifier::loop_isolation(false)]
pub fn push_escaped(s: &str, out: &mut Vec<char>)
    ensures
        final(out)@ == old(out)@ + esc(s@),
{
    let n = s.unicode_len();
    let mut i: usize = 0;
    while i < n
        invariant
            n == s@.len(),
            i <= n,
            out@ == old(out)@ + esc(s@.take(i as int)),
        decreases n - i,
    {
        let c = s.get_char(i);
        if c == '"' {
            out.push('\\');
            out.push('"');
        } else if c == '\\' {
            out.push('\\');
            out.push('\\');
        } else if (c as u32) < 32 {
            out.push('\\');
            out.push('u');
            out.push('0');
            out.push('0');
            let hi: u8 = (c as u32 / 16) as u8;
            let lo: u8 = (c as u32 % 16) as u8;
            out.push(if hi < 10 { (48 + hi) as char } else { (87 + hi) as char });
            out.push(if lo < 10 { (48 + lo) as char } else { (87 + lo) as char });
        } else {
            out.push(c);
        }
        i = i + 1;
        proof {
            let t = s@.take(i as int);
            assert(t.drop_last() =~= s@.take(i as int - 1));
            assert(t.last() == s@[i as int - 1]);
            assert(out@ =~= old(out)@ + esc(t));
        }
    }
    proof {
        assert(s@.take(n as int) =~= s@);
    }
}

/// Appends the serialization of a JSON document.
#[verifier::loop_isolation(false)]
#[verifier::rlimit(60)]
pub fn push_json(v: &JsonValue, out: &mut Vec<char>)
    ensures
        final(out)@ == old(out)@ + ser(v@),
    decreases v,
{
    match v {
        JsonValue::Null => {
            out.push('n');
            out.push('u');
            out.push('l');
            out.push('l');
            proof {
                assert(out@ =~= old(out)@ + ser(v@));
            }
        },
        JsonValue::Bool(b) => {
            if *b {
                out.push('t');
                out.push('r');
                out.push('u');
                out.push('e');
            } else {
                out.push('f');
                out.push('a');
                out.push('l');
                out.push('s');
                out.push('e');
            }
            proof {
                assert(out@ =~= old(out)@ + ser(v@));
            }
        },
        JsonValue::Num(t) => {
            push_chars(t.as_str(), out);
            proof {
                assert(out@ =~= old(out)@ + ser(v@));
            }
        },
        JsonValue::Str(s) => {
            out.push('"');
            push_escaped(s.as_str(), out);
            out.push('"');
            proof {
                assert(out@ =~= old(out)@ + ser(v@));
            }
        },
        JsonValue::Arr(items) => {
            out.push('[');
            let ghost models = jv_seq(items@);
            proof {
                lemma_jv_seq_index(items@);
            }
            let mut i: usize = 0;
            while i < items.len()
                invariant
                    i <= items.len(),
                    out@ == old(out)@ + seq!['['] + ser_items(models.take(i as int)),
                decreases items.len() - i,
            {
                if i > 0 {
                    out.push(',');
                }
                proof {
                    let g = *v;
                    assert(decreases_to!(g => g->Arr_0));
                    assert(decreases_to!(g->Arr_0 => g->Arr_0@));
                    assert(decreases_to!(g->Arr_0@ => g->Arr_0@[i as int]));
                    assert(g->Arr_0@[i as int] == items@[i as int]);
                }
                push_json(&items[i], out);
                i = i + 1;
                proof {
                    lemma_ser_items_step(models, i as int - 1);
                    assert(out@ =~= old(out)@ + seq!['['] + ser_items(models.take(i as int)));
                }
            }
            out.push(']');
            proof {
                assert(models.take(items@.len() as int) =~= models);
                assert(out@ =~= old(out)@ + ser(v@));
            }
        },
        JsonValue::Obj(fields) => {
            out.push('{');
            let ghost models = jv_fields(fields@);
            proof {
                lemma_jv_fields_index(fields@);
            }
            let mut i: usize = 0;
            while i < fields.len()
                invariant
                    i <= fields.len(),
                    out@ == old(out)@ + seq!['{'] + ser_fields(models.take(i as int)),
                decreases fields.len() - i,
            {
                if i > 0 {
                    out.push(',');
                }
                let (k, val) = &fields[i];
                out.push('"');
                push_escaped(k.as_str(), out);
                out.push('"');
                out.push(':');
                proof {
                    let g = *v;
                    assert(decreases_to!(g => g->Obj_0));
                    assert(decreases_to!(g->Obj_0 => g->Obj_0@));
                    assert(decreases_to!(g->Obj_0@ => g->Obj_0@[i as int]));
                    assert(decreases_to!(g->Obj_0@[i as int] => g->Obj_0@[i as int].1));
                    assert(g->Obj_0@[i as int].1 == fields@[i as int].1);
                }
                push_json(val, out);
                i = i + 1;
                proof {
                    lemma_ser_fields_step(models, i as int - 1);
                    assert(out@ =~= old(out)@ + seq!['{'] + ser_fields(models.take(i as int)));
                }
            }
            out.push('}');
            proof {
                assert(models.take(fields@.len() as int) =~= models);
                assert(out@ =~= old(out)@ + ser(v@));
            }
        },
    }
}

/// Relies on `String`'s `FromIterator<char>` implementation: collecting
/// an iterator of characters builds the string of exactly those
/// characters in order.
#[verifier::external_body]
pub(crate) fn chars_to_string(cs: &Vec<char>) -> (r: String)
    ensures
        r@ == cs@,
{
    cs.iter().collect()
}

/// Serializes a JSON document to its canonical text.
pub fn to_json_string(v: &JsonValue) -> (r: String)
    ensures
        r@ == ser(v@),
{
    let mut out: Vec<char> = Vec::new();
    push_json(v, &mut out);
    chars_to_string(&out)
}

} // verus!
