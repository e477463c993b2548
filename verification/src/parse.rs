use vstd::prelude::*;
use crate::json::{JsonData, JsonValue};

verus! {

/// JSON insignificant whitespace.
pub open spec fn is_ws(c: char) -> bool {
    c == ' ' || c == '\t' || c == '\n' || c == '\r'
}

/// A decimal digit.
pub open spec fn is_digit(c: char) -> bool {
    48 <= c as u32 && c as u32 <= 57
}

/// The value of a hexadecimal digit, -1 for any other character.
pub open spec fn hex_val(c: char) -> int {
    let u = (c as u32) as int;
    if 48 <= u && u <= 57 {
        u - 48
    } else if 97 <= u && u <= 102 {
        u - 87
    } else if 65 <= u && u <= 70 {
        u - 55
    } else {
        -1
    }
}

/// The index of the first non-whitespace character at or after `i`.
pub open spec fn sp_ws(s: Seq<char>, i: int) -> int
    decreases s.len() - i,
{
    if 0 <= i && i < s.len() && is_ws(s[i]) {
        sp_ws(s, i + 1)
    } else {
        i
    }
}

/// `sp_ws`, clamped into `[i, s.len()]` so that index arithmetic on it
/// stays in range by definition.
pub open spec fn ws_to(s: Seq<char>, i: int) -> int {
    let j = sp_ws(s, i);
    if j < i {
        i
    } else if j > s.len() {
        s.len() as int
    } else {
        j
    }
}

/// An index clamped into `[lo, s.len()]`.
pub open spec fn clamp_idx(j: int, lo: int, s: Seq<char>) -> int {
    if j < lo {
        lo
    } else if j > s.len() {
        s.len() as int
    } else {
        j
    }
}

/// The index just past the run of decimal digits starting at `i`.
pub open spec fn sp_digits_end(s: Seq<char>, i: int) -> int
    decreases s.len() - i,
{
    if 0 <= i && i < s.len() && is_digit(s[i]) {
        sp_digits_end(s, i + 1)
    } else {
        i
    }
}

/// The value of the decimal digit run `s[i..j)`.
pub open spec fn digits_val(s: Seq<char>, i: int, j: int) -> int
    decreases j - i,
{
    if i < j {
        digits_val(s, i, j - 1) * 10 + ((s[j - 1] as u32) as int - 48)
    } else {
        0
    }
}

/// Parses a JSON number at `i` and keeps its lexeme: an optional minus
/// sign, an integer digit run, an optional fraction, and an optional
/// exponent. The lexeme is carried as it stands; no value is computed.
pub open spec fn sp_number(s: Seq<char>, i: int) -> Option<(JsonData, int)> {
    let neg = 0 <= i && i < s.len() && s[i] == '-';
    let i0 = if neg {
        i + 1
    } else {
        i
    };
    let j1 = clamp_idx(sp_digits_end(s, i0), i0, s);
    if j1 == i0 {
        None
    } else if j1 < s.len() && s[j1] == '.' && clamp_idx(sp_digits_end(s, j1 + 1), j1 + 1, s) == j1
        + 1 {
        None
    } else {
        let j2 = if j1 < s.len() && s[j1] == '.' {
            clamp_idx(sp_digits_end(s, j1 + 1), j1 + 1, s)
        } else {
            j1
        };
        if j2 < s.len() && (s[j2] == 'e' || s[j2] == 'E') {
            let m0 = if j2 + 1 < s.len() && (s[j2 + 1] == '+' || s[j2 + 1] == '-') {
                j2 + 2
            } else {
                j2 + 1
            };
            let j3 = clamp_idx(sp_digits_end(s, m0), m0, s);
            if j3 == m0 {
                None
            } else {
                Some((JsonData::Num(s.subrange(i, j3)), j3))
            }
        } else {
            Some((JsonData::Num(s.subrange(i, j2)), j2))
        }
    }
}

/// A JSON number lexeme: the text that the number scanner accepts whole.
pub open spec fn is_number_lexeme(t: Seq<char>) -> bool {
    sp_number(t, 0) matches Some((d, j)) && j == t.len()
}

/// The value of the four hexadecimal digits at `i`, or -1.
pub open spec fn sp_hex4(s: Seq<char>, i: int) -> int {
    if 0 <= i && i + 4 <= s.len() {
        if hex_val(s[i]) >= 0 && hex_val(s[i + 1]) >= 0 && hex_val(s[i + 2]) >= 0 && hex_val(
            s[i + 3],
        ) >= 0 {
            hex_val(s[i]) * 4096 + hex_val(s[i + 1]) * 256 + hex_val(s[i + 2]) * 16 + hex_val(
                s[i + 3],
            )
        } else {
            -1
        }
    } else {
        -1
    }
}

/// Parses the escape sequence whose backslash stands at `i`: the named
/// single-character escapes, and `u` followed by four hexadecimal digits,
/// where a high surrogate must be completed by a low one and a lone
/// surrogate is rejected.
pub open spec fn sp_escape(s: Seq<char>, i: int) -> Option<(char, int)> {
    if !(0 <= i && i + 1 < s.len()) {
        None
    } else {
        let e = s[i + 1];
        if e == '"' {
            Some(('"', i + 2))
        } else if e == '\\' {
            Some(('\\', i + 2))
        } else if e == '/' {
            Some(('/', i + 2))
        } else if e == 'n' {
            Some(('\n', i + 2))
        } else if e == 't' {
            Some(('\t', i + 2))
        } else if e == 'r' {
            Some(('\r', i + 2))
        } else if e == 'b' {
            Some(((8 as u8) as char, i + 2))
        } else if e == 'f' {
            Some(((12 as u8) as char, i + 2))
        } else if e == 'u' {
            let h = sp_hex4(s, i + 2);
            if h < 0 {
                None
            } else if 0xD800 <= h && h < 0xDC00 {
                if i + 8 <= s.len() && s[i + 6] == '\\' && s[i + 7] == 'u' {
                    let l = sp_hex4(s, i + 8);
                    if 0xDC00 <= l && l < 0xE000 {
                        Some(
                            (
                                ((0x10000 + (h - 0xD800) * 0x400 + (l - 0xDC00)) as u32) as char,
                                i + 12,
                            ),
                        )
                    } else {
                        None
                    }
                } else {
                    None
                }
            } else if 0xDC00 <= h && h < 0xE000 {
                None
            } else {
                Some(((h as u32) as char, i + 6))
            }
        } else {
            None
        }
    }
}

/// Parses the body of a JSON string from `i` (just past the opening
/// quote) up to and past the closing quote, resolving escapes and
/// rejecting unescaped control characters.
pub open spec fn sp_string(s: Seq<char>, i: int) -> Option<(Seq<char>, int)>
    decreases s.len() - i,
{
    if !(0 <= i && i < s.len()) {
        None
    } else {
        let c = s[i];
        if c == '"' {
            Some((Seq::empty(), i + 1))
        } else if c == '\\' {
            match sp_escape(s, i) {
                None => None,
                Some((ch, j)) => {
                    let j2 = clamp_idx(j, i + 1, s);
                    match sp_string(s, j2) {
                        None => None,
                        Some((rest, k)) => Some((seq![ch] + rest, k)),
                    }
                },
            }
        } else if (c as u32) < 32 {
            None
        } else {
            match sp_string(s, i + 1) {
                None => None,
                Some((rest, k)) => Some((seq![c] + rest, k)),
            }
        }
    }
}

/// Parses one JSON value at `i` (no leading whitespace).
pub open spec fn sp_value(s: Seq<char>, i: int) -> Option<(JsonData, int)>
    decreases s.len() - i, 2int,
{
    if !(0 <= i && i < s.len()) {
        None
    } else {
        let c = s[i];
        if c == 'n' {
            if i + 4 <= s.len() && s[i + 1] == 'u' && s[i + 2] == 'l' && s[i + 3] == 'l' {
                Some((JsonData::Null, i + 4))
            } else {
                None
            }
        } else if c == 't' {
            if i + 4 <= s.len() && s[i + 1] == 'r' && s[i + 2] == 'u' && s[i + 3] == 'e' {
                Some((JsonData::Bool(true), i + 4))
            } else {
                None
            }
        } else if c == 'f' {
            if i + 5 <= s.len() && s[i + 1] == 'a' && s[i + 2] == 'l' && s[i + 3] == 's' && s[i + 4]
                == 'e' {
                Some((JsonData::Bool(false), i + 5))
            } else {
                None
            }
        } else if c == '"' {
            match sp_string(s, i + 1) {
                None => None,
                Some((t, j)) => Some((JsonData::Str(t), j)),
            }
        } else if c == '-' || is_digit(c) {
            sp_number(s, i)
        } else if c == '[' {
            let j = ws_to(s, i + 1);
            if j < s.len() && s[j] == ']' {
                Some((JsonData::Arr(Seq::empty()), j + 1))
            } else {
                match sp_elems(s, j) {
                    None => None,
                    Some((items, k)) => Some((JsonData::Arr(items), k)),
                }
            }
        } else if c == '{' {
            let j = ws_to(s, i + 1);
            if j < s.len() && s[j] == '}' {
                Some((JsonData::Obj(Seq::empty()), j + 1))
            } else {
                match sp_members(s, j) {
                    None => None,
                    Some((fields, k)) => Some((JsonData::Obj(fields), k)),
                }
            }
        } else {
            None
        }
    }
}

/// Parses the non-empty element list of an array from `i` (no leading
/// whitespace) up to and past the closing bracket.
pub open spec fn sp_elems(s: Seq<char>, i: int) -> Option<(Seq<JsonData>, int)>
    decreases s.len() - i, 3int,
{
    match sp_value(s, i) {
        None => None,
        Some((v, j0)) => {
            let j = ws_to(s, clamp_idx(j0, i + 1, s));
            if j < s.len() && s[j] == ']' {
                Some((seq![v], j + 1))
            } else if j < s.len() && s[j] == ',' {
                let k = ws_to(s, j + 1);
                match sp_elems(s, k) {
                    None => None,
                    Some((rest, m)) => Some((seq![v] + rest, m)),
                }
            } else {
                None
            }
        },
    }
}

/// Parses the non-empty member list of an object from `i` (no leading
/// whitespace) up to and past the closing brace.
pub open spec fn sp_members(s: Seq<char>, i: int) -> Option<
    (Seq<(Seq<char>, JsonData)>, int),
>
    decreases s.len() - i, 3int,
{
    if !(0 <= i && i < s.len() && s[i] == '"') {
        None
    } else {
        match sp_string(s, i + 1) {
            None => None,
            Some((key, j0)) => {
                let j = ws_to(s, clamp_idx(j0, i + 1, s));
                if j < s.len() && s[j] == ':' {
                    let k0 = ws_to(s, j + 1);
                    match sp_value(s, k0) {
                        None => None,
                        Some((v, m0)) => {
                            let m = ws_to(s, clamp_idx(m0, k0, s));
                            if m < s.len() && s[m] == '}' {
                                Some((seq![(key, v)], m + 1))
                            } else if m < s.len() && s[m] == ',' {
                                let n = ws_to(s, m + 1);
                                match sp_members(s, n) {
                                    None => None,
                                    Some((rest, p)) => Some((seq![(key, v)] + rest, p)),
                                }
                            } else {
                                None
                            }
                        },
                    }
                } else {
                    None
                }
            },
        }
    }
}

/// Parses a complete JSON text: one value, surrounded by whitespace only.
pub open spec fn parse_spec(s: Seq<char>) -> Option<JsonData> {
    match sp_value(s, ws_to(s, 0)) {
        None => None,
        Some((v, j)) => {
            if ws_to(s, clamp_idx(j, 0, s)) == s.len() {
                Some(v)
            } else {
                None
            }
        },
    }
}


/// Turns a string into the vector of its characters.
pub fn str_to_chars(s: &str) -> (r: Vec<char>)
    ensures
        r@ == s@,
{
    let n = s.unicode_len();
    let mut out: Vec<char> = Vec::new();
    let mut i: usize = 0;
    while i < n
        invariant
            n == s@.len(),
            i <= n,
            out@ == s@.take(i as int),
        decreases n - i,
    {
        out.push(s.get_char(i));
        i = i + 1;
        proof {
            assert(s@.take(i as int) =~= s@.take(i as int - 1).push(s@[i as int - 1]));
        }
    }
    proof {
        assert(s@.take(n as int) =~= s@);
    }
    out
}

/// Finds the end of the whitespace run at `i`.
fn ws_end(cs: &Vec<char>, i: usize) -> (r: usize)
    requires
        i <= cs@.len(),
    ensures
        r as int == ws_to(cs@, i as int),
        i <= r <= cs@.len(),
{
    let mut j = i;
    while j < cs.len() && (cs[j] == ' ' || cs[j] == '\t' || cs[j] == '\n' || cs[j] == '\r')
        invariant
            i <= j <= cs@.len(),
            sp_ws(cs@, i as int) == sp_ws(cs@, j as int),
        decreases cs@.len() - j,
    {
        j = j + 1;
    }
    proof {
        assert(sp_ws(cs@, j as int) == j as int);
    }
    j
}

/// The value of one hexadecimal digit character.
fn hexdigit(c: char) -> (r: Option<u8>)
    ensures
        hex_val(c) >= 0 ==> r == Some(hex_val(c) as u8),
        hex_val(c) < 0 ==> r is None,
{
    let u = c as u32;
    if 48 <= u && u <= 57 {
        Some((u - 48) as u8)
    } else if 97 <= u && u <= 102 {
        Some((u - 87) as u8)
    } else if 65 <= u && u <= 70 {
        Some((u - 55) as u8)
    } else {
        None
    }
}

/// Reads the four hexadecimal digits at `i`.
fn p_hex4(cs: &Vec<char>, i: usize) -> (r: Option<u32>)
    requires
        i <= cs@.len(),
    ensures
        r matches Some(h) ==> sp_hex4(cs@, i as int) == h as int && h <= 0xFFFF,
        r is None ==> sp_hex4(cs@, i as int) < 0,
{
    if cs.len() - i < 4 {
        return None;
    }
    let a = match hexdigit(cs[i]) {
        Some(x) => x,
        None => return None,
    };
    let b = match hexdigit(cs[i + 1]) {
        Some(x) => x,
        None => return None,
    };
    let c = match hexdigit(cs[i + 2]) {
        Some(x) => x,
        None => return None,
    };
    let d = match hexdigit(cs[i + 3]) {
        Some(x) => x,
        None => return None,
    };
    Some((a as u32) * 4096 + (b as u32) * 256 + (c as u32) * 16 + (d as u32))
}

/// Relies on `char::from_u32`: it returns the character for exactly the
/// code points that are Unicode scalar values — below the surrogate
/// range, or above it and at most 0x10FFFF — and `None` otherwise.
#[verifier::external_body]
fn char_from_u32(u: u32) -> (r: Option<char>)
    ensures
        r == (if u < 0xD800 || (0xE000 <= u && u <= 0x10FFFF) {
            Some(u as char)
        } else {
            None::<char>
        }),
{
    char::from_u32(u)
}

/// Reads the escape sequence whose backslash stands at `i`.
fn p_escape(cs: &Vec<char>, i: usize) -> (r: Option<(char, usize)>)
    requires
        i < cs@.len(),
    ensures
        ({
            let sp = sp_escape(cs@, i as int);
            match r {
                Some(p) => sp matches Some(q) && q.0 == p.0 && q.1 == p.1 as int && i + 2 <= p.1
                    <= cs@.len(),
                None => sp is None,
            }
        }),
{
    let n = cs.len();
    if n - i < 2 {
        return None;
    }
    let e = cs[i + 1];
    if e == '"' {
        Some(('"', i + 2))
    } else if e == '\\' {
        Some(('\\', i + 2))
    } else if e == '/' {
        Some(('/', i + 2))
    } else if e == 'n' {
        Some(('\n', i + 2))
    } else if e == 't' {
        Some(('\t', i + 2))
    } else if e == 'r' {
        Some(('\r', i + 2))
    } else if e == 'b' {
        Some(((8u8) as char, i + 2))
    } else if e == 'f' {
        Some(((12u8) as char, i + 2))
    } else if e == 'u' {
        let h = match p_hex4(cs, i + 2) {
            Some(h) => h,
            None => return None,
        };
        if 0xD800 <= h && h < 0xDC00 {
            if n - i >= 8 && cs[i + 6] == '\\' && cs[i + 7] == 'u' {
                let l = match p_hex4(cs, i + 8) {
                    Some(l) => l,
                    None => return None,
                };
                if 0xDC00 <= l && l < 0xE000 {
                    let code = 0x10000 + (h - 0xD800) * 0x400 + (l - 0xDC00);
                    let ch = char_from_u32(code).unwrap();
                    Some((ch, i + 12))
                } else {
                    None
                }
            } else {
                None
            }
        } else if 0xDC00 <= h && h < 0xE000 {
            None
        } else {
            let ch = char_from_u32(h).unwrap();
            Some((ch, i + 6))
        }
    } else {
        None
    }
}

/// Reads a JSON string body from `i` (just past the opening quote).
fn p_string(cs: &Vec<char>, i: usize) -> (r: Option<(Vec<char>, usize)>)
    requires
        i <= cs@.len(),
    ensures
        ({
            let sp = sp_string(cs@, i as int);
            match r {
                Some(p) => sp matches Some(q) && q.0 == p.0@ && q.1 == p.1 as int && i < p.1
                    <= cs@.len(),
                None => sp is None,
            }
        }),
    decreases cs@.len() - i,
{
    if i >= cs.len() {
        return None;
    }
    let c = cs[i];
    if c == '"' {
        let empty: Vec<char> = Vec::new();
        Some((empty, i + 1))
    } else if c == '\\' {
        let (ch, j) = match p_escape(cs, i) {
            Some(p) => p,
            None => return None,
        };
        match p_string(cs, j) {
            None => None,
            Some((rest, k)) => {
                let ghost rest0 = rest@;
                let mut out = rest;
                out.insert(0, ch);
                proof {
                    assert(out@ =~= seq![ch] + rest0);
                }
                Some((out, k))
            },
        }
    } else if (c as u32) < 32 {
        None
    } else {
        match p_string(cs, i + 1) {
            None => None,
            Some((rest, k)) => {
                let ghost rest0 = rest@;
                let mut out = rest;
                out.insert(0, c);
                proof {
                    assert(out@ =~= seq![c] + rest0);
                }
                Some((out, k))
            },
        }
    }
}

/// Copies the characters `cs[a..b)` into a string.
fn chars_range_to_string(cs: &Vec<char>, a: usize, b: usize) -> (r: String)
    requires
        a <= b <= cs@.len(),
    ensures
        r@ == cs@.subrange(a as int, b as int),
{
    let mut out: Vec<char> = Vec::new();
    let mut k = a;
    while k < b
        invariant
            a <= k <= b <= cs@.len(),
            out@ == cs@.subrange(a as int, k as int),
        decreases b - k,
    {
        out.push(cs[k]);
        k = k + 1;
        proof {
            assert(cs@.subrange(a as int, k as int) =~= cs@.subrange(a as int, k as int - 1).push(
                cs@[k as int - 1],
            ));
        }
    }
    crate::ser::chars_to_string(&out)
}

/// Finds the end of the digit run at `i`.
fn digits_end(cs: &Vec<char>, i: usize) -> (r: usize)
    requires
        i <= cs@.len(),
    ensures
        r as int == sp_digits_end(cs@, i as int),
        r as int == clamp_idx(sp_digits_end(cs@, i as int), i as int, cs@),
        i <= r <= cs@.len(),
{
    let mut j = i;
    while j < cs.len() && 48 <= (cs[j] as u32) && (cs[j] as u32) <= 57
        invariant
            i <= j <= cs@.len(),
            sp_digits_end(cs@, i as int) == sp_digits_end(cs@, j as int),
        decreases cs@.len() - j,
    {
        proof {
            assert(is_digit(cs@[j as int]));
            assert(sp_digits_end(cs@, j as int) == sp_digits_end(cs@, j as int + 1));
        }
        j = j + 1;
    }
    proof {
        assert(sp_digits_end(cs@, j as int) == j as int);
    }
    j
}

/// Reads a JSON number at `i`, keeping its lexeme.
fn p_number(cs: &Vec<char>, i: usize) -> (r: Option<(JsonValue, usize)>)
    requires
        i < cs@.len(),
    ensures
        ({
            let sp = sp_number(cs@, i as int);
            match r {
                Some(p) => sp matches Some(q) && q.0 == p.0@ && q.1 == p.1 as int && i < p.1
                    <= cs@.len(),
                None => sp is None,
            }
        }),
{
    let n = cs.len();
    let neg = cs[i] == '-';
    let i0: usize = if neg {
        i + 1
    } else {
        i
    };
    let j1 = digits_end(cs, i0);
    if j1 == i0 {
        return None;
    }
    let mut j2 = j1;
    if j1 < n && cs[j1] == '.' {
        let f = digits_end(cs, j1 + 1);
        if f == j1 + 1 {
            return None;
        }
        j2 = f;
    }
    let mut j3 = j2;
    if j2 < n && (cs[j2] == 'e' || cs[j2] == 'E') {
        let m0: usize = if j2 + 1 < n && (cs[j2 + 1] == '+' || cs[j2 + 1] == '-') {
            j2 + 2
        } else {
            j2 + 1
        };
        let e = digits_end(cs, m0);
        if e == m0 {
            return None;
        }
        j3 = e;
    }
    let lex = chars_range_to_string(cs, i, j3);
    Some((JsonValue::Num(lex), j3))
}


/// Reads one JSON value at `i` (no leading whitespace).
#[verifier::loop_isolation(false)]
#[verifier::rlimit(100)]
fn p_value(cs: &Vec<char>, i: usize) -> (r: Option<(JsonValue, usize)>)
    requires
        i <= cs@.len(),
    ensures
        ({
            let sp = sp_value(cs@, i as int);
            match r {
                Some(p) => sp matches Some(q) && q.0 == p.0@ && q.1 == p.1 as int && i < p.1
                    <= cs@.len(),
                None => sp is None,
            }
        }),
    decreases cs@.len() - i,
{
    let n = cs.len();
    if i >= n {
        return None;
    }
    let c = cs[i];
    if c == 'n' {
        if n - i >= 4 && cs[i + 1] == 'u' && cs[i + 2] == 'l' && cs[i + 3] == 'l' {
            Some((JsonValue::Null, i + 4))
        } else {
            None
        }
    } else if c == 't' {
        if n - i >= 4 && cs[i + 1] == 'r' && cs[i + 2] == 'u' && cs[i + 3] == 'e' {
            Some((JsonValue::Bool(true), i + 4))
        } else {
            None
        }
    } else if c == 'f' {
        if n - i >= 5 && cs[i + 1] == 'a' && cs[i + 2] == 'l' && cs[i + 3] == 's' && cs[i + 4]
            == 'e' {
            Some((JsonValue::Bool(false), i + 5))
        } else {
            None
        }
    } else if c == '"' {
        match p_string(cs, i + 1) {
            None => None,
            Some((t, j)) => Some((JsonValue::Str(crate::ser::chars_to_string(&t)), j)),
        }
    } else if c == '-' || (48 <= (c as u32) && (c as u32) <= 57) {
        p_number(cs, i)
    } else if c == '[' {
        let start = ws_end(cs, i + 1);
        if start < n && cs[start] == ']' {
            let empty: Vec<JsonValue> = Vec::new();
            return Some((JsonValue::Arr(empty), start + 1));
        }
        let ghost i0 = start as int;
        proof {
            assert forall|p0: Seq<JsonData>| Seq::<JsonData>::empty() + p0 =~= p0 by {}
        }
        let mut cur = start;
        let mut acc: Vec<JsonValue> = Vec::new();
        loop
            invariant
                i0 <= cur as int <= cs@.len(),
                (i as int) < cur as int,
                sp_elems(cs@, cur as int) is None ==> sp_elems(cs@, i0) is None,
                sp_elems(cs@, cur as int) matches Some(p) ==> sp_elems(cs@, i0) matches Some(q)
                    && q.0 == crate::json::jv_seq(acc@) + p.0 && q.1 == p.1,
            decreases cs@.len() - cur,
        {
            let (v, j) = match p_value(cs, cur) {
                None => return None,
                Some(p) => p,
            };
            let cur2 = ws_end(cs, j);
            let ghost acc0 = acc@;
            if cur2 < n && cs[cur2] == ']' {
                acc.push(v);
                proof {
                    assert(acc@.drop_last() =~= acc0);
                    assert(crate::json::jv_seq(acc@) == crate::json::jv_seq(acc0).push(v@));
                    assert(crate::json::jv_seq(acc0) + seq![v@] =~= crate::json::jv_seq(acc0).push(
                        v@,
                    ));
                }
                return Some((JsonValue::Arr(acc), cur2 + 1));
            } else if cur2 < n && cs[cur2] == ',' {
                let next = ws_end(cs, cur2 + 1);
                acc.push(v);
                proof {
                    assert(acc@.drop_last() =~= acc0);
                    assert(crate::json::jv_seq(acc@) == crate::json::jv_seq(acc0).push(v@));
                    assert forall|p0: Seq<JsonData>|
                        crate::json::jv_seq(acc0) + (seq![v@] + p0) =~= crate::json::jv_seq(acc@)
                            + p0 by {}
                }
                cur = next;
            } else {
                return None;
            }
        }
    } else if c == '{' {
        let start = ws_end(cs, i + 1);
        if start < n && cs[start] == '}' {
            let empty: Vec<(String, JsonValue)> = Vec::new();
            return Some((JsonValue::Obj(empty), start + 1));
        }
        let ghost i0 = start as int;
        proof {
            assert forall|p0: Seq<(Seq<char>, JsonData)>|
                Seq::<(Seq<char>, JsonData)>::empty() + p0 =~= p0 by {}
        }
        let mut cur = start;
        let mut acc: Vec<(String, JsonValue)> = Vec::new();
        loop
            invariant
                i0 <= cur as int <= cs@.len(),
                (i as int) < cur as int,
                sp_members(cs@, cur as int) is None ==> sp_members(cs@, i0) is None,
                sp_members(cs@, cur as int) matches Some(p) ==> sp_members(cs@, i0) matches Some(
                    q,
                ) && q.0 == crate::json::jv_fields(acc@) + p.0 && q.1 == p.1,
            decreases cs@.len() - cur,
        {
            if cur >= n {
                return None;
            }
            if cs[cur] != '"' {
                return None;
            }
            let (kchars, j0) = match p_string(cs, cur + 1) {
                None => return None,
                Some(p) => p,
            };
            let j = ws_end(cs, j0);
            if j >= n {
                return None;
            }
            if cs[j] != ':' {
                return None;
            }
            let k0 = ws_end(cs, j + 1);
            let (v, m0) = match p_value(cs, k0) {
                None => return None,
                Some(p) => p,
            };
            let m = ws_end(cs, m0);
            let key = crate::ser::chars_to_string(&kchars);
            let ghost acc0 = acc@;
            if m < n && cs[m] == '}' {
                acc.push((key, v));
                proof {
                    assert(acc@.drop_last() =~= acc0);
                    assert(crate::json::jv_fields(acc@) == crate::json::jv_fields(acc0).push(
                        (kchars@, v@),
                    ));
                    assert(crate::json::jv_fields(acc0) + seq![(kchars@, v@)]
                        =~= crate::json::jv_fields(acc0).push((kchars@, v@)));
                }
                return Some((JsonValue::Obj(acc), m + 1));
            } else if m < n && cs[m] == ',' {
                let next = ws_end(cs, m + 1);
                acc.push((key, v));
                proof {
                    assert(acc@.drop_last() =~= acc0);
                    assert(crate::json::jv_fields(acc@) == crate::json::jv_fields(acc0).push(
                        (kchars@, v@),
                    ));
                    assert forall|p0: Seq<(Seq<char>, JsonData)>|
                        crate::json::jv_fields(acc0) + (seq![(kchars@, v@)] + p0)
                            =~= crate::json::jv_fields(acc@) + p0 by {}
                }
                cur = next;
            } else {
                return None;
            }
        }
    } else {
        None
    }
}

/// Parses a JSON text: the result is the parsed document exactly when the
/// text is one JSON value surrounded by whitespace only, with integer
/// numbers that fit in the library's representation.
pub fn parse_json_text(s: &str) -> (r: Option<JsonValue>)
    ensures
        r matches Some(v) ==> parse_spec(s@) == Some(v@),
        r is None ==> parse_spec(s@) is None,
{
    let cs = str_to_chars(s);
    let start = ws_end(&cs, 0);
    let (v, j) = match p_value(&cs, start) {
        None => return None,
        Some(p) => p,
    };
    let k = ws_end(&cs, j);
    if k == cs.len() {
        Some(v)
    } else {
        None
    }
}

} // verus!
