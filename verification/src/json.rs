//! A small JSON reader for the flat documents this service exchanges:
//! objects whose values are scalars (string, integer, boolean, null) or
//! arrays of scalars, and top-level arrays of scalars.
//!
//! The grammar is stated as specification-level parsing functions over
//! character sequences; each executable parser returns exactly what the
//! specification parser denotes. Strings know the standard escapes,
//! including `\uXXXX` with surrogate pairs; integers must fit an `i64`
//! and carry no leading zero.
use vstd::prelude::*;

use crate::criteria::{digit_val, is_digit_char};

verus! {

/// A scalar JSON value.
pub enum JsonScalar {
    Null,
    Bool(bool),
    Int(i64),
    Str(Vec<char>),
}

/// Mathematical value of a scalar.
pub enum JsonScalarV {
    Null,
    Bool(bool),
    Int(i64),
    Str(Seq<char>),
}

impl View for JsonScalar {
    type V = JsonScalarV;

    open spec fn view(&self) -> JsonScalarV {
        match self {
            JsonScalar::Null => JsonScalarV::Null,
            JsonScalar::Bool(b) => JsonScalarV::Bool(*b),
            JsonScalar::Int(n) => JsonScalarV::Int(*n),
            JsonScalar::Str(s) => JsonScalarV::Str(s@),
        }
    }
}

/// A value of a flat object: a scalar or an array of scalars.
pub enum JsonValue {
    Scalar(JsonScalar),
    Arr(Vec<JsonScalar>),
}

/// Mathematical value of a `JsonValue`.
pub enum JsonValueV {
    Scalar(JsonScalarV),
    Arr(Seq<JsonScalarV>),
}

impl View for JsonValue {
    type V = JsonValueV;

    open spec fn view(&self) -> JsonValueV {
        match self {
            JsonValue::Scalar(s) => JsonValueV::Scalar(s@),
            JsonValue::Arr(v) => JsonValueV::Arr(v@.map_values(|x: JsonScalar| x@)),
        }
    }
}

/// JSON whitespace.
pub open spec fn is_ws(c: char) -> bool {
    c == ' ' || c == '\t' || c == '\n' || c == '\r'
}

/// First position at or after `i` that does not hold whitespace.
pub open spec fn skip_ws(s: Seq<char>, i: int) -> int
    decreases s.len() - i when 0 <= i <= s.len()
{
    if i < s.len() && is_ws(s[i]) {
        skip_ws(s, i + 1)
    } else {
        i
    }
}

pub proof fn lemma_skip_ws(s: Seq<char>, i: int)
    requires
        0 <= i <= s.len(),
    ensures
        i <= skip_ws(s, i) <= s.len(),
        skip_ws(s, i) < s.len() ==> !is_ws(s[skip_ws(s, i)]),
    decreases s.len() - i,
{
    if i < s.len() && is_ws(s[i]) {
        lemma_skip_ws(s, i + 1);
    }
}

/// Value of a hexadecimal digit character, or -1.
pub open spec fn hex_val(c: char) -> int {
    if '0' <= c && c <= '9' {
        c as u32 - 48
    } else if 'a' <= c && c <= 'f' {
        c as u32 - 87
    } else if 'A' <= c && c <= 'F' {
        c as u32 - 55
    } else {
        -1
    }
}

/// A hexadecimal digit character.
pub open spec fn is_hex_char(c: char) -> bool {
    hex_val(c) >= 0
}

/// The four-digit hexadecimal escape value at `i` (after `\u`), or none.
pub open spec fn hex4_at(s: Seq<char>, i: int) -> Option<int> {
    if i + 4 <= s.len() && is_hex_char(s[i]) && is_hex_char(s[i + 1]) && is_hex_char(s[i + 2])
        && is_hex_char(s[i + 3]) {
        Some(hex_val(s[i]) * 4096 + hex_val(s[i + 1]) * 256 + hex_val(s[i + 2]) * 16 + hex_val(
            s[i + 3],
        ))
    } else {
        None
    }
}

/// A leading UTF-16 surrogate value.
pub open spec fn is_high_surrogate(v: int) -> bool {
    0xD800 <= v < 0xDC00
}

/// A trailing UTF-16 surrogate value.
pub open spec fn is_low_surrogate(v: int) -> bool {
    0xDC00 <= v < 0xE000
}

/// The escape sequence starting at the backslash at `i`: the character it
/// denotes and the position after it.
pub open spec fn parse_escape(s: Seq<char>, i: int) -> Option<(char, int)> {
    if i + 2 > s.len() {
        None
    } else {
        let e = s[i + 1];
        if e == '"' {
            Some(('"', i + 2))
        } else if e == '\\' {
            Some(('\\', i + 2))
        } else if e == '/' {
            Some(('/', i + 2))
        } else if e == 'b' {
            Some(('\u{8}', i + 2))
        } else if e == 'f' {
            Some(('\u{c}', i + 2))
        } else if e == 'n' {
            Some(('\n', i + 2))
        } else if e == 'r' {
            Some(('\r', i + 2))
        } else if e == 't' {
            Some(('\t', i + 2))
        } else if e == 'u' {
            match hex4_at(s, i + 2) {
                None => None,
                Some(v) => {
                    if is_low_surrogate(v) {
                        None
                    } else if is_high_surrogate(v) {
                        if i + 8 <= s.len() && s[i + 6] == '\\' && s[i + 7] == 'u' {
                            match hex4_at(s, i + 8) {
                                None => None,
                                Some(w) => {
                                    if is_low_surrogate(w) {
                                        let cp = 0x10000 + (v - 0xD800) * 0x400 + (w - 0xDC00);
                                        Some(((cp as u32) as char, i + 12))
                                    } else {
                                        None
                                    }
                                },
                            }
                        } else {
                            None
                        }
                    } else {
                        Some(((v as u32) as char, i + 6))
                    }
                },
            }
        } else {
            None
        }
    }
}

/// A character a JSON string may hold unescaped.
pub open spec fn is_plain_char(c: char) -> bool {
    c != '"' && c != '\\' && (c as u32) >= 0x20
}

/// The string body starting at `i` (just inside the opening quote): the
/// denoted characters and the position after the closing quote.
pub open spec fn parse_string_body(s: Seq<char>, i: int) -> Option<(Seq<char>, int)>
    decreases s.len() - i when 0 <= i <= s.len()
{
    if i >= s.len() {
        None
    } else if s[i] == '"' {
        Some((Seq::empty(), i + 1))
    } else if s[i] == '\\' {
        match parse_escape(s, i) {
            None => None,
            Some((c, j)) => {
                if j <= i || j > s.len() {
                    None
                } else {
                    match parse_string_body(s, j) {
                        None => None,
                        Some((rest, k)) => Some((seq![c] + rest, k)),
                    }
                }
            },
        }
    } else if is_plain_char(s[i]) {
        match parse_string_body(s, i + 1) {
            None => None,
            Some((rest, k)) => Some((seq![s[i]] + rest, k)),
        }
    } else {
        None
    }
}

/// A quoted string at `i`: its characters and the position after it.
pub open spec fn parse_string(s: Seq<char>, i: int) -> Option<(Seq<char>, int)> {
    if 0 <= i < s.len() && s[i] == '"' {
        parse_string_body(s, i + 1)
    } else {
        None
    }
}

/// End of the digit run starting at `i`.
pub open spec fn digit_run_end(s: Seq<char>, i: int) -> int
    decreases s.len() - i when 0 <= i <= s.len()
{
    if i < s.len() && is_digit_char(s[i]) {
        digit_run_end(s, i + 1)
    } else {
        i
    }
}

pub proof fn lemma_digit_run_end(s: Seq<char>, i: int)
    requires
        0 <= i <= s.len(),
    ensures
        i <= digit_run_end(s, i) <= s.len(),
        forall|k: int| i <= k < digit_run_end(s, i) ==> is_digit_char(#[trigger] s[k]),
        digit_run_end(s, i) < s.len() ==> !is_digit_char(s[digit_run_end(s, i)]),
    decreases s.len() - i,
{
    if i < s.len() && is_digit_char(s[i]) {
        lemma_digit_run_end(s, i + 1);
    }
}

/// Value of the digit run `s[i..j]`, most significant digit first.
pub open spec fn dec_val(s: Seq<char>, i: int, j: int) -> int
    decreases j - i when 0 <= i <= j <= s.len()
{
    if i >= j {
        0
    } else {
        dec_val(s, i, j - 1) * 10 + digit_val(s[j - 1])
    }
}

/// The integer at `i`: an optional minus sign and a digit run without a
/// leading zero, whose value fits an `i64`; and the position after it.
pub open spec fn parse_int(s: Seq<char>, i: int) -> Option<(i64, int)> {
    if !(0 <= i < s.len()) {
        None
    } else {
        let neg = s[i] == '-';
        let d0 = if neg {
            i + 1
        } else {
            i
        };
        let j = digit_run_end(s, d0);
        if j == d0 {
            None
        } else if s[d0] == '0' && j > d0 + 1 {
            None
        } else {
            let mag = dec_val(s, d0, j);
            let v = if neg {
                -mag
            } else {
                mag
            };
            if i64::MIN <= v <= i64::MAX {
                Some((v as i64, j))
            } else {
                None
            }
        }
    }
}

/// Whether the literal `lit` stands at `i`.
pub open spec fn lit_at(s: Seq<char>, i: int, lit: Seq<char>) -> bool {
    0 <= i && i + lit.len() <= s.len() && s.subrange(i, i + lit.len() as int) == lit
}

/// The scalar at `i`: a string, an integer, `true`, `false` or `null`.
pub open spec fn parse_scalar(s: Seq<char>, i: int) -> Option<(JsonScalarV, int)> {
    if !(0 <= i < s.len()) {
        None
    } else if s[i] == '"' {
        match parse_string(s, i) {
            None => None,
            Some((t, j)) => Some((JsonScalarV::Str(t), j)),
        }
    } else if s[i] == '-' || is_digit_char(s[i]) {
        match parse_int(s, i) {
            None => None,
            Some((v, j)) => Some((JsonScalarV::Int(v), j)),
        }
    } else if lit_at(s, i, seq!['t', 'r', 'u', 'e']) {
        Some((JsonScalarV::Bool(true), i + 4))
    } else if lit_at(s, i, seq!['f', 'a', 'l', 's', 'e']) {
        Some((JsonScalarV::Bool(false), i + 5))
    } else if lit_at(s, i, seq!['n', 'u', 'l', 'l']) {
        Some((JsonScalarV::Null, i + 4))
    } else {
        None
    }
}

/// The items of a scalar array, `i` standing at the first item: the items
/// and the position after the closing bracket.
pub open spec fn parse_arr_items(s: Seq<char>, i: int) -> Option<(Seq<JsonScalarV>, int)>
    decreases s.len() - i when 0 <= i <= s.len()
{
    match parse_scalar(s, i) {
        None => None,
        Some((v, j)) => {
            if j < i || j > s.len() {
                None
            } else {
                let k = skip_ws(s, j);
                if k < s.len() && s[k] == ',' {
                    let m = skip_ws(s, k + 1);
                    if m <= i || m > s.len() {
                        None
                    } else {
                        match parse_arr_items(s, m) {
                            None => None,
                            Some((rest, e)) => Some((seq![v] + rest, e)),
                        }
                    }
                } else if k < s.len() && s[k] == ']' {
                    Some((seq![v], k + 1))
                } else {
                    None
                }
            }
        },
    }
}

/// A scalar array at `i`: its items and the position after it.
pub open spec fn parse_array(s: Seq<char>, i: int) -> Option<(Seq<JsonScalarV>, int)> {
    if 0 <= i < s.len() && s[i] == '[' {
        let j = skip_ws(s, i + 1);
        if j < s.len() && s[j] == ']' {
            Some((Seq::empty(), j + 1))
        } else {
            parse_arr_items(s, j)
        }
    } else {
        None
    }
}

/// A value of a flat object at `i`: a scalar or a scalar array.
pub open spec fn parse_value(s: Seq<char>, i: int) -> Option<(JsonValueV, int)> {
    if 0 <= i < s.len() && s[i] == '[' {
        match parse_array(s, i) {
            None => None,
            Some((items, j)) => Some((JsonValueV::Arr(items), j)),
        }
    } else {
        match parse_scalar(s, i) {
            None => None,
            Some((v, j)) => Some((JsonValueV::Scalar(v), j)),
        }
    }
}

/// The members of an object, `i` standing at the first key: the key/value
/// pairs and the position after the closing brace.
pub open spec fn parse_members(s: Seq<char>, i: int) -> Option<
    (Seq<(Seq<char>, JsonValueV)>, int),
>
    decreases s.len() - i when 0 <= i <= s.len()
{
    match parse_string(s, i) {
        None => None,
        Some((key, j)) => {
            if j < i || j > s.len() {
                None
            } else {
                let k = skip_ws(s, j);
                if k < s.len() && s[k] == ':' {
                    let m = skip_ws(s, k + 1);
                    if m > s.len() {
                        None
                    } else {
                        match parse_value(s, m) {
                            None => None,
                            Some((v, e)) => {
                                if e < m || e > s.len() {
                                    None
                                } else {
                                    let n = skip_ws(s, e);
                                    if n < s.len() && s[n] == ',' {
                                        let m2 = skip_ws(s, n + 1);
                                        if m2 <= i || m2 > s.len() {
                                            None
                                        } else {
                                            match parse_members(s, m2) {
                                                None => None,
                                                Some((rest, e2)) => Some(
                                                    (seq![(key, v)] + rest, e2),
                                                ),
                                            }
                                        }
                                    } else if n < s.len() && s[n] == '}' {
                                        Some((seq![(key, v)], n + 1))
                                    } else {
                                        None
                                    }
                                }
                            },
                        }
                    }
                } else {
                    None
                }
            }
        },
    }
}

/// A whole document that is one flat object, surrounding whitespace
/// allowed: its key/value pairs in order.
pub open spec fn object_doc(s: Seq<char>) -> Option<Seq<(Seq<char>, JsonValueV)>> {
    let i = skip_ws(s, 0);
    if i < s.len() && s[i] == '{' {
        let j = skip_ws(s, i + 1);
        if j < s.len() && s[j] == '}' {
            if skip_ws(s, j + 1) == s.len() {
                Some(Seq::empty())
            } else {
                None
            }
        } else {
            match parse_members(s, j) {
                None => None,
                Some((ps, e)) => {
                    if 0 <= e <= s.len() && skip_ws(s, e) == s.len() {
                        Some(ps)
                    } else {
                        None
                    }
                },
            }
        }
    } else {
        None
    }
}

/// A whole document that is one scalar array, surrounding whitespace
/// allowed: its items in order.
pub open spec fn array_doc(s: Seq<char>) -> Option<Seq<JsonScalarV>> {
    let i = skip_ws(s, 0);
    match parse_array(s, i) {
        None => None,
        Some((items, e)) => {
            if 0 <= e <= s.len() && skip_ws(s, e) == s.len() {
                Some(items)
            } else {
                None
            }
        },
    }
}

/// The values of a sequence of scalars.
pub open spec fn scal_views(s: Seq<JsonScalar>) -> Seq<JsonScalarV> {
    s.map_values(|x: JsonScalar| x@)
}

/// The values of a sequence of key/value pairs.
pub open spec fn pair_views(s: Seq<(Vec<char>, JsonValue)>) -> Seq<(Seq<char>, JsonValueV)> {
    s.map_values(|p: (Vec<char>, JsonValue)| (p.0@, p.1@))
}

pub proof fn lemma_parse_string_body_bounds(s: Seq<char>, i: int)
    requires
        0 <= i <= s.len(),
    ensures
        parse_string_body(s, i) matches Some(r) ==> i < r.1 <= s.len(),
    decreases s.len() - i,
{
    if i < s.len() && s[i] == '\\' {
        match parse_escape(s, i) {
            None => {},
            Some((c, j)) => {
                if i < j <= s.len() {
                    lemma_parse_string_body_bounds(s, j);
                }
            },
        }
    } else if i < s.len() && is_plain_char(s[i]) {
        lemma_parse_string_body_bounds(s, i + 1);
    }
}

pub proof fn lemma_parse_scalar_bounds(s: Seq<char>, i: int)
    requires
        0 <= i <= s.len(),
    ensures
        parse_scalar(s, i) matches Some(r) ==> i < r.1 <= s.len(),
{
    if 0 <= i < s.len() {
        if s[i] == '"' {
            lemma_parse_string_body_bounds(s, i + 1);
        } else if s[i] == '-' || is_digit_char(s[i]) {
            let d0 = if s[i] == '-' {
                i + 1
            } else {
                i
            };
            if d0 <= s.len() {
                lemma_digit_run_end(s, d0);
            }
        }
    }
}

fn skip_ws_exec(s: &Vec<char>, i: usize) -> (j: usize)
    requires
        i <= s@.len(),
    ensures
        j as int == skip_ws(s@, i as int),
        i <= j <= s@.len(),
{
    let mut j = i;
    while j < s.len() && (s[j] == ' ' || s[j] == '\t' || s[j] == '\n' || s[j] == '\r')
        invariant
            i <= j <= s@.len(),
            skip_ws(s@, i as int) == skip_ws(s@, j as int),
        decreases s@.len() - j,
    {
        j += 1;
    }
    proof {
        lemma_skip_ws(s@, j as int);
    }
    j
}

fn hex_digit_val(c: char) -> (r: Option<u32>)
    ensures
        r matches Some(v) ==> is_hex_char(c) && v as int == hex_val(c) && v < 16,
        r is None ==> !is_hex_char(c),
{
    if '0' <= c && c <= '9' {
        Some((c as u32) - 48)
    } else if 'a' <= c && c <= 'f' {
        Some((c as u32) - 87)
    } else if 'A' <= c && c <= 'F' {
        Some((c as u32) - 55)
    } else {
        None
    }
}

fn hex4_exec(s: &Vec<char>, i: usize) -> (r: Option<u32>)
    requires
        i <= s@.len(),
    ensures
        r matches Some(v) ==> hex4_at(s@, i as int) == Some(v as int) && v < 0x10000,
        r is None ==> hex4_at(s@, i as int) is None,
{
    if s.len() - i < 4 {
        return None;
    }
    let a = hex_digit_val(s[i]);
    let b = hex_digit_val(s[i + 1]);
    let c = hex_digit_val(s[i + 2]);
    let d = hex_digit_val(s[i + 3]);
    match (a, b, c, d) {
        (Some(a), Some(b), Some(c), Some(d)) => Some(a * 4096 + b * 256 + c * 16 + d),
        _ => None,
    }
}

/// Relies on std's `char::from_u32`: it returns the character with the
/// given value exactly on Unicode scalar values, and nothing otherwise.
#[verifier::external_body]
pub(crate) fn char_from_u32(x: u32) -> (r: Option<char>)
    ensures
        r matches Some(c) ==> c as u32 == x,
        (x < 0xD800 || (0xE000 <= x && x <= 0x10FFFF)) <==> r is Some,
{
    char::from_u32(x)
}

fn parse_escape_exec(s: &Vec<char>, i: usize) -> (r: Option<(char, usize)>)
    requires
        i <= s@.len(),
    ensures
        r matches Some(p) ==> parse_escape(s@, i as int) == Some((p.0, p.1 as int)) && i < p.1
            <= s@.len(),
        r is None ==> parse_escape(s@, i as int) is None,
{
    if s.len() - i < 2 {
        return None;
    }
    let e = s[i + 1];
    if e == '"' {
        Some(('"', i + 2))
    } else if e == '\\' {
        Some(('\\', i + 2))
    } else if e == '/' {
        Some(('/', i + 2))
    } else if e == 'b' {
        Some(('\u{8}', i + 2))
    } else if e == 'f' {
        Some(('\u{c}', i + 2))
    } else if e == 'n' {
        Some(('\n', i + 2))
    } else if e == 'r' {
        Some(('\r', i + 2))
    } else if e == 't' {
        Some(('\t', i + 2))
    } else if e == 'u' {
        match hex4_exec(s, i + 2) {
            None => None,
            Some(v) => {
                if 0xDC00 <= v && v < 0xE000 {
                    None
                } else if 0xD800 <= v && v < 0xDC00 {
                    if s.len() - i < 8 || s[i + 6] != '\\' || s[i + 7] != 'u' {
                        None
                    } else {
                        match hex4_exec(s, i + 8) {
                            None => None,
                            Some(w) => {
                                if 0xDC00 <= w && w < 0xE000 {
                                    let cp: u32 = 0x10000 + (v - 0xD800) * 0x400 + (w - 0xDC00);
                                    match char_from_u32(cp) {
                                        Some(c) => {
                                            proof {
                                                vstd::utf8::char_u32_cast(c, cp);
                                            }
                                            Some((c, i + 12))
                                        },
                                        None => None,
                                    }
                                } else {
                                    None
                                }
                            },
                        }
                    }
                } else {
                    match char_from_u32(v) {
                        Some(c) => {
                            proof {
                                vstd::utf8::char_u32_cast(c, v);
                            }
                            Some((c, i + 6))
                        },
                        None => None,
                    }
                }
            },
        }
    } else {
        None
    }
}

fn parse_string_body_exec(s: &Vec<char>, i: usize) -> (r: Option<(Vec<char>, usize)>)
    requires
        i <= s@.len(),
    ensures
        r matches Some(p) ==> parse_string_body(s@, i as int) == Some((p.0@, p.1 as int)) && i
            < p.1 <= s@.len(),
        r is None ==> parse_string_body(s@, i as int) is None,
{
    let mut acc: Vec<char> = Vec::new();
    let mut cur = i;
    loop
        invariant
            i <= cur <= s@.len(),
            (parse_string_body(s@, cur as int) matches Some(p) ==> parse_string_body(
                s@,
                i as int,
            ) == Some((acc@ + p.0, p.1))),
            (parse_string_body(s@, cur as int) is None ==> parse_string_body(s@, i as int)
                is None),
        decreases s@.len() - cur,
    {
        if cur == s.len() {
            return None;
        }
        let c = s[cur];
        if c == '"' {
            proof {
                assert(acc@ + Seq::<char>::empty() =~= acc@);
            }
            return Some((acc, cur + 1));
        } else if c == '\\' {
            match parse_escape_exec(s, cur) {
                None => {
                    return None;
                },
                Some((ec, j)) => {
                    let ghost prev = acc@;
                    acc.push(ec);
                    proof {
                        assert forall|rest: Seq<char>, end: int|
                            parse_string_body(s@, j as int) == Some::<(Seq<char>, int)>(
                                (rest, end),
                            ) implies acc@ + rest == prev + (seq![ec] + rest) by {
                            assert(acc@ + rest =~= prev + (seq![ec] + rest));
                        }
                        assert(acc@ =~= prev + seq![ec]);
                    }
                    cur = j;
                },
            }
        } else if c != '\\' && (c as u32) >= 0x20 {
            let ghost prev = acc@;
            acc.push(c);
            proof {
                assert(acc@ =~= prev + seq![c]);
            }
            cur = cur + 1;
        } else {
            return None;
        }
    }
}

fn parse_string_exec(s: &Vec<char>, i: usize) -> (r: Option<(Vec<char>, usize)>)
    requires
        i <= s@.len(),
    ensures
        r matches Some(p) ==> parse_string(s@, i as int) == Some((p.0@, p.1 as int)) && i < p.1
            <= s@.len(),
        r is None ==> parse_string(s@, i as int) is None,
{
    if i < s.len() && s[i] == '"' {
        parse_string_body_exec(s, i + 1)
    } else {
        None
    }
}

fn digit_exec(c: char) -> (b: bool)
    ensures
        b == is_digit_char(c),
{
    '0' <= c && c <= '9'
}

pub(crate) fn parse_int_exec(s: &Vec<char>, i: usize) -> (r: Option<(i64, usize)>)
    requires
        i <= s@.len(),
    ensures
        r matches Some(p) ==> parse_int(s@, i as int) == Some((p.0, p.1 as int)) && i < p.1
            <= s@.len(),
        r is None ==> parse_int(s@, i as int) is None,
{
    if i == s.len() {
        return None;
    }
    let neg = s[i] == '-';
    let d0: usize = if neg {
        i + 1
    } else {
        i
    };
    if d0 == s.len() {
        return None;
    }
    if !digit_exec(s[d0]) {
        return None;
    }
    proof {
        lemma_digit_run_end(s@, d0 as int);
    }
    if s[d0] == '0' && d0 + 1 < s.len() && digit_exec(s[d0 + 1]) {
        proof {
            lemma_digit_run_end(s@, d0 as int + 2);
            assert(digit_run_end(s@, d0 as int) == digit_run_end(s@, d0 as int + 2));
        }
        return None;
    }
    let mut acc: u128 = 0;
    let mut too_big = false;
    let mut cur: usize = d0;
    while cur < s.len() && digit_exec(s[cur])
        invariant
            d0 <= cur <= s@.len(),
            digit_run_end(s@, d0 as int) == digit_run_end(s@, cur as int),
            forall|m: int| d0 <= m < cur ==> is_digit_char(#[trigger] s@[m]),
            !too_big ==> acc as int == dec_val(s@, d0 as int, cur as int) && acc
                < 0x10000000000000000u128,
            too_big ==> dec_val(s@, d0 as int, cur as int) >= 0x10000000000000000,
        decreases s@.len() - cur,
    {
        let ghost old_val = dec_val(s@, d0 as int, cur as int);
        let d: u32 = (s[cur] as u32) - 48;
        if !too_big {
            acc = acc * 10 + (d as u128);
            if acc >= 0x10000000000000000u128 {
                too_big = true;
            }
        } else {
            proof {
                assert(digit_val(s@[cur as int]) >= 0);
            }
        }
        cur += 1;
        proof {
            assert(dec_val(s@, d0 as int, cur as int) == old_val * 10 + digit_val(
                s@[cur as int - 1],
            ));
        }
    }
    proof {
        lemma_digit_run_end(s@, cur as int);
        assert(digit_run_end(s@, cur as int) == cur as int);
        assert(cur as int == digit_run_end(s@, d0 as int));
    }
    if too_big {
        return None;
    }
    if neg {
        if acc > 0x8000000000000000u128 {
            return None;
        }
        let v: i64 = (-(acc as i128)) as i64;
        Some((v, cur))
    } else {
        if acc > 0x7FFFFFFFFFFFFFFFu128 {
            return None;
        }
        Some((acc as i64, cur))
    }
}

fn parse_scalar_exec(s: &Vec<char>, i: usize) -> (r: Option<(JsonScalar, usize)>)
    requires
        i <= s@.len(),
    ensures
        r matches Some(p) ==> parse_scalar(s@, i as int) == Some((p.0@, p.1 as int)) && i < p.1
            <= s@.len(),
        r is None ==> parse_scalar(s@, i as int) is None,
{
    if i == s.len() {
        return None;
    }
    let c = s[i];
    if c == '"' {
        match parse_string_exec(s, i) {
            None => None,
            Some((t, j)) => Some((JsonScalar::Str(t), j)),
        }
    } else if c == '-' || digit_exec(c) {
        match parse_int_exec(s, i) {
            None => None,
            Some((v, j)) => Some((JsonScalar::Int(v), j)),
        }
    } else if s.len() - i >= 4 && s[i] == 't' && s[i + 1] == 'r' && s[i + 2] == 'u' && s[i + 3]
        == 'e' {
        proof {
            assert(s@.subrange(i as int, i as int + 4) =~= seq!['t', 'r', 'u', 'e']);
        }
        Some((JsonScalar::Bool(true), i + 4))
    } else if s.len() - i >= 5 && s[i] == 'f' && s[i + 1] == 'a' && s[i + 2] == 'l' && s[i + 3]
        == 's' && s[i + 4] == 'e' {
        proof {
            assert(s@.subrange(i as int, i as int + 5) =~= seq!['f', 'a', 'l', 's', 'e']);
        }
        Some((JsonScalar::Bool(false), i + 5))
    } else if s.len() - i >= 4 && s[i] == 'n' && s[i + 1] == 'u' && s[i + 2] == 'l' && s[i + 3]
        == 'l' {
        proof {
            assert(s@.subrange(i as int, i as int + 4) =~= seq!['n', 'u', 'l', 'l']);
        }
        Some((JsonScalar::Null, i + 4))
    } else {
        proof {
            if lit_at(s@, i as int, seq!['t', 'r', 'u', 'e']) {
                assert(s@[i as int] == 't');
                assert(s@[i as int + 1] == 'r');
                assert(s@[i as int + 2] == 'u');
                assert(s@[i as int + 3] == 'e');
            }
            if lit_at(s@, i as int, seq!['f', 'a', 'l', 's', 'e']) {
                assert(s@[i as int] == 'f');
                assert(s@[i as int + 1] == 'a');
                assert(s@[i as int + 2] == 'l');
                assert(s@[i as int + 3] == 's');
                assert(s@[i as int + 4] == 'e');
            }
            if lit_at(s@, i as int, seq!['n', 'u', 'l', 'l']) {
                assert(s@[i as int] == 'n');
                assert(s@[i as int + 1] == 'u');
                assert(s@[i as int + 2] == 'l');
                assert(s@[i as int + 3] == 'l');
            }
        }
        None
    }
}

fn parse_arr_items_exec(s: &Vec<char>, i: usize) -> (r: Option<(Vec<JsonScalar>, usize)>)
    requires
        i <= s@.len(),
    ensures
        r matches Some(p) ==> parse_arr_items(s@, i as int) == Some((scal_views(p.0@), p.1 as int))
            && i < p.1 <= s@.len(),
        r is None ==> parse_arr_items(s@, i as int) is None,
{
    let mut acc: Vec<JsonScalar> = Vec::new();
    let mut cur = i;
    proof {
        assert(scal_views(acc@) =~= Seq::<JsonScalarV>::empty());
    }
    loop
        invariant
            i <= cur <= s@.len(),
            (parse_arr_items(s@, cur as int) matches Some(p) ==> parse_arr_items(s@, i as int)
                == Some((scal_views(acc@) + p.0, p.1))),
            (parse_arr_items(s@, cur as int) is None ==> parse_arr_items(s@, i as int) is None),
        decreases s@.len() - cur,
    {
        match parse_scalar_exec(s, cur) {
            None => {
                return None;
            },
            Some((v, j)) => {
                let ghost prev = acc@;
                let ghost vv = v@;
                let k = skip_ws_exec(s, j);
                if k < s.len() && s[k] == ',' {
                    let m = skip_ws_exec(s, k + 1);
                    acc.push(v);
                    proof {
                        assert(scal_views(acc@) =~= scal_views(prev) + seq![vv]);
                        assert forall|rest: Seq<JsonScalarV>, e: int|
                            parse_arr_items(s@, m as int) == Some::<(Seq<JsonScalarV>, int)>(
                                (rest, e),
                            ) implies scal_views(acc@) + rest == scal_views(prev) + (seq![vv]
                            + rest) by {
                            assert(scal_views(acc@) + rest =~= scal_views(prev) + (seq![vv]
                                + rest));
                        }
                    }
                    cur = m;
                } else if k < s.len() && s[k] == ']' {
                    acc.push(v);
                    proof {
                        assert(scal_views(acc@) =~= scal_views(prev) + seq![vv]);
                    }
                    return Some((acc, k + 1));
                } else {
                    return None;
                }
            },
        }
    }
}

fn parse_array_exec(s: &Vec<char>, i: usize) -> (r: Option<(Vec<JsonScalar>, usize)>)
    requires
        i <= s@.len(),
    ensures
        r matches Some(p) ==> parse_array(s@, i as int) == Some((scal_views(p.0@), p.1 as int))
            && i < p.1 <= s@.len(),
        r is None ==> parse_array(s@, i as int) is None,
{
    if i < s.len() && s[i] == '[' {
        let j = skip_ws_exec(s, i + 1);
        if j < s.len() && s[j] == ']' {
            let empty: Vec<JsonScalar> = Vec::new();
            proof {
                assert(scal_views(empty@) =~= Seq::<JsonScalarV>::empty());
            }
            Some((empty, j + 1))
        } else {
            parse_arr_items_exec(s, j)
        }
    } else {
        None
    }
}

fn parse_value_exec(s: &Vec<char>, i: usize) -> (r: Option<(JsonValue, usize)>)
    requires
        i <= s@.len(),
    ensures
        r matches Some(p) ==> parse_value(s@, i as int) == Some((p.0@, p.1 as int)) && i < p.1
            <= s@.len(),
        r is None ==> parse_value(s@, i as int) is None,
{
    if i < s.len() && s[i] == '[' {
        match parse_array_exec(s, i) {
            None => None,
            Some((items, j)) => Some((JsonValue::Arr(items), j)),
        }
    } else {
        match parse_scalar_exec(s, i) {
            None => None,
            Some((v, j)) => Some((JsonValue::Scalar(v), j)),
        }
    }
}

fn parse_members_exec(s: &Vec<char>, i: usize) -> (r: Option<
    (Vec<(Vec<char>, JsonValue)>, usize),
>)
    requires
        i <= s@.len(),
    ensures
        r matches Some(p) ==> parse_members(s@, i as int) == Some((pair_views(p.0@), p.1 as int))
            && i < p.1 <= s@.len(),
        r is None ==> parse_members(s@, i as int) is None,
{
    let mut acc: Vec<(Vec<char>, JsonValue)> = Vec::new();
    let mut cur = i;
    proof {
        assert(pair_views(acc@) =~= Seq::<(Seq<char>, JsonValueV)>::empty());
    }
    loop
        invariant
            i <= cur <= s@.len(),
            (parse_members(s@, cur as int) matches Some(p) ==> parse_members(s@, i as int) == Some(
                (pair_views(acc@) + p.0, p.1),
            )),
            (parse_members(s@, cur as int) is None ==> parse_members(s@, i as int) is None),
        decreases s@.len() - cur,
    {
        match parse_string_exec(s, cur) {
            None => {
                return None;
            },
            Some((key, j)) => {
                let k = skip_ws_exec(s, j);
                if !(k < s.len() && s[k] == ':') {
                    return None;
                }
                let m = skip_ws_exec(s, k + 1);
                match parse_value_exec(s, m) {
                    None => {
                        return None;
                    },
                    Some((v, e)) => {
                        let n = skip_ws_exec(s, e);
                        let ghost prev = acc@;
                        let ghost kv = (key@, v@);
                        if n < s.len() && s[n] == ',' {
                            let m2 = skip_ws_exec(s, n + 1);
                            acc.push((key, v));
                            proof {
                                assert(pair_views(acc@) =~= pair_views(prev) + seq![kv]);
                                assert forall|rest: Seq<(Seq<char>, JsonValueV)>, e2: int|
                                    parse_members(s@, m2 as int) == Some::<
                                        (Seq<(Seq<char>, JsonValueV)>, int),
                                    >((rest, e2)) implies pair_views(acc@) + rest == pair_views(
                                    prev,
                                ) + (seq![kv] + rest) by {
                                    assert(pair_views(acc@) + rest =~= pair_views(prev) + (
                                    seq![kv] + rest));
                                }
                            }
                            cur = m2;
                        } else if n < s.len() && s[n] == '}' {
                            acc.push((key, v));
                            proof {
                                assert(pair_views(acc@) =~= pair_views(prev) + seq![kv]);
                            }
                            return Some((acc, n + 1));
                        } else {
                            return None;
                        }
                    },
                }
            },
        }
    }
}

/// Reads a whole document that must be one flat object: its key/value
/// pairs in order, or `None` when the text is not such a document.
pub fn parse_object_doc(s: &Vec<char>) -> (r: Option<Vec<(Vec<char>, JsonValue)>>)
    ensures
        r matches Some(ps) ==> object_doc(s@) == Some(pair_views(ps@)),
        r is None ==> object_doc(s@) is None,
{
    let i = skip_ws_exec(s, 0);
    if !(i < s.len() && s[i] == '{') {
        return None;
    }
    let j = skip_ws_exec(s, i + 1);
    if j < s.len() && s[j] == '}' {
        let e = skip_ws_exec(s, j + 1);
        if e == s.len() {
            let empty: Vec<(Vec<char>, JsonValue)> = Vec::new();
            proof {
                assert(pair_views(empty@) =~= Seq::<(Seq<char>, JsonValueV)>::empty());
            }
            Some(empty)
        } else {
            None
        }
    } else {
        match parse_members_exec(s, j) {
            None => None,
            Some((ps, e)) => {
                let e2 = skip_ws_exec(s, e);
                if e2 == s.len() {
                    Some(ps)
                } else {
                    None
                }
            },
        }
    }
}

/// Reads a whole document that must be one scalar array: its items in
/// order, or `None` when the text is not such a document.
pub fn parse_array_doc(s: &Vec<char>) -> (r: Option<Vec<JsonScalar>>)
    ensures
        r matches Some(items) ==> array_doc(s@) == Some(scal_views(items@)),
        r is None ==> array_doc(s@) is None,
{
    let i = skip_ws_exec(s, 0);
    match parse_array_exec(s, i) {
        None => None,
        Some((items, e)) => {
            let e2 = skip_ws_exec(s, e);
            if e2 == s.len() {
                Some(items)
            } else {
                None
            }
        },
    }
}

} // verus!
