//! Character-level utilities shared by the whole library: conversions
//! between `String`, `Vec<char>` and ASCII bytes, decimal formatting,
//! ASCII case folding and case-insensitive substring search.
use vstd::prelude::*;

verus! {

/// The character is ASCII.
pub open spec fn is_ascii_char(c: char) -> bool {
    (c as u32) < 128
}

/// Every character of the sequence is ASCII.
pub open spec fn ascii_seq(s: Seq<char>) -> bool {
    forall|i: int| 0 <= i < s.len() ==> is_ascii_char(#[trigger] s[i])
}

/// ASCII bytes of an ASCII character sequence, one byte per character.
pub open spec fn ascii_bytes_of(s: Seq<char>) -> Seq<u8> {
    s.map_values(|c: char| c as u8)
}

/// Characters of a byte sequence, one character per byte (only meaningful
/// for bytes below 128).
pub open spec fn chars_of_bytes(b: Seq<u8>) -> Seq<char> {
    b.map_values(|x: u8| x as char)
}

proof fn lemma_ascii_char_round_trip(c: char)
    requires
        is_ascii_char(c),
    ensures
        (c as u8) as char == c,
{
    let x: u8 = c as u8;
    let c2 = x as char;
    assert(x as u32 == c as u32);
    assert(c2 as u32 == x as u32);
    vstd::utf8::char_u32_cast(c, c as u32);
    vstd::utf8::char_u32_cast(c2, c2 as u32);
}

pub proof fn lemma_ascii_round_trip(s: Seq<char>)
    requires
        ascii_seq(s),
    ensures
        chars_of_bytes(ascii_bytes_of(s)) == s,
{
    assert forall|i: int| 0 <= i < s.len() implies chars_of_bytes(ascii_bytes_of(s))[i] == s[i] by {
        assert(is_ascii_char(s[i]));
        lemma_ascii_char_round_trip(s[i]);
    }
    assert(chars_of_bytes(ascii_bytes_of(s)) =~= s);
}

/// The characters of a string, in order.
pub fn str_chars(s: &str) -> (v: Vec<char>)
    ensures
        v@ == s@,
{
    let n = s.unicode_len();
    let mut v: Vec<char> = Vec::new();
    let mut i: usize = 0;
    while i < n
        invariant
            i <= n,
            n == s@.len(),
            v@ == s@.subrange(0, i as int),
        decreases n - i,
    {
        v.push(s.get_char(i));
        i += 1;
        proof {
            assert(v@ =~= s@.subrange(0, i as int));
        }
    }
    proof {
        assert(v@ =~= s@);
    }
    v
}

/// Relies on std's `FromIterator<char> for String`: collecting characters
/// yields a string with exactly those characters in order.
#[verifier::external_body]
pub(crate) fn chars_to_string(v: &Vec<char>) -> (s: String)
    ensures
        s@ == v@,
{
    v.iter().collect()
}

/// ASCII bytes of a character vector; `None` when some character is not ASCII.
pub fn chars_to_ascii_bytes(v: &Vec<char>) -> (r: Option<Vec<u8>>)
    ensures
        r matches Some(b) ==> b@ == ascii_bytes_of(v@) && ascii_seq(v@),
        ascii_seq(v@) ==> r is Some,
{
    let mut out: Vec<u8> = Vec::new();
    let mut i: usize = 0;
    while i < v.len()
        invariant
            i <= v@.len(),
            out@ == ascii_bytes_of(v@.subrange(0, i as int)),
            forall|j: int| 0 <= j < i ==> is_ascii_char(#[trigger] v@[j]),
        decreases v@.len() - i,
    {
        let c = v[i];
        if (c as u32) >= 128 {
            return None;
        }
        out.push(c as u8);
        i += 1;
        proof {
            assert(out@ =~= ascii_bytes_of(v@.subrange(0, i as int)));
        }
    }
    proof {
        assert(out@ =~= ascii_bytes_of(v@));
    }
    Some(out)
}

/// Characters of a byte vector; `None` when some byte is 128 or more.
pub fn ascii_bytes_to_chars(b: &Vec<u8>) -> (r: Option<Vec<char>>)
    ensures
        r matches Some(v) ==> v@ == chars_of_bytes(b@) && ascii_seq(v@),
        (forall|j: int| 0 <= j < b@.len() ==> (#[trigger] b@[j]) < 128) ==> r is Some,
{
    let mut out: Vec<char> = Vec::new();
    let mut i: usize = 0;
    while i < b.len()
        invariant
            i <= b@.len(),
            out@ == chars_of_bytes(b@.subrange(0, i as int)),
            forall|j: int| 0 <= j < i ==> (#[trigger] b@[j]) < 128,
        decreases b@.len() - i,
    {
        let x = b[i];
        if x >= 128 {
            return None;
        }
        out.push(x as char);
        i += 1;
        proof {
            assert(out@ =~= chars_of_bytes(b@.subrange(0, i as int)));
        }
    }
    proof {
        assert(out@ =~= chars_of_bytes(b@));
        assert forall|j: int| 0 <= j < out@.len() implies is_ascii_char(#[trigger] out@[j]) by {
            assert(b@[j] < 128);
        }
    }
    Some(out)
}

/// The decimal digit character for a value between 0 and 9.
pub open spec fn digit_char(d: int) -> char {
    if d == 0 {
        '0'
    } else if d == 1 {
        '1'
    } else if d == 2 {
        '2'
    } else if d == 3 {
        '3'
    } else if d == 4 {
        '4'
    } else if d == 5 {
        '5'
    } else if d == 6 {
        '6'
    } else if d == 7 {
        '7'
    } else if d == 8 {
        '8'
    } else {
        '9'
    }
}

/// Decimal representation of a natural number, most significant digit first,
/// without leading zeros (`0` is written as "0").
pub open spec fn dec_str(n: nat) -> Seq<char>
    decreases n,
{
    if n < 10 {
        seq![digit_char(n as int)]
    } else {
        dec_str(n / 10) + seq![digit_char((n % 10) as int)]
    }
}

/// Decimal representation of an integer: a minus sign for negative values.
pub open spec fn dec_str_i64(n: int) -> Seq<char> {
    if n >= 0 {
        dec_str(n as nat)
    } else {
        seq!['-'] + dec_str((-n) as nat)
    }
}

fn digit_to_char(d: u64) -> (c: char)
    requires
        d < 10,
    ensures
        c == digit_char(d as int),
{
    if d == 0 {
        '0'
    } else if d == 1 {
        '1'
    } else if d == 2 {
        '2'
    } else if d == 3 {
        '3'
    } else if d == 4 {
        '4'
    } else if d == 5 {
        '5'
    } else if d == 6 {
        '6'
    } else if d == 7 {
        '7'
    } else if d == 8 {
        '8'
    } else {
        '9'
    }
}

/// Appends the decimal digits of `n` to `out`.
pub fn push_u64_dec(out: &mut Vec<char>, n: u64)
    ensures
        final(out)@ == old(out)@ + dec_str(n as nat),
    decreases n,
{
    if n < 10 {
        out.push(digit_to_char(n));
    } else {
        push_u64_dec(out, n / 10);
        out.push(digit_to_char(n % 10));
    }
}

/// Appends the decimal digits of `n`, with a minus sign when negative.
pub fn push_i64_dec(out: &mut Vec<char>, n: i64)
    ensures
        final(out)@ == old(out)@ + dec_str_i64(n as int),
{
    if n >= 0 {
        push_u64_dec(out, n as u64);
    } else {
        out.push('-');
        let m: u64 = (-(n as i128)) as u64;
        push_u64_dec(out, m);
    }
}

/// The decimal string of a signed number.
pub fn i64_to_string(n: i64) -> (s: String)
    ensures
        s@ == dec_str_i64(n as int),
{
    let mut v: Vec<char> = Vec::new();
    push_i64_dec(&mut v, n);
    chars_to_string(&v)
}

/// ASCII lower-case folding of one character.
pub open spec fn lower_char(c: char) -> char {
    if 'A' <= c && c <= 'Z' {
        (((c as u8) + 32) as char)
    } else {
        c
    }
}

/// ASCII lower-case folding of a sequence.
pub open spec fn lower_seq(s: Seq<char>) -> Seq<char> {
    s.map_values(|c: char| lower_char(c))
}

fn lower_char_exec(c: char) -> (r: char)
    ensures
        r == lower_char(c),
{
    if 'A' <= c && c <= 'Z' {
        ((c as u8) + 32) as char
    } else {
        c
    }
}

/// `needle` occurs in `hay` starting at position `i`.
pub open spec fn occurs_at(hay: Seq<char>, needle: Seq<char>, i: int) -> bool {
    0 <= i && i + needle.len() <= hay.len() && hay.subrange(i, i + needle.len() as int) == needle
}

/// `needle` occurs somewhere in `hay`.
pub open spec fn contains_seq(hay: Seq<char>, needle: Seq<char>) -> bool {
    exists|i: int| occurs_at(hay, needle, i)
}

/// Case-insensitive (ASCII) substring relation.
pub open spec fn contains_ci(hay: Seq<char>, needle: Seq<char>) -> bool {
    contains_seq(lower_seq(hay), lower_seq(needle))
}

fn lower_vec(v: &Vec<char>) -> (r: Vec<char>)
    ensures
        r@ == lower_seq(v@),
{
    let mut out: Vec<char> = Vec::new();
    let mut i: usize = 0;
    while i < v.len()
        invariant
            i <= v@.len(),
            out@ == lower_seq(v@.subrange(0, i as int)),
        decreases v@.len() - i,
    {
        out.push(lower_char_exec(v[i]));
        i += 1;
        proof {
            assert(out@ =~= lower_seq(v@.subrange(0, i as int)));
        }
    }
    proof {
        assert(out@ =~= lower_seq(v@));
    }
    out
}

fn occurs_at_exec(hay: &Vec<char>, needle: &Vec<char>, i: usize) -> (r: bool)
    requires
        i + needle@.len() <= hay@.len(),
    ensures
        r == occurs_at(hay@, needle@, i as int),
{
    let hlen = hay.len();
    let nlen = needle.len();
    let mut j: usize = 0;
    while j < nlen
        invariant
            j <= nlen,
            nlen == needle@.len(),
            hlen == hay@.len(),
            i + nlen <= hlen,
            forall|k: int| 0 <= k < j ==> hay@[i + k] == needle@[k],
        decreases nlen - j,
    {
        if hay[i + j] != needle[j] {
            assert(hay@.subrange(i as int, i + needle@.len() as int)[j as int] != needle@[j as int]);
            return false;
        }
        j += 1;
    }
    proof {
        assert(hay@.subrange(i as int, i + needle@.len() as int) =~= needle@);
    }
    true
}

/// Whether `needle` occurs in `hay`, ignoring ASCII case.
pub fn vec_contains_ci(hay: &Vec<char>, needle: &Vec<char>) -> (r: bool)
    ensures
        r == contains_ci(hay@, needle@),
{
    let h = lower_vec(hay);
    let n = lower_vec(needle);
    if n.len() > h.len() {
        proof {
            assert forall|i: int| !occurs_at(h@, n@, i) by {}
        }
        return false;
    }
    if n.len() == 0 {
        proof {
            assert(h@.subrange(0, 0) =~= n@);
            assert(occurs_at(h@, n@, 0));
        }
        return true;
    }
    let last = h.len() - n.len();
    let mut i: usize = 0;
    loop
        invariant
            h@ == lower_seq(hay@),
            n@ == lower_seq(needle@),
            n@.len() >= 1,
            n@.len() <= h@.len(),
            last == h@.len() - n@.len(),
            i <= last,
            forall|k: int| 0 <= k < i ==> !occurs_at(h@, n@, k),
        decreases last - i,
    {
        if occurs_at_exec(&h, &n, i) {
            proof {
                assert(occurs_at(h@, n@, i as int));
            }
            return true;
        }
        if i == last {
            proof {
                assert forall|k: int| !occurs_at(h@, n@, k) by {
                    if 0 <= k <= last {
                        assert(!occurs_at(h@, n@, k));
                    }
                }
            }
            return false;
        }
        i += 1;
    }
}

} // verus!
