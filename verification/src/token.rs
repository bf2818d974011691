//! Stateless session tokens: a compact signed string encoding the
//! principal's identity and an expiry, fourteen days after issue.
//!
//! The token is built here, in verified code: a fixed JSON header and a
//! JSON claims payload, each escaped to plain ASCII, base64url-encoded
//! and joined with dots, then signed. Only the base64url alphabet
//! mapping and the HMAC-SHA256 tag come from outside crates, behind
//! named results; everything else — serialization, parsing, signature
//! comparison and the expiry check — is proved.
use vstd::prelude::*;

use base64::Engine;

use crate::json::lit_at;
use crate::text::{
    ascii_bytes_of, ascii_seq, chars_to_ascii_bytes, chars_to_string, dec_str,
    dec_str_i64, is_ascii_char, push_i64_dec, str_chars, ascii_bytes_to_chars,
    lemma_ascii_round_trip,
};

verus! {

/// Lifetime of a session token, in seconds: fourteen days.
pub const SESSION_TTL_SECS: i64 = 14 * 24 * 60 * 60;

/// The base64url (no padding) encoding of a byte sequence, as the
/// `base64` crate computes it: a function of the bytes alone.
pub uninterp spec fn b64url_of(bytes: Seq<u8>) -> Seq<char>;

/// The base64url-encoded HMAC-SHA256 tag of a message under a key, as
/// `jsonwebtoken`'s HS256 signer computes it: a function of the two
/// byte sequences alone.
pub uninterp spec fn hs256_tag(message: Seq<u8>, key: Seq<u8>) -> Seq<char>;

/// Every character is ASCII and none is a dot; true of base64url text
/// and of the HMAC tag, so a token splits unambiguously at its dots.
pub open spec fn dotless_ascii(s: Seq<char>) -> bool {
    ascii_seq(s) && (forall|i: int| 0 <= i < s.len() ==> (#[trigger] s[i]) != '.')
}

/// The result is base64url text — ASCII, no dot — as is every value of
/// `b64url_of`, since the whole alphabet is `A-Z a-z 0-9 - _`.
pub open spec fn b64_text_ok(r: Seq<char>) -> bool {
    dotless_ascii(r) && (forall|b: Seq<u8>| #[trigger] dotless_ascii(b64url_of(b)))
}

/// The result is an HMAC tag in base64url text — ASCII, no dot — as is
/// every value of `hs256_tag`.
pub open spec fn tag_text_ok(r: Seq<char>) -> bool {
    dotless_ascii(r) && (forall|m: Seq<u8>, k: Seq<u8>| #[trigger] dotless_ascii(hs256_tag(m, k)))
}

/// Relies on base64's `URL_SAFE_NO_PAD` engine: the encoding is a
/// function of the bytes, over the alphabet `A-Z a-z 0-9 - _` (all
/// ASCII, never a dot), without padding; the alphabet fact holds of
/// every encoding.
#[verifier::external_body]
fn b64_encode(bytes: &Vec<u8>) -> (r: String)
    ensures
        r@ == b64url_of(bytes@),
        b64_text_ok(r@),
{
    base64::engine::general_purpose::URL_SAFE_NO_PAD.encode(bytes.as_slice())
}

/// Relies on base64's `URL_SAFE_NO_PAD` engine: decoding rejects padding
/// and non-zero trailing bits, so it accepts exactly the canonical
/// encodings and inverts them.
#[verifier::external_body]
fn b64_decode(s: &str) -> (r: Option<Vec<u8>>)
    ensures
        r matches Some(b) ==> s@ == b64url_of(b@),
        r is None ==> (forall|b: Seq<u8>| s@ != b64url_of(b)),
        r matches Some(v) ==> (forall|b: Seq<u8>| s@ == b64url_of(b) ==> v@ == b),
{
    match base64::engine::general_purpose::URL_SAFE_NO_PAD.decode(s) {
        Ok(v) => Some(v),
        Err(_) => None,
    }
}

/// Relies on `jsonwebtoken::crypto::sign` with HS256: the tag is the
/// base64url encoding of the HMAC-SHA256 of the message under the key, a
/// function of the two alone; for an HMAC secret key it does not fail.
/// Being base64url text, every tag is ASCII without dots.
#[verifier::external_body]
fn sign_hs256(message: &Vec<u8>, key: &Vec<u8>) -> (r: String)
    ensures
        r@ == hs256_tag(message@, key@),
        tag_text_ok(r@),
{
    let k = jsonwebtoken::EncodingKey::from_secret(key.as_slice());
    jsonwebtoken::crypto::sign(message.as_slice(), &k, jsonwebtoken::Algorithm::HS256).expect(
        "HMAC signing cannot fail",
    )
}

/// The uppercase hexadecimal digit for a value between 0 and 15.
pub open spec fn hex_digit(d: int) -> char {
    if d == 0 {
        '0'
    } else if d == 1 {
        '1'
    } else if d == 2 {
        '2'
    } else if d == 3 {
        '3'
    } else if d == 4 {
        '4'
    } else if d == 5 {
        '5'
    } else if d == 6 {
        '6'
    } else if d == 7 {
        '7'
    } else if d == 8 {
        '8'
    } else if d == 9 {
        '9'
    } else if d == 10 {
        'A'
    } else if d == 11 {
        'B'
    } else if d == 12 {
        'C'
    } else if d == 13 {
        'D'
    } else if d == 14 {
        'E'
    } else {
        'F'
    }
}

/// Four uppercase hexadecimal digits of a value below 0x10000.
pub open spec fn hex4(v: int) -> Seq<char> {
    seq![
        hex_digit(v / 4096 % 16),
        hex_digit(v / 256 % 16),
        hex_digit(v / 16 % 16),
        hex_digit(v % 16),
    ]
}

/// A character the claims payload holds unescaped: printable ASCII other
/// than the quote and the backslash.
pub open spec fn is_plain_lit(c: char) -> bool {
    0x20 <= (c as u32) && (c as u32) < 0x7F && c != '"' && c != '\\'
}

/// The canonical escape of one character in the claims payload: plain
/// printable ASCII stands for itself, anything else becomes `\uXXXX`
/// units (two of them, a surrogate pair, beyond the basic plane).
pub open spec fn esc_char(c: char) -> Seq<char> {
    if is_plain_lit(c) {
        seq![c]
    } else if (c as u32) < 0x10000 {
        seq!['\\', 'u'] + hex4(c as u32 as int)
    } else {
        let v = (c as u32) - 0x10000;
        seq!['\\', 'u'] + hex4(0xD800 + v / 0x400) + seq!['\\', 'u'] + hex4(0xDC00 + v % 0x400)
    }
}

/// The canonical escape of a whole string.
pub open spec fn esc_str(s: Seq<char>) -> Seq<char>
    decreases s.len(),
{
    if s.len() == 0 {
        Seq::empty()
    } else {
        esc_char(s[0]) + esc_str(s.drop_first())
    }
}

proof fn lemma_esc_str_snoc(s: Seq<char>, c: char)
    ensures
        esc_str(s.push(c)) == esc_str(s) + esc_char(c),
    decreases s.len(),
{
    if s.len() == 0 {
        assert(s.push(c)[0] == c);
        assert(s.push(c).drop_first() =~= Seq::<char>::empty());
        assert(esc_str(s.push(c).drop_first()) =~= Seq::<char>::empty());
        assert(esc_str(s.push(c)) =~= esc_char(c) + Seq::<char>::empty());
        assert(esc_char(c) + Seq::<char>::empty() =~= esc_char(c));
        assert(esc_str(s) + esc_char(c) =~= esc_char(c));
    } else {
        assert(s.push(c).drop_first() =~= s.drop_first().push(c));
        lemma_esc_str_snoc(s.drop_first(), c);
        assert(esc_str(s.push(c)) =~= esc_str(s) + esc_char(c));
    }
}

/// The fixed token header.
pub open spec fn header_json() -> Seq<char> {
    "{\"alg\":\"HS256\",\"typ\":\"JWT\"}"@
}

/// The claims payload of a token: identifier, user name and expiry.
pub open spec fn claims_payload(id: int, name: Seq<char>, exp: int) -> Seq<char> {
    "{\"id\":"@ + dec_str_i64(id) + ",\"username\":\""@ + esc_str(name) + "\",\"exp\":"@
        + dec_str_i64(exp) + "}"@
}

/// The signed part of a token: the encoded header and payload, joined by
/// a dot.
pub open spec fn message_of(id: int, name: Seq<char>, exp: int) -> Seq<char> {
    b64url_of(ascii_bytes_of(header_json())) + seq!['.'] + b64url_of(
        ascii_bytes_of(claims_payload(id, name, exp)),
    )
}

/// The whole token: the signed part, a dot, and the tag.
pub open spec fn token_of(id: int, name: Seq<char>, exp: int, key: Seq<u8>) -> Seq<char> {
    message_of(id, name, exp) + seq!['.'] + hs256_tag(
        ascii_bytes_of(message_of(id, name, exp)),
        key,
    )
}

fn hex_digit_exec(d: u32) -> (c: char)
    requires
        d < 16,
    ensures
        c == hex_digit(d as int),
{
    if d == 0 {
        '0'
    } else if d == 1 {
        '1'
    } else if d == 2 {
        '2'
    } else if d == 3 {
        '3'
    } else if d == 4 {
        '4'
    } else if d == 5 {
        '5'
    } else if d == 6 {
        '6'
    } else if d == 7 {
        '7'
    } else if d == 8 {
        '8'
    } else if d == 9 {
        '9'
    } else if d == 10 {
        'A'
    } else if d == 11 {
        'B'
    } else if d == 12 {
        'C'
    } else if d == 13 {
        'D'
    } else if d == 14 {
        'E'
    } else {
        'F'
    }
}

fn push_hex4(out: &mut Vec<char>, v: u32)
    requires
        v < 0x10000,
    ensures
        final(out)@ == old(out)@ + hex4(v as int),
{
    out.push(hex_digit_exec(v / 4096 % 16));
    out.push(hex_digit_exec(v / 256 % 16));
    out.push(hex_digit_exec(v / 16 % 16));
    out.push(hex_digit_exec(v % 16));
    proof {
        assert(final(out)@ =~= old(out)@ + hex4(v as int));
    }
}

fn push_esc_char(out: &mut Vec<char>, c: char)
    ensures
        final(out)@ == old(out)@ + esc_char(c),
{
    let u = c as u32;
    if 0x20 <= u && u < 0x7F && c != '"' && c != '\\' {
        out.push(c);
        proof {
            assert(final(out)@ =~= old(out)@ + esc_char(c));
        }
    } else if u < 0x10000 {
        out.push('\\');
        out.push('u');
        push_hex4(out, u);
        proof {
            assert(final(out)@ =~= old(out)@ + esc_char(c));
        }
    } else {
        let v = u - 0x10000;
        out.push('\\');
        out.push('u');
        push_hex4(out, 0xD800 + v / 0x400);
        out.push('\\');
        out.push('u');
        push_hex4(out, 0xDC00 + v % 0x400);
        proof {
            assert(final(out)@ =~= old(out)@ + esc_char(c));
        }
    }
}

fn push_escaped(out: &mut Vec<char>, name: &Vec<char>)
    ensures
        final(out)@ == old(out)@ + esc_str(name@),
{
    let mut i: usize = 0;
    proof {
        assert(name@.subrange(0, 0) =~= Seq::<char>::empty());
        assert(old(out)@ + esc_str(name@.subrange(0, 0)) =~= old(out)@);
    }
    while i < name.len()
        invariant
            i <= name@.len(),
            out@ == old(out)@ + esc_str(name@.subrange(0, i as int)),
        decreases name@.len() - i,
    {
        push_esc_char(out, name[i]);
        i += 1;
        proof {
            assert(name@.subrange(0, i as int) =~= name@.subrange(0, i as int - 1).push(
                name@[i - 1],
            ));
            lemma_esc_str_snoc(name@.subrange(0, i as int - 1), name@[i - 1]);
            assert(out@ =~= old(out)@ + esc_str(name@.subrange(0, i as int)));
        }
    }
    proof {
        assert(name@.subrange(0, name@.len() as int) =~= name@);
    }
}

fn push_lit(out: &mut Vec<char>, lit: &str)
    ensures
        final(out)@ == old(out)@ + lit@,
{
    let chars = str_chars(lit);
    let mut i: usize = 0;
    while i < chars.len()
        invariant
            i <= chars@.len(),
            chars@ == lit@,
            out@ == old(out)@ + lit@.subrange(0, i as int),
        decreases chars@.len() - i,
    {
        out.push(chars[i]);
        i += 1;
        proof {
            assert(out@ =~= old(out)@ + lit@.subrange(0, i as int));
        }
    }
    proof {
        assert(lit@.subrange(0, lit@.len() as int) =~= lit@);
    }
}

proof fn lemma_ascii_concat_seq(a: Seq<char>, b: Seq<char>)
    requires
        ascii_seq(a),
        ascii_seq(b),
    ensures
        ascii_seq(a + b),
{
    assert forall|i: int| 0 <= i < (a + b).len() implies is_ascii_char(#[trigger] (a + b)[i]) by {
        if i < a.len() {
            assert((a + b)[i] == a[i]);
        } else {
            assert((a + b)[i] == b[i - a.len()]);
        }
    }
}

proof fn lemma_dec_str_ascii(n: nat)
    ensures
        ascii_seq(dec_str(n)),
    decreases n,
{
    if n < 10 {
    } else {
        lemma_dec_str_ascii(n / 10);
        lemma_ascii_concat_seq(dec_str(n / 10), seq![crate::text::digit_char((n % 10) as int)]);
    }
}

proof fn lemma_dec_str_i64_ascii(n: int)
    ensures
        ascii_seq(dec_str_i64(n)),
{
    if n >= 0 {
        lemma_dec_str_ascii(n as nat);
    } else {
        lemma_dec_str_ascii((-n) as nat);
        lemma_ascii_concat_seq(seq!['-'], dec_str((-n) as nat));
    }
}

proof fn lemma_hex4_ascii(v: int)
    ensures
        ascii_seq(hex4(v)),
{
}

proof fn lemma_esc_char_ascii(c: char)
    ensures
        ascii_seq(esc_char(c)),
{
    if is_plain_lit(c) {
    } else if (c as u32) < 0x10000 {
        lemma_hex4_ascii(c as u32 as int);
        lemma_ascii_concat_seq(seq!['\\', 'u'], hex4(c as u32 as int));
    } else {
        let v = (c as u32) - 0x10000;
        lemma_hex4_ascii(0xD800 + v as int / 0x400);
        lemma_hex4_ascii(0xDC00 + v as int % 0x400);
        lemma_ascii_concat_seq(seq!['\\', 'u'], hex4(0xD800 + v as int / 0x400));
        lemma_ascii_concat_seq(
            seq!['\\', 'u'] + hex4(0xD800 + v as int / 0x400),
            seq!['\\', 'u'],
        );
        lemma_ascii_concat_seq(
            seq!['\\', 'u'] + hex4(0xD800 + v as int / 0x400) + seq!['\\', 'u'],
            hex4(0xDC00 + v as int % 0x400),
        );
        assert(esc_char(c) =~= seq!['\\', 'u'] + hex4(0xD800 + v as int / 0x400) + seq![
            '\\',
            'u',
        ] + hex4(0xDC00 + v as int % 0x400));
    }
}

proof fn lemma_esc_str_ascii(s: Seq<char>)
    ensures
        ascii_seq(esc_str(s)),
    decreases s.len(),
{
    if s.len() == 0 {
    } else {
        lemma_esc_char_ascii(s[0]);
        lemma_esc_str_ascii(s.drop_first());
        lemma_ascii_concat_seq(esc_char(s[0]), esc_str(s.drop_first()));
    }
}

proof fn lemma_payload_ascii(id: int, name: Seq<char>, exp: int)
    ensures
        ascii_seq(claims_payload(id, name, exp)),
{
    reveal_strlit("{\"id\":");
    reveal_strlit(",\"username\":\"");
    reveal_strlit("\",\"exp\":");
    reveal_strlit("}");
    assert(ascii_seq("{\"id\":"@));
    assert(ascii_seq(",\"username\":\""@));
    assert(ascii_seq("\",\"exp\":"@));
    assert(ascii_seq("}"@));
    lemma_dec_str_i64_ascii(id);
    lemma_dec_str_i64_ascii(exp);
    lemma_esc_str_ascii(name);
    lemma_ascii_concat_seq("{\"id\":"@, dec_str_i64(id));
    lemma_ascii_concat_seq("{\"id\":"@ + dec_str_i64(id), ",\"username\":\""@);
    lemma_ascii_concat_seq("{\"id\":"@ + dec_str_i64(id) + ",\"username\":\""@, esc_str(name));
    lemma_ascii_concat_seq(
        "{\"id\":"@ + dec_str_i64(id) + ",\"username\":\""@ + esc_str(name),
        "\",\"exp\":"@,
    );
    lemma_ascii_concat_seq(
        "{\"id\":"@ + dec_str_i64(id) + ",\"username\":\""@ + esc_str(name) + "\",\"exp\":"@,
        dec_str_i64(exp),
    );
    lemma_ascii_concat_seq(
        "{\"id\":"@ + dec_str_i64(id) + ",\"username\":\""@ + esc_str(name) + "\",\"exp\":"@
            + dec_str_i64(exp),
        "}"@,
    );
}

proof fn lemma_header_ascii()
    ensures
        ascii_seq(header_json()),
{
    reveal_strlit("{\"alg\":\"HS256\",\"typ\":\"JWT\"}");
    assert(ascii_seq("{\"alg\":\"HS256\",\"typ\":\"JWT\"}"@));
}

/// Builds the claims payload text of a token.
fn build_payload(id: i32, username: &String, exp: i64) -> (p: Vec<char>)
    ensures
        p@ == claims_payload(id as int, username@, exp as int),
{
    let mut out: Vec<char> = Vec::new();
    push_lit(&mut out, "{\"id\":");
    push_i64_dec(&mut out, id as i64);
    push_lit(&mut out, ",\"username\":\"");
    let name_chars = str_chars(username.as_str());
    push_escaped(&mut out, &name_chars);
    push_lit(&mut out, "\",\"exp\":");
    push_i64_dec(&mut out, exp);
    push_lit(&mut out, "}");
    proof {
        assert(out@ =~= claims_payload(id as int, username@, exp as int));
    }
    out
}

/// Why a token is rejected. All three reasons must look alike to a
/// client; the distinction is for internal diagnostics only.
#[derive(Debug, Clone, Copy, PartialEq, Eq, Structural)]
pub enum InvalidReason {
    /// The tag is not the HMAC of the signed part under the service key.
    BadSignature,
    /// The token is not three dot-joined parts carrying a claims payload.
    Malformed,
    /// The signature is right but the expiry has passed.
    Expired,
}

/// The claim set of a session: the principal's identifier and name, and
/// the expiry timestamp.
#[derive(Debug, PartialEq, Eq)]
pub struct Claims {
    pub id: i32,
    pub username: String,
    /// Expiry timestamp, set at issue; a token is valid strictly before it.
    pub exp: i64,
}

/// Mathematical value of a `Claims`.
pub struct ClaimsV {
    pub id: i32,
    pub username: Seq<char>,
    pub exp: i64,
}

impl View for Claims {
    type V = ClaimsV;

    open spec fn view(&self) -> ClaimsV {
        ClaimsV { id: self.id, username: self.username@, exp: self.exp }
    }
}

impl Claims {
    /// Claims issued at `now`: they expire `SESSION_TTL_SECS` later.
    pub fn new(id: i32, username: String, now: i64) -> (c: Claims)
        requires
            now <= i64::MAX - 1209600,
        ensures
            c@ == (ClaimsV { id, username: username@, exp: (now + 1209600) as i64 }),
    {
        Claims { id, username, exp: now + SESSION_TTL_SECS }
    }

    /// When the claims expire.
    pub fn expiry(&self) -> (e: i64)
        ensures
            e == self@.exp,
    {
        self.exp
    }

    /// The signed token string of these claims under the service key.
    pub fn generate(&self, key: &Vec<u8>) -> (t: String)
        ensures
            t@ == token_of(self@.id as int, self@.username, self@.exp as int, key@),
    {
        let payload = build_payload(self.id, &self.username, self.exp);
        proof {
            lemma_payload_ascii(self@.id as int, self@.username, self@.exp as int);
        }
        let pb = match chars_to_ascii_bytes(&payload) {
            Some(b) => b,
            None => {
                proof {
                    assert(false);
                }
                vstd::pervasive::unreached()
            },
        };
        let header_chars = str_chars("{\"alg\":\"HS256\",\"typ\":\"JWT\"}");
        proof {
            lemma_header_ascii();
        }
        let hb = match chars_to_ascii_bytes(&header_chars) {
            Some(b) => b,
            None => {
                proof {
                    assert(false);
                }
                vstd::pervasive::unreached()
            },
        };
        let h64 = b64_encode(&hb);
        let p64 = b64_encode(&pb);
        let mut msg = str_chars(h64.as_str());
        msg.push('.');
        push_lit(&mut msg, p64.as_str());
        proof {
            assert(msg@ =~= message_of(self@.id as int, self@.username, self@.exp as int));
            assert forall|i: int| 0 <= i < msg@.len() implies is_ascii_char(
                #[trigger] msg@[i],
            ) by {
                if i < h64@.len() {
                    assert(msg@[i] == h64@[i]);
                } else if i == h64@.len() {
                    assert(msg@[i] == '.');
                } else {
                    assert(msg@[i] == p64@[i - h64@.len() - 1]);
                }
            }
        }
        let mb = match chars_to_ascii_bytes(&msg) {
            Some(b) => b,
            None => {
                proof {
                    assert(false);
                }
                vstd::pervasive::unreached()
            },
        };
        let tag = sign_hs256(&mb, key);
        let mut tok = msg;
        tok.push('.');
        push_lit(&mut tok, tag.as_str());
        proof {
            assert(tok@ =~= token_of(self@.id as int, self@.username, self@.exp as int, key@));
        }
        chars_to_string(&tok)
    }
}

/// An uppercase hexadecimal digit character.
pub open spec fn is_uhex(c: char) -> bool {
    ('0' <= c && c <= '9') || ('A' <= c && c <= 'F')
}

/// Value of an uppercase hexadecimal digit character.
pub open spec fn uhex_val(c: char) -> int {
    if '0' <= c && c <= '9' {
        c as u32 - 48
    } else {
        c as u32 - 55
    }
}

/// The four uppercase hexadecimal digits at `i`, as a value.
pub open spec fn uhex4_at(s: Seq<char>, i: int) -> Option<int> {
    if i + 4 <= s.len() && is_uhex(s[i]) && is_uhex(s[i + 1]) && is_uhex(s[i + 2]) && is_uhex(
        s[i + 3],
    ) {
        Some(uhex_val(s[i]) * 4096 + uhex_val(s[i + 1]) * 256 + uhex_val(s[i + 2]) * 16 + uhex_val(
            s[i + 3],
        ))
    } else {
        None
    }
}

/// The canonically escaped name at `i`, up to and including the closing
/// quote: the characters it denotes and the position after the quote.
/// Exactly the output of `esc_str` is accepted.
pub open spec fn scan_name(s: Seq<char>, i: int) -> Option<(Seq<char>, int)>
    decreases s.len() - i when 0 <= i <= s.len()
{
    if i >= s.len() {
        None
    } else if s[i] == '"' {
        Some((Seq::empty(), i + 1))
    } else if is_plain_lit(s[i]) {
        match scan_name(s, i + 1) {
            None => None,
            Some((rest, j)) => Some((seq![s[i]] + rest, j)),
        }
    } else if s[i] == '\\' {
        if i + 6 <= s.len() && s[i + 1] == 'u' {
            match uhex4_at(s, i + 2) {
                None => None,
                Some(v) => {
                    if 0xDC00 <= v && v < 0xE000 {
                        None
                    } else if 0xD800 <= v && v < 0xDC00 {
                        if i + 12 <= s.len() && s[i + 6] == '\\' && s[i + 7] == 'u' {
                            match uhex4_at(s, i + 8) {
                                None => None,
                                Some(w) => {
                                    if 0xDC00 <= w && w < 0xE000 {
                                        let cp = 0x10000 + (v - 0xD800) * 0x400 + (w - 0xDC00);
                                        match scan_name(s, i + 12) {
                                            None => None,
                                            Some((rest, j)) => Some(
                                                (seq![((cp as u32) as char)] + rest, j),
                                            ),
                                        }
                                    } else {
                                        None
                                    }
                                },
                            }
                        } else {
                            None
                        }
                    } else {
                        if !is_plain_lit((v as u32) as char) {
                            match scan_name(s, i + 6) {
                                None => None,
                                Some((rest, j)) => Some((seq![((v as u32) as char)] + rest, j)),
                            }
                        } else {
                            None
                        }
                    }
                },
            }
        } else {
            None
        }
    } else {
        None
    }
}

proof fn lemma_hex_digit_inv(d: int)
    requires
        0 <= d < 16,
    ensures
        is_uhex(hex_digit(d)),
        uhex_val(hex_digit(d)) == d,
{
}

proof fn lemma_uhex4_of_hex4(s: Seq<char>, k: int, u: int)
    requires
        0 <= k,
        k + 4 <= s.len(),
        0 <= u < 0x10000,
        s[k] == hex4(u)[0],
        s[k + 1] == hex4(u)[1],
        s[k + 2] == hex4(u)[2],
        s[k + 3] == hex4(u)[3],
    ensures
        uhex4_at(s, k) == Some(u),
{
    lemma_hex_digit_inv(u / 4096 % 16);
    lemma_hex_digit_inv(u / 256 % 16);
    lemma_hex_digit_inv(u / 16 % 16);
    lemma_hex_digit_inv(u % 16);
    assert(u / 4096 % 16 * 4096 + u / 256 % 16 * 256 + u / 16 % 16 * 16 + u % 16 == u) by {
        assert(u / 4096 < 16);
        assert(u / 4096 % 16 == u / 4096);
        vstd::arithmetic::div_mod::lemma_fundamental_div_mod(u, 4096);
        vstd::arithmetic::div_mod::lemma_fundamental_div_mod(u % 4096, 256);
        vstd::arithmetic::div_mod::lemma_fundamental_div_mod(u % 4096 % 256, 16);
        assert(u % 4096 / 256 == u / 256 % 16) by (nonlinear_arith)
            requires 0 <= u < 0x10000;
        assert(u % 4096 % 256 / 16 == u / 16 % 16) by (nonlinear_arith)
            requires 0 <= u < 0x10000;
        assert(u % 4096 % 256 % 16 == u % 16) by (nonlinear_arith)
            requires 0 <= u < 0x10000;
    };
}

#[verifier::rlimit(100)]
proof fn lemma_scan_esc(s: Seq<char>, i: int, name: Seq<char>)
    requires
        0 <= i,
        i + esc_str(name).len() + 1 <= s.len(),
        s.subrange(i, i + esc_str(name).len() as int) == esc_str(name),
        s[i + esc_str(name).len() as int] == '"',
    ensures
        scan_name(s, i) == Some((name, i + esc_str(name).len() + 1)),
    decreases name.len(),
{
    if name.len() == 0 {
        assert(esc_str(name).len() == 0);
        assert(s[i] == '"');
    } else {
        let c = name[0];
        let e = esc_char(c);
        let rest = name.drop_first();
        let r = esc_str(rest);
        assert(esc_str(name) == e + r);
        let el = e.len() as int;
        let i2 = i + el;
        assert forall|k: int| 0 <= k < el implies s[i + k] == e[k] by {
            assert(s.subrange(i, i + esc_str(name).len() as int)[k] == (e + r)[k]);
        }
        assert(s.subrange(i2, i2 + r.len() as int) =~= r) by {
            assert forall|k: int| 0 <= k < r.len() implies s.subrange(
                i2,
                i2 + r.len() as int,
            )[k] == r[k] by {
                assert(s.subrange(i, i + esc_str(name).len() as int)[el + k] == (e + r)[el + k]);
            }
        }
        assert(s[i2 + r.len() as int] == '"');
        lemma_scan_esc(s, i2, rest);
        vstd::utf8::char_is_scalar(c);
        if is_plain_lit(c) {
            assert(e == seq![c]);
            assert(s[i + 0] == e[0]);
            assert(s[i] == c);
            assert(seq![c] + rest =~= name);
        } else if (c as u32) < 0x10000 {
            let u = (c as u32) as int;
            assert(s[i + 0] == e[0] && s[i + 1] == e[1] && s[i + 2] == e[2] && s[i + 3] == e[3]
                && s[i + 4] == e[4] && s[i + 5] == e[5]);
            assert(e =~= seq!['\\', 'u'] + hex4(u));
            assert(s[i] == '\\' && s[i + 1] == 'u');
            assert(s[i + 2] == hex4(u)[0] && s[i + 3] == hex4(u)[1] && s[i + 4] == hex4(u)[2]
                && s[i + 5] == hex4(u)[3]);
            lemma_uhex4_of_hex4(s, i + 2, u);
            assert(!(0xDC00 <= u && u < 0xE000) && !(0xD800 <= u && u < 0xDC00));
            vstd::utf8::char_u32_cast(c, c as u32);
            assert((u as u32) as char == c);
            assert(seq![c] + rest =~= name);
        } else {
            let v = (c as u32) - 0x10000;
            let hi = 0xD800 + v as int / 0x400;
            let lo = 0xDC00 + v as int % 0x400;
            assert(c as u32 <= 0x10FFFF);
            assert(v as int / 0x400 < 0x400);
            assert(e =~= seq!['\\', 'u'] + hex4(hi) + seq!['\\', 'u'] + hex4(lo));
            assert(s[i + 0] == e[0] && s[i + 1] == e[1] && s[i + 2] == e[2] && s[i + 3] == e[3]
                && s[i + 4] == e[4] && s[i + 5] == e[5] && s[i + 6] == e[6] && s[i + 7] == e[7]
                && s[i + 8] == e[8] && s[i + 9] == e[9] && s[i + 10] == e[10] && s[i + 11]
                == e[11]);
            assert(s[i] == '\\' && s[i + 1] == 'u');
            assert(s[i + 2] == hex4(hi)[0] && s[i + 3] == hex4(hi)[1] && s[i + 4] == hex4(hi)[2]
                && s[i + 5] == hex4(hi)[3]);
            assert(s[i + 6] == '\\' && s[i + 7] == 'u');
            assert(s[i + 8] == hex4(lo)[0] && s[i + 9] == hex4(lo)[1] && s[i + 10] == hex4(
                lo,
            )[2] && s[i + 11] == hex4(lo)[3]);
            lemma_uhex4_of_hex4(s, i + 2, hi);
            lemma_uhex4_of_hex4(s, i + 8, lo);
            let cp = 0x10000 + (hi - 0xD800) * 0x400 + (lo - 0xDC00);
            assert(cp == c as u32) by {
                assert(v as int / 0x400 * 0x400 + v as int % 0x400 == v as int);
            }
            vstd::utf8::char_u32_cast(c, c as u32);
            assert((cp as u32) as char == c);
            assert(seq![c] + rest =~= name);
        }
    }
}

fn scan_name_exec(s: &Vec<char>, i: usize) -> (r: Option<(Vec<char>, usize)>)
    requires
        i <= s@.len(),
    ensures
        r matches Some(p) ==> scan_name(s@, i as int) == Some((p.0@, p.1 as int)) && i < p.1
            <= s@.len(),
        r is None ==> scan_name(s@, i as int) is None,
{
    let mut acc: Vec<char> = Vec::new();
    let mut cur = i;
    loop
        invariant
            i <= cur <= s@.len(),
            (scan_name(s@, cur as int) matches Some(p) ==> scan_name(s@, i as int) == Some(
                (acc@ + p.0, p.1),
            )),
            (scan_name(s@, cur as int) is None ==> scan_name(s@, i as int) is None),
        decreases s@.len() - cur,
    {
        if cur == s.len() {
            return None;
        }
        let c = s[cur];
        let u = c as u32;
        if c == '"' {
            proof {
                assert(acc@ + Seq::<char>::empty() =~= acc@);
            }
            return Some((acc, cur + 1));
        } else if 0x20 <= u && u < 0x7F && c != '\\' {
            let ghost prev = acc@;
            acc.push(c);
            proof {
                assert(acc@ =~= prev + seq![c]);
                assert forall|rest: Seq<char>, e: int|
                    scan_name(s@, cur + 1) == Some::<(Seq<char>, int)>((rest, e)) implies acc@
                    + rest == prev + (seq![c] + rest) by {
                    assert(acc@ + rest =~= prev + (seq![c] + rest));
                }
            }
            cur = cur + 1;
        } else if c == '\\' {
            if s.len() - cur < 6 || s[cur + 1] != 'u' {
                return None;
            }
            let v = match uhex4_exec(s, cur + 2) {
                Some(v) => v,
                None => {
                    return None;
                },
            };
            if 0xDC00 <= v && v < 0xE000 {
                return None;
            } else if 0xD800 <= v && v < 0xDC00 {
                if s.len() - cur < 12 || s[cur + 6] != '\\' || s[cur + 7] != 'u' {
                    return None;
                }
                let w = match uhex4_exec(s, cur + 8) {
                    Some(w) => w,
                    None => {
                        return None;
                    },
                };
                if !(0xDC00 <= w && w < 0xE000) {
                    return None;
                }
                let cp: u32 = 0x10000 + (v - 0xD800) * 0x400 + (w - 0xDC00);
                let ch = match crate::json::char_from_u32(cp) {
                    Some(ch) => ch,
                    None => {
                        proof {
                            assert(false);
                        }
                        vstd::pervasive::unreached()
                    },
                };
                proof {
                    vstd::utf8::char_u32_cast(ch, cp);
                }
                let ghost prev = acc@;
                acc.push(ch);
                proof {
                    assert(acc@ =~= prev + seq![ch]);
                    assert forall|rest: Seq<char>, e: int|
                        scan_name(s@, cur + 12) == Some::<(Seq<char>, int)>((rest, e)) implies acc@
                        + rest == prev + (seq![ch] + rest) by {
                        assert(acc@ + rest =~= prev + (seq![ch] + rest));
                    }
                }
                cur = cur + 12;
            } else {
                let is_plain = 0x20 <= v && v < 0x7F && v != 0x22 && v != 0x5C;
                if is_plain {
                    return None;
                }
                let ch = match crate::json::char_from_u32(v) {
                    Some(ch) => ch,
                    None => {
                        proof {
                            assert(false);
                        }
                        vstd::pervasive::unreached()
                    },
                };
                proof {
                    vstd::utf8::char_u32_cast(ch, v);
                    assert(ch == (v as u32) as char);
                    if is_plain_lit(ch) {
                        assert(0x20 <= v && v < 0x7F && ch != '"' && ch != '\\');
                        assert(('"' as u32) == 0x22 && ('\\' as u32) == 0x5C);
                        assert(v != 0x22 && v != 0x5C);
                    }
                    assert(!is_plain_lit((v as u32) as char));
                }
                let ghost prev = acc@;
                acc.push(ch);
                proof {
                    assert(acc@ =~= prev + seq![ch]);
                    assert forall|rest: Seq<char>, e: int|
                        scan_name(s@, cur + 6) == Some::<(Seq<char>, int)>((rest, e)) implies acc@
                        + rest == prev + (seq![ch] + rest) by {
                        assert(acc@ + rest =~= prev + (seq![ch] + rest));
                    }
                }
                cur = cur + 6;
            }
        } else {
            return None;
        }
    }
}

fn uhex_digit_exec(c: char) -> (r: Option<u32>)
    ensures
        r matches Some(v) ==> is_uhex(c) && v as int == uhex_val(c) && v < 16,
        r is None ==> !is_uhex(c),
{
    if '0' <= c && c <= '9' {
        Some((c as u32) - 48)
    } else if 'A' <= c && c <= 'F' {
        Some((c as u32) - 55)
    } else {
        None
    }
}

fn uhex4_exec(s: &Vec<char>, i: usize) -> (r: Option<u32>)
    requires
        i <= s@.len(),
    ensures
        r matches Some(v) ==> uhex4_at(s@, i as int) == Some(v as int) && v < 0x10000,
        r is None ==> uhex4_at(s@, i as int) is None,
{
    if s.len() - i < 4 {
        return None;
    }
    let a = uhex_digit_exec(s[i]);
    let b = uhex_digit_exec(s[i + 1]);
    let c = uhex_digit_exec(s[i + 2]);
    let d = uhex_digit_exec(s[i + 3]);
    match (a, b, c, d) {
        (Some(a), Some(b), Some(c), Some(d)) => Some(a * 4096 + b * 256 + c * 16 + d),
        _ => None,
    }
}

proof fn lemma_dec_str_props(n: nat)
    ensures
        dec_str(n).len() >= 1,
        forall|k: int|
            0 <= k < dec_str(n).len() ==> crate::criteria::is_digit_char(#[trigger] dec_str(n)[k]),
        n >= 1 ==> dec_str(n)[0] != '0',
        n < 10 ==> dec_str(n).len() == 1,
    decreases n,
{
    if n < 10 {
    } else {
        lemma_dec_str_props(n / 10);
        let p = dec_str(n / 10);
        let d = seq![crate::text::digit_char((n % 10) as int)];
        assert forall|k: int|
            0 <= k < dec_str(n).len() implies crate::criteria::is_digit_char(
            #[trigger] dec_str(n)[k],
        ) by {
            if k < p.len() {
                assert(dec_str(n)[k] == p[k]);
            } else {
                assert(dec_str(n)[k] == d[k - p.len()]);
            }
        }
        assert(dec_str(n)[0] == p[0]);
    }
}

proof fn lemma_dec_val_of_dec_str(s: Seq<char>, i: int, n: nat)
    requires
        0 <= i,
        i + dec_str(n).len() <= s.len(),
        s.subrange(i, i + dec_str(n).len() as int) == dec_str(n),
    ensures
        crate::json::dec_val(s, i, i + dec_str(n).len() as int) == n,
    decreases n,
{
    let l = dec_str(n).len() as int;
    if n < 10 {
        assert(s.subrange(i, i + 1)[0] == dec_str(n)[0]);
        assert(s[i] == crate::text::digit_char(n as int));
        assert(crate::criteria::digit_val(crate::text::digit_char(n as int)) == n);
        assert(crate::json::dec_val(s, i, i) == 0);
        assert(crate::json::dec_val(s, i, i + 1) == crate::json::dec_val(s, i, i) * 10
            + crate::criteria::digit_val(s[i]));
    } else {
        let p = dec_str(n / 10);
        let lp = p.len() as int;
        assert(s.subrange(i, i + lp) =~= p) by {
            assert forall|k: int| 0 <= k < lp implies s.subrange(i, i + lp)[k] == p[k] by {
                assert(s.subrange(i, i + l)[k] == dec_str(n)[k]);
                assert(dec_str(n)[k] == p[k]);
            }
        }
        lemma_dec_val_of_dec_str(s, i, n / 10);
        assert(s.subrange(i, i + l)[l - 1] == dec_str(n)[l - 1]);
        assert(dec_str(n)[l - 1] == crate::text::digit_char((n % 10) as int));
        assert(crate::criteria::digit_val(crate::text::digit_char((n % 10) as int)) == n % 10);
        assert(l - 1 == lp);
        assert(crate::json::dec_val(s, i, i + l) == crate::json::dec_val(s, i, i + l - 1) * 10
            + crate::criteria::digit_val(s[i + l - 1]));
    }
}

proof fn lemma_digit_run_exact(s: Seq<char>, a: int, b: int)
    requires
        0 <= a <= b <= s.len(),
        forall|k: int| a <= k < b ==> crate::criteria::is_digit_char(#[trigger] s[k]),
        b == s.len() || !crate::criteria::is_digit_char(s[b]),
    ensures
        crate::json::digit_run_end(s, a) == b,
    decreases b - a,
{
    if a == b {
    } else {
        assert(crate::criteria::is_digit_char(s[a]));
        lemma_digit_run_exact(s, a + 1, b);
    }
}

proof fn lemma_parse_int_complete(s: Seq<char>, i: int, v: i64)
    requires
        0 <= i,
        i + dec_str_i64(v as int).len() < s.len(),
        s.subrange(i, i + dec_str_i64(v as int).len() as int) == dec_str_i64(v as int),
        !crate::criteria::is_digit_char(s[i + dec_str_i64(v as int).len() as int]),
    ensures
        crate::json::parse_int(s, i) == Some((v, i + dec_str_i64(v as int).len() as int)),
{
    let l = dec_str_i64(v as int).len() as int;
    if v >= 0 {
        let n = v as nat;
        lemma_dec_str_props(n);
        assert forall|k: int| i <= k < i + l implies crate::criteria::is_digit_char(
            #[trigger] s[k],
        ) by {
            assert(s.subrange(i, i + l)[k - i] == dec_str(n)[k - i]);
        }
        assert(s[i] == dec_str(n)[0]) by {
            assert(s.subrange(i, i + l)[0] == dec_str(n)[0]);
        }
        assert(s[i] != '-');
        lemma_digit_run_exact(s, i, i + l);
        lemma_dec_val_of_dec_str(s, i, n);
        if s[i] == '0' {
            assert(n < 1 || dec_str(n)[0] != '0');
            assert(n == 0);
            assert(l == 1);
        }
    } else {
        let m = (-(v as int)) as nat;
        lemma_dec_str_props(m);
        assert(s[i] == '-') by {
            assert(s.subrange(i, i + l)[0] == dec_str_i64(v as int)[0]);
            assert(dec_str_i64(v as int)[0] == (seq!['-'] + dec_str(m))[0]);
        }
        assert(s.subrange(i + 1, i + l) =~= dec_str(m)) by {
            assert forall|k: int| 0 <= k < l - 1 implies s.subrange(i + 1, i + l)[k] == dec_str(
                m,
            )[k] by {
                assert(s.subrange(i, i + l)[k + 1] == dec_str_i64(v as int)[k + 1]);
                assert(dec_str_i64(v as int)[k + 1] == (seq!['-'] + dec_str(m))[k + 1]);
            }
        }
        assert forall|k: int| i + 1 <= k < i + l implies crate::criteria::is_digit_char(
            #[trigger] s[k],
        ) by {
            assert(s.subrange(i + 1, i + l)[k - i - 1] == dec_str(m)[k - i - 1]);
        }
        lemma_digit_run_exact(s, i + 1, i + l);
        lemma_dec_val_of_dec_str(s, i + 1, m);
        assert(s[i + 1] == dec_str(m)[0]) by {
            assert(s.subrange(i + 1, i + l)[0] == dec_str(m)[0]);
        }
        if s[i + 1] == '0' {
            assert(m == 0);
            assert(false);
        }
    }
}

pub(crate) fn match_lit(s: &Vec<char>, i: usize, lit: &str) -> (r: Option<usize>)
    requires
        i <= s@.len(),
    ensures
        r matches Some(j) ==> j as int == i + lit@.len() && i <= j <= s@.len() && s@.subrange(
            i as int,
            j as int,
        ) == lit@,
        r is None ==> !(i + lit@.len() <= s@.len() && s@.subrange(i as int, i + lit@.len() as int)
            == lit@),
{
    let n = lit.unicode_len();
    if s.len() - i < n {
        return None;
    }
    let mut k: usize = 0;
    while k < n
        invariant
            k <= n,
            n == lit@.len(),
            i + n <= s@.len(),
            s@.len() <= usize::MAX,
            forall|t: int| 0 <= t < k ==> s@[i + t] == lit@[t],
        decreases n - k,
    {
        if s[i + k] != lit.get_char(k) {
            proof {
                assert(s@.subrange(i as int, i + n as int)[k as int] != lit@[k as int]);
            }
            return None;
        }
        k += 1;
    }
    proof {
        assert(s@.subrange(i as int, i + n as int) =~= lit@);
    }
    Some(i + n)
}

fn find_char(s: &Vec<char>, from: usize, target: char) -> (r: Option<usize>)
    requires
        from <= s@.len(),
    ensures
        r matches Some(j) ==> from <= j < s@.len() && s@[j as int] == target && (forall|k: int|
            from <= k < j ==> s@[k] != target),
        r is None ==> forall|k: int| from <= k < s@.len() ==> s@[k] != target,
{
    let mut j = from;
    while j < s.len()
        invariant
            from <= j <= s@.len(),
            forall|k: int| from <= k < j ==> s@[k] != target,
        decreases s@.len() - j,
    {
        if s[j] == target {
            return Some(j);
        }
        j += 1;
    }
    None
}

pub(crate) fn slice_chars(s: &Vec<char>, a: usize, b: usize) -> (r: Vec<char>)
    requires
        a <= b <= s@.len(),
    ensures
        r@ == s@.subrange(a as int, b as int),
{
    let mut out: Vec<char> = Vec::new();
    let mut j = a;
    while j < b
        invariant
            a <= j <= b <= s@.len(),
            out@ == s@.subrange(a as int, j as int),
        decreases b - j,
    {
        out.push(s[j]);
        j += 1;
        proof {
            assert(out@ =~= s@.subrange(a as int, j as int));
        }
    }
    proof {
        assert(out@ =~= s@.subrange(a as int, b as int));
    }
    out
}

fn chars_eq(a: &Vec<char>, b: &Vec<char>) -> (r: bool)
    ensures
        r == (a@ == b@),
{
    if a.len() != b.len() {
        return false;
    }
    let mut j: usize = 0;
    while j < a.len()
        invariant
            j <= a@.len(),
            a@.len() == b@.len(),
            forall|k: int| 0 <= k < j ==> a@[k] == b@[k],
        decreases a@.len() - j,
    {
        if a[j] != b[j] {
            return false;
        }
        j += 1;
    }
    proof {
        assert(a@ =~= b@);
    }
    true
}

#[verifier::rlimit(100)]
proof fn lemma_payload_structure(s: Seq<char>, id: i64, name: Seq<char>, exp: i64)
    requires
        s == claims_payload(id as int, name, exp as int),
    ensures
        ({
            let a = dec_str_i64(id as int);
            let e = esc_str(name);
            let c = dec_str_i64(exp as int);
            let q1 = 6 + a.len() as int;
            let q2 = q1 + 13;
            let q3 = q2 + e.len() as int;
            let q4 = q3 + 8;
            &&& s.len() == q4 + c.len() + 1
            &&& s.subrange(0, 6) == "{\"id\":"@
            &&& s.subrange(6, q1) == a
            &&& s[q1] == ','
            &&& s.subrange(q1, q2) == ",\"username\":\""@
            &&& s.subrange(q2, q3) == e
            &&& s[q3] == '"'
            &&& s.subrange(q3 + 1, q4) == ",\"exp\":"@
            &&& s.subrange(q4, q4 + c.len() as int) == c
            &&& s[q4 + c.len() as int] == '}'
        }),
{
    broadcast use vstd::string::group_string_axioms;

    reveal_strlit("{\"id\":");
    reveal_strlit(",\"username\":\"");
    reveal_strlit("\",\"exp\":");
    reveal_strlit(",\"exp\":");
    reveal_strlit("}");
    let a = dec_str_i64(id as int);
    let e = esc_str(name);
    let c = dec_str_i64(exp as int);
    let q1 = 6 + a.len() as int;
    let q2 = q1 + 13;
    let q3 = q2 + e.len() as int;
    let q4 = q3 + 8;
    assert("{\"id\":"@.len() == 6);
    assert(",\"username\":\""@.len() == 13);
    assert("\",\"exp\":"@.len() == 8);
    assert(",\"exp\":"@.len() == 7);
    assert("}"@.len() == 1);
    assert(s.subrange(0, 6) =~= "{\"id\":"@);
    assert(s.subrange(6, q1) =~= a);
    assert(s.subrange(q1, q2) =~= ",\"username\":\""@);
    assert(s[q1] == ",\"username\":\""@[0]);
    assert(s.subrange(q2, q3) =~= e);
    assert(s[q3] == "\",\"exp\":"@[0]);
    assert forall|k: int| 0 <= k < 7 implies s.subrange(q3 + 1, q4)[k] == ",\"exp\":"@[k] by {
        assert(s[q3 + 1 + k] == "\",\"exp\":"@[k + 1]);
        assert("\",\"exp\":"@[k + 1] == ",\"exp\":"@[k]);
    }
    assert(s.subrange(q3 + 1, q4) =~= ",\"exp\":"@);
    assert(s.subrange(q4, q4 + c.len() as int) =~= c);
    assert(s[q4 + c.len() as int] == "}"@[0]);
}

/// The claims-payload scanner: the fixed literals, the identifier, the
/// escaped name and the expiry, in order, with nothing after the closing
/// brace.
pub open spec fn payload_scan(s: Seq<char>) -> Option<(i64, Seq<char>, i64)> {
    if lit_at(s, 0, "{\"id\":"@) {
        match crate::json::parse_int(s, 6) {
            None => None,
            Some((id, p2)) => {
                if lit_at(s, p2, ",\"username\":\""@) && p2 + 13 <= s.len() {
                    match scan_name(s, p2 + 13) {
                        None => None,
                        Some((name, p4)) => {
                            if lit_at(s, p4, ",\"exp\":"@) {
                                match crate::json::parse_int(s, p4 + 7) {
                                    None => None,
                                    Some((exp, p6)) => {
                                        if p6 + 1 == s.len() && s[p6] == '}' {
                                            Some((id, name, exp))
                                        } else {
                                            None
                                        }
                                    },
                                }
                            } else {
                                None
                            }
                        },
                    }
                } else {
                    None
                }
            },
        }
    } else {
        None
    }
}

/// Reads a canonical claims payload back into its identifier, name and
/// expiry, exactly as `payload_scan` denotes.
fn parse_payload(chars: &Vec<char>) -> (r: Option<(i64, Vec<char>, i64)>)
    ensures
        r matches Some(t) ==> payload_scan(chars@) == Some((t.0, t.1@, t.2)),
        r is None ==> payload_scan(chars@) is None,
{
    proof {
        broadcast use vstd::string::group_string_axioms;

        reveal_strlit("{\"id\":");
        reveal_strlit(",\"username\":\"");
        reveal_strlit(",\"exp\":");
    }
    let p1 = match match_lit(chars, 0, "{\"id\":") {
        Some(p) => p,
        None => {
            return None;
        },
    };
    let (idv, p2) = match crate::json::parse_int_exec(chars, p1) {
        Some(p) => p,
        None => {
            return None;
        },
    };
    let p3 = match match_lit(chars, p2, ",\"username\":\"") {
        Some(p) => p,
        None => {
            return None;
        },
    };
    let (namev, p4) = match scan_name_exec(chars, p3) {
        Some(p) => p,
        None => {
            return None;
        },
    };
    let p5 = match match_lit(chars, p4, ",\"exp\":") {
        Some(p) => p,
        None => {
            return None;
        },
    };
    let (expv, p6) = match crate::json::parse_int_exec(chars, p5) {
        Some(p) => p,
        None => {
            return None;
        },
    };
    if !(p6 < chars.len() && chars.len() - p6 == 1 && chars[p6] == '}') {
        return None;
    }
    Some((idv, namev, expv))
}

proof fn lemma_ascii_byte_small(c: char)
    requires
        is_ascii_char(c),
    ensures
        (c as u8) < 128,
{
    let x: u8 = c as u8;
    assert(x as u32 == c as u32);
}

proof fn lemma_ascii_bytes_small(s: Seq<char>)
    requires
        ascii_seq(s),
    ensures
        forall|j: int|
            0 <= j < ascii_bytes_of(s).len() ==> (#[trigger] ascii_bytes_of(s)[j]) < 128,
{
    assert forall|j: int|
        0 <= j < ascii_bytes_of(s).len() implies (#[trigger] ascii_bytes_of(s)[j]) < 128 by {
        assert(is_ascii_char(s[j]));
        lemma_ascii_byte_small(s[j]);
    }
}

proof fn lemma_token_structure(t: Seq<char>, id: int, name: Seq<char>, exp: int, key: Seq<u8>)
    requires
        t == token_of(id, name, exp, key),
    ensures
        ({
            let a = b64url_of(ascii_bytes_of(header_json()));
            let b = b64url_of(ascii_bytes_of(claims_payload(id, name, exp)));
            let c = hs256_tag(ascii_bytes_of(message_of(id, name, exp)), key);
            &&& t.len() == a.len() + 1 + b.len() + 1 + c.len()
            &&& t.subrange(0, a.len() as int) == a
            &&& t[a.len() as int] == '.'
            &&& t.subrange(a.len() as int + 1, a.len() + b.len() + 1int) == b
            &&& t[a.len() + b.len() + 1int] == '.'
            &&& t.subrange(a.len() + b.len() + 2int, t.len() as int) == c
            &&& t.subrange(0, a.len() + b.len() + 1int) == message_of(id, name, exp)
        }),
{
    let a = b64url_of(ascii_bytes_of(header_json()));
    let b = b64url_of(ascii_bytes_of(claims_payload(id, name, exp)));
    let c = hs256_tag(ascii_bytes_of(message_of(id, name, exp)), key);
    assert(t.subrange(0, a.len() as int) =~= a);
    assert(t.subrange(a.len() as int + 1, a.len() + b.len() + 1int) =~= b);
    assert(t.subrange(a.len() + b.len() + 2int, t.len() as int) =~= c);
    assert(t.subrange(0, a.len() + b.len() + 1int) =~= message_of(id, name, exp));
}

/// A payload built from any claims scans back to exactly those claims.
#[verifier::rlimit(100)]
proof fn lemma_payload_scan_complete(s: Seq<char>, id: i64, name: Seq<char>, exp: i64)
    requires
        s == claims_payload(id as int, name, exp as int),
    ensures
        payload_scan(s) == Some((id, name, exp)),
{
    broadcast use vstd::string::group_string_axioms;

    reveal_strlit("{\"id\":");
    reveal_strlit(",\"username\":\"");
    reveal_strlit("\",\"exp\":");
    reveal_strlit(",\"exp\":");
    reveal_strlit("}");
    lemma_payload_structure(s, id, name, exp);
    let a = dec_str_i64(id as int);
    let e = esc_str(name);
    let c = dec_str_i64(exp as int);
    let q1 = 6 + a.len() as int;
    let q2 = q1 + 13;
    let q3 = q2 + e.len() as int;
    let q4 = q3 + 8;
    assert(lit_at(s, 0, "{\"id\":"@));
    lemma_parse_int_complete(s, 6, id);
    assert(crate::json::parse_int(s, 6) == Some((id, q1)));
    assert(lit_at(s, q1, ",\"username\":\""@));
    lemma_scan_esc(s, q2, name);
    assert(scan_name(s, q2) == Some((name, q3 + 1)));
    assert(lit_at(s, q3 + 1, ",\"exp\":"@)) by {
        assert(s.subrange(q3 + 1, q4) == ",\"exp\":"@);
    }
    lemma_parse_int_complete(s, q4, exp);
    assert(crate::json::parse_int(s, q4) == Some((exp, q4 + c.len() as int)));
    assert(s[q4 + c.len() as int] == '}');
    assert(q4 + c.len() as int + 1 == s.len());
}

impl Claims {
    /// Checks a presented token against the service key and the current
    /// time. A token issued by `generate` under the same key yields its
    /// claims while `now` lies strictly before their expiry, and
    /// `Expired` from the expiry on; whatever is accepted carries a valid
    /// tag over its signed part under the key, and is not yet expired.
    #[verifier::rlimit(100)]
    pub fn validate(token: &str, key: &Vec<u8>, now: i64) -> (r: Result<Claims, InvalidReason>)
        ensures
            r matches Ok(c) ==> now < c@.exp,
            r matches Ok(c) ==> (exists|msg: Seq<char>|
                ascii_seq(msg) && token@ == msg + seq!['.'] + hs256_tag(
                    ascii_bytes_of(msg),
                    key@,
                )),
            forall|id: i32, name: Seq<char>, exp: i64|
                token@ == token_of(id as int, name, exp as int, key@) ==> (if now < exp {
                    r matches Ok(c) && c@.id == id && c@.username == name && c@.exp == exp
                } else {
                    r == Err::<Claims, InvalidReason>(InvalidReason::Expired)
                }),
    {
        let chars = str_chars(token);
        let header_chars = str_chars("{\"alg\":\"HS256\",\"typ\":\"JWT\"}");
        proof {
            lemma_header_ascii();
        }
        let hb = match chars_to_ascii_bytes(&header_chars) {
            Some(b) => b,
            None => {
                proof {
                    assert(false);
                }
                vstd::pervasive::unreached()
            },
        };
        let h64 = b64_encode(&hb);
        let p = match match_lit(&chars, 0, h64.as_str()) {
            Some(p) => p,
            None => {
                proof {
                    assert forall|id: i32, name: Seq<char>, exp: i64|
                        token@ != token_of(id as int, name, exp as int, key@) by {
                        if token@ == token_of(id as int, name, exp as int, key@) {
                            lemma_token_structure(token@, id as int, name, exp as int, key@);
                        }
                    }
                }
                return Err(InvalidReason::Malformed);
            },
        };
        if !(p < chars.len() && chars[p] == '.') {
            proof {
                assert forall|id: i32, name: Seq<char>, exp: i64|
                    token@ != token_of(id as int, name, exp as int, key@) by {
                    if token@ == token_of(id as int, name, exp as int, key@) {
                        lemma_token_structure(token@, id as int, name, exp as int, key@);
                    }
                }
            }
            return Err(InvalidReason::Malformed);
        }
        let d2 = match find_char(&chars, p + 1, '.') {
            Some(d) => d,
            None => {
                proof {
                    assert forall|id: i32, name: Seq<char>, exp: i64|
                        token@ != token_of(id as int, name, exp as int, key@) by {
                        if token@ == token_of(id as int, name, exp as int, key@) {
                            lemma_token_structure(token@, id as int, name, exp as int, key@);
                            let b = b64url_of(
                                ascii_bytes_of(claims_payload(id as int, name, exp as int)),
                            );
                            assert(token@[h64@.len() + b.len() + 1int] == '.');
                        }
                    }
                }
                return Err(InvalidReason::Malformed);
            },
        };
        proof {
            assert forall|id: i32, name: Seq<char>, exp: i64|
                token@ == token_of(id as int, name, exp as int, key@) implies d2 as int
                == h64@.len() + b64url_of(
                ascii_bytes_of(claims_payload(id as int, name, exp as int)),
            ).len() + 1 by {
                lemma_token_structure(token@, id as int, name, exp as int, key@);
                let b = b64url_of(ascii_bytes_of(claims_payload(id as int, name, exp as int)));
                let q = h64@.len() as int + 1 + b.len() as int;
                assert(dotless_ascii(b));
                if (d2 as int) < q {
                    assert(token@[d2 as int] == b[d2 - h64@.len() - 1]);
                    assert(token@[d2 as int] != '.');
                }
                assert(token@[q] == '.');
            }
        }
        let msg = slice_chars(&chars, 0, d2);
        let mb = match chars_to_ascii_bytes(&msg) {
            Some(b) => b,
            None => {
                proof {
                    assert forall|id: i32, name: Seq<char>, exp: i64|
                        token@ != token_of(id as int, name, exp as int, key@) by {
                        if token@ == token_of(id as int, name, exp as int, key@) {
                            lemma_token_structure(token@, id as int, name, exp as int, key@);
                            let b = b64url_of(
                                ascii_bytes_of(claims_payload(id as int, name, exp as int)),
                            );
                            assert(dotless_ascii(b));
                            assert(dotless_ascii(h64@));
                            assert forall|k: int| 0 <= k < msg@.len() implies is_ascii_char(
                                #[trigger] msg@[k],
                            ) by {
                                assert(msg@[k] == token@[k]);
                                if k < h64@.len() {
                                    assert(token@[k] == h64@[k]);
                                } else if k == h64@.len() {
                                    assert(token@[k] == '.');
                                } else {
                                    assert(token@[k] == b[k - h64@.len() - 1]);
                                }
                            }
                        }
                    }
                }
                return Err(InvalidReason::Malformed);
            },
        };
        let tag = sign_hs256(&mb, key);
        match find_char(&chars, d2 + 1, '.') {
            Some(e3) => {
                proof {
                    assert forall|id: i32, name: Seq<char>, exp: i64|
                        token@ != token_of(id as int, name, exp as int, key@) by {
                        if token@ == token_of(id as int, name, exp as int, key@) {
                            lemma_token_structure(token@, id as int, name, exp as int, key@);
                            let b = b64url_of(
                                ascii_bytes_of(claims_payload(id as int, name, exp as int)),
                            );
                            let c = hs256_tag(
                                ascii_bytes_of(message_of(id as int, name, exp as int)),
                                key@,
                            );
                            assert(dotless_ascii(c));
                            let off = h64@.len() + b.len() + 2int;
                            assert(token@.subrange(off, token@.len() as int) == c);
                            assert(token@[e3 as int] == token@.subrange(
                                off,
                                token@.len() as int,
                            )[e3 - off]);
                            assert(token@[e3 as int] != '.');
                        }
                    }
                }
                return Err(InvalidReason::Malformed);
            },
            None => {},
        }
        let tagc = str_chars(tag.as_str());
        let sig = slice_chars(&chars, d2 + 1, chars.len());
        if !chars_eq(&sig, &tagc) {
            proof {
                assert forall|id: i32, name: Seq<char>, exp: i64|
                    token@ != token_of(id as int, name, exp as int, key@) by {
                    if token@ == token_of(id as int, name, exp as int, key@) {
                        lemma_token_structure(token@, id as int, name, exp as int, key@);
                        let m = message_of(id as int, name, exp as int);
                        assert(msg@ =~= m);
                        assert(mb@ == ascii_bytes_of(m));
                        let c = hs256_tag(ascii_bytes_of(m), key@);
                        assert(sig@ =~= c);
                        assert(tagc@ == c);
                    }
                }
            }
            return Err(InvalidReason::BadSignature);
        }
        let pb64 = slice_chars(&chars, p + 1, d2);
        let ps = chars_to_string(&pb64);
        let pbytes = match b64_decode(ps.as_str()) {
            Some(b) => b,
            None => {
                proof {
                    assert forall|id: i32, name: Seq<char>, exp: i64|
                        token@ != token_of(id as int, name, exp as int, key@) by {
                        if token@ == token_of(id as int, name, exp as int, key@) {
                            lemma_token_structure(token@, id as int, name, exp as int, key@);
                            let pbs = ascii_bytes_of(
                                claims_payload(id as int, name, exp as int),
                            );
                            assert(ps@ =~= b64url_of(pbs));
                        }
                    }
                }
                return Err(InvalidReason::Malformed);
            },
        };
        let pchars = match ascii_bytes_to_chars(&pbytes) {
            Some(v) => v,
            None => {
                proof {
                    assert forall|id: i32, name: Seq<char>, exp: i64|
                        token@ != token_of(id as int, name, exp as int, key@) by {
                        if token@ == token_of(id as int, name, exp as int, key@) {
                            lemma_token_structure(token@, id as int, name, exp as int, key@);
                            let pl = claims_payload(id as int, name, exp as int);
                            let pbs = ascii_bytes_of(pl);
                            assert(ps@ =~= b64url_of(pbs));
                            assert(pbytes@ == pbs);
                            lemma_payload_ascii(id as int, name, exp as int);
                            lemma_ascii_bytes_small(pl);
                        }
                    }
                }
                return Err(InvalidReason::Malformed);
            },
        };
        let parsed = match parse_payload(&pchars) {
            Some(t) => t,
            None => {
                proof {
                    assert forall|id: i32, name: Seq<char>, exp: i64|
                        token@ != token_of(id as int, name, exp as int, key@) by {
                        if token@ == token_of(id as int, name, exp as int, key@) {
                            lemma_token_structure(token@, id as int, name, exp as int, key@);
                            let pl = claims_payload(id as int, name, exp as int);
                            let pbs = ascii_bytes_of(pl);
                            assert(ps@ =~= b64url_of(pbs));
                            assert(pbytes@ == pbs);
                            lemma_payload_ascii(id as int, name, exp as int);
                            lemma_ascii_round_trip(pl);
                            assert(pchars@ == pl);
                            lemma_payload_scan_complete(pl, id as i64, name, exp);
                        }
                    }
                }
                return Err(InvalidReason::Malformed);
            },
        };
        let (idv, namev, expv) = parsed;
        proof {
            assert forall|id: i32, name: Seq<char>, exp: i64|
                token@ == token_of(id as int, name, exp as int, key@) implies idv == id as i64
                && namev@ == name && expv == exp by {
                lemma_token_structure(token@, id as int, name, exp as int, key@);
                let pl = claims_payload(id as int, name, exp as int);
                let pbs = ascii_bytes_of(pl);
                assert(ps@ =~= b64url_of(pbs));
                assert(pbytes@ == pbs);
                lemma_payload_ascii(id as int, name, exp as int);
                lemma_ascii_round_trip(pl);
                assert(pchars@ == pl);
                lemma_payload_scan_complete(pl, id as i64, name, exp);
            }
        }
        if idv < -2147483648i64 || idv > 2147483647i64 {
            return Err(InvalidReason::Malformed);
        }
        if now >= expv {
            return Err(InvalidReason::Expired);
        }
        let username = chars_to_string(&namev);
        let c = Claims { id: idv as i32, username, exp: expv };
        proof {
            assert(ascii_seq(msg@));
            assert(token@ =~= msg@ + seq!['.'] + sig@);
            assert(sig@ == hs256_tag(ascii_bytes_of(msg@), key@));
        }
        Ok(c)
    }
}

} // verus!
