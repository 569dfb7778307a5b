//! HTTP basic authentication of the dashboard.

use vstd::prelude::*;
use vstd::string::*;
use vstd::utf8::{encode_scalar, encode_utf8, valid_utf8};

verus! {

/// The user name and password that the dashboard asks for.
#[derive(Debug, Clone)]
pub struct QrushBasicAuthConfig {
    pub username: String,
    pub password: String,
}

/// What `base64`'s `STANDARD` engine (standard alphabet, padding) decodes
/// `input` to, or `None` when it rejects it.
pub uninterp spec fn base64_standard_decode(input: Seq<u8>) -> Option<Seq<u8>>;

/// Decodes with `base64::engine::general_purpose::STANDARD.decode`.
/// Claimed: the bytes returned, or the refusal, are the named
/// `base64_standard_decode` of the input.
#[verifier::external_body]
fn decode_base64_standard(input: &[u8]) -> (r: Option<Vec<u8>>)
    ensures
        match r {
            Some(v) => base64_standard_decode(input@) == Some(v@),
            None => base64_standard_decode(input@) is None,
        },
{
    match base64::Engine::decode(&base64::engine::general_purpose::STANDARD, input) {
        Ok(v) => Some(v),
        Err(_) => None,
    }
}

/// Whether `std::str::from_utf8` accepts the bytes. Claimed: it accepts
/// exactly the well-formed UTF-8 that `vstd::utf8::valid_utf8` describes.
#[verifier::external_body]
fn is_utf8(bytes: &[u8]) -> (b: bool)
    ensures
        b == valid_utf8(bytes@),
{
    std::str::from_utf8(bytes).is_ok()
}

/// Position of the first byte `c` in `s`, or the length of `s`.
pub open spec fn byte_pos(s: Seq<u8>, c: u8) -> nat
    decreases s.len(),
{
    if s.len() == 0 || s[0] == c {
        0
    } else {
        1 + byte_pos(s.drop_first(), c)
    }
}

proof fn lemma_byte_pos(s: Seq<u8>, c: u8)
    ensures
        byte_pos(s, c) <= s.len(),
    decreases s.len(),
{
    if s.len() > 0 && s[0] != c {
        lemma_byte_pos(s.drop_first(), c);
    }
}

/// `user:pass` credentials: the user is what comes before the first `:`,
/// the password what follows it (empty without a `:`).
pub open spec fn credentials_match(decoded: Seq<u8>, user: Seq<u8>, pass: Seq<u8>) -> bool {
    let p = byte_pos(decoded, 0x3a);
    let u = decoded.take(p as int);
    let w = if p < decoded.len() {
        decoded.skip((p + 1) as int)
    } else {
        Seq::<u8>::empty()
    };
    u == user && w == pass
}

/// The scheme prefix of the header.
pub open spec fn basic_prefix() -> Seq<char> {
    seq!['B', 'a', 's', 'i', 'c', ' ']
}

/// Whether a request passes: always when no credentials are configured;
/// otherwise its `Authorization` header must be `Basic ` followed by the
/// standard base64 of UTF-8 `user:pass` matching the configuration.
pub open spec fn basic_auth_allows(
    config: Option<(Seq<char>, Seq<char>)>,
    header: Option<Seq<char>>,
) -> bool {
    match config {
        None => true,
        Some((user, pass)) => match header {
            None => false,
            Some(h) => {
                &&& h.len() >= 6
                &&& h.take(6) == basic_prefix()
                &&& match base64_standard_decode(encode_utf8(h.skip(6))) {
                    None => false,
                    Some(d) => valid_utf8(d) && credentials_match(
                        d,
                        encode_utf8(user),
                        encode_utf8(pass),
                    ),
                }
            },
        },
    }
}

/// Without configured credentials every request passes, whatever its
/// header.
pub proof fn law_no_credentials_allows_all(header: Option<Seq<char>>)
    ensures
        basic_auth_allows(None, header),
{
}

/// With credentials configured, a request without an `Authorization`
/// header is refused.
pub proof fn law_missing_header_refused(user: Seq<char>, pass: Seq<char>)
    ensures
        !basic_auth_allows(Some((user, pass)), None),
{
}

proof fn lemma_encode_concat(a: Seq<char>, b: Seq<char>)
    ensures
        encode_utf8(a + b) == encode_utf8(a) + encode_utf8(b),
    decreases a.len(),
{
    if a.len() > 0 {
        assert((a + b).drop_first() =~= a.drop_first() + b);
        lemma_encode_concat(a.drop_first(), b);
        assert(encode_utf8(a + b) =~= encode_utf8(a) + encode_utf8(b));
    } else {
        assert(a + b =~= b);
    }
}

proof fn lemma_byte_pos_after(u: Seq<u8>, c: u8, rest: Seq<u8>)
    requires
        !u.contains(c),
    ensures
        byte_pos(u + seq![c] + rest, c) == u.len(),
    decreases u.len(),
{
    let s = u + seq![c] + rest;
    if u.len() > 0 {
        assert(u[0] != c) by {
            assert(u.contains(u[0]));
        }
        assert(s.drop_first() =~= u.drop_first() + seq![c] + rest);
        assert(!u.drop_first().contains(c)) by {
            if u.drop_first().contains(c) {
                let k = choose|k: int| 0 <= k < u.drop_first().len() && u.drop_first()[k] == c;
                assert(u[k + 1] == c);
            }
        }
        lemma_byte_pos_after(u.drop_first(), c, rest);
    } else {
        assert(s[0] == c);
    }
}

/// With credentials configured, a header `Basic <token>` whose token
/// decodes to the UTF-8 text `user:pass` (a user name without `:`) passes
/// exactly when that user and password are the configured ones.
pub proof fn law_credentials_decide(
    user: Seq<char>,
    pass: Seq<char>,
    token: Seq<char>,
    given_user: Seq<char>,
    given_pass: Seq<char>,
)
    requires
        !encode_utf8(given_user).contains(0x3a),
        base64_standard_decode(encode_utf8(token)) == Some(
            encode_utf8(given_user + seq![':'] + given_pass),
        ),
    ensures
        basic_auth_allows(Some((user, pass)), Some(basic_prefix() + token)) == (given_user == user
            && given_pass == pass),
{
    let h = basic_prefix() + token;
    assert(h.take(6) =~= basic_prefix());
    assert(h.skip(6) =~= token);
    let colon = seq![':'];
    lemma_encode_concat(given_user + colon, given_pass);
    lemma_encode_concat(given_user, colon);
    assert(encode_scalar(':' as u32) == seq![0x3au8]) by {
        assert((0x3au32 & 0x7f) as u8 == 0x3au8) by (bit_vector);
    }
    assert(colon.drop_first() =~= Seq::<char>::empty());
    assert(encode_utf8(Seq::<char>::empty()) =~= Seq::<u8>::empty());
    assert(colon[0] == ':');
    assert(encode_utf8(colon) == encode_scalar(colon[0] as u32) + encode_utf8(colon.drop_first()));
    assert(encode_utf8(colon) =~= seq![0x3au8]);
    let eu = encode_utf8(given_user);
    let ep = encode_utf8(given_pass);
    let d = encode_utf8(given_user + colon + given_pass);
    assert(d =~= eu + seq![0x3au8] + ep);
    vstd::utf8::encode_utf8_valid_utf8(given_user + colon + given_pass);
    lemma_byte_pos_after(eu, 0x3a, ep);
    assert(d.take(eu.len() as int) =~= eu);
    assert(d.skip((eu.len() + 1) as int) =~= ep);
    vstd::utf8::encode_utf8_decode_utf8(given_user);
    vstd::utf8::encode_utf8_decode_utf8(given_pass);
    vstd::utf8::encode_utf8_decode_utf8(user);
    vstd::utf8::encode_utf8_decode_utf8(pass);
}

/// The configured user and password, as characters.
pub open spec fn config_view(config: Option<&QrushBasicAuthConfig>) -> Option<(Seq<char>, Seq<char>)> {
    match config {
        Some(c) => Some((c.username@, c.password@)),
        None => None,
    }
}

/// The header value, as characters.
pub open spec fn header_view(h: Option<&str>) -> Option<Seq<char>> {
    match h {
        Some(s) => Some(s@),
        None => None,
    }
}

/// Whether `a[lo..hi]` equals `b`.
fn bytes_eq(a: &[u8], lo: usize, hi: usize, b: &[u8]) -> (r: bool)
    requires
        lo <= hi <= a@.len(),
    ensures
        r == (a@.subrange(lo as int, hi as int) == b@),
{
    if hi - lo != b.len() {
        return false;
    }
    let mut i: usize = 0;
    while i < b.len()
        invariant
            hi - lo == b@.len(),
            lo <= hi <= a@.len(),
            i <= b@.len(),
            forall|j: int| 0 <= j < i ==> a@[lo + j] == b@[j],
        decreases b.len() - i,
    {
        if a[lo + i] != b[i] {
            assert(a@.subrange(lo as int, hi as int)[i as int] != b@[i as int]);
            return false;
        }
        i = i + 1;
    }
    assert(a@.subrange(lo as int, hi as int) =~= b@);
    true
}

/// Checks an `Authorization` header value against the configured
/// credentials; see [`basic_auth_allows`].
pub fn check_basic_auth(config: Option<&QrushBasicAuthConfig>, authorization: Option<&str>) -> (ok:
    bool)
    ensures
        ok == basic_auth_allows(config_view(config), header_view(authorization)),
{
    let cfg = match config {
        None => return true,
        Some(c) => c,
    };
    let h = match authorization {
        None => return false,
        Some(h) => h,
    };
    let n = h.unicode_len();
    if n < 6 {
        return false;
    }
    let prefix_ok = h.get_char(0) == 'B' && h.get_char(1) == 'a' && h.get_char(2) == 's'
        && h.get_char(3) == 'i' && h.get_char(4) == 'c' && h.get_char(5) == ' ';
    assert(prefix_ok == (h@.take(6) == basic_prefix())) by {
        if h@.take(6) == basic_prefix() {
            assert(h@.take(6)[0] == 'B');
            assert(h@.take(6)[1] == 'a');
            assert(h@.take(6)[2] == 's');
            assert(h@.take(6)[3] == 'i');
            assert(h@.take(6)[4] == 'c');
            assert(h@.take(6)[5] == ' ');
        }
        if prefix_ok {
            assert(h@.take(6) =~= basic_prefix());
        }
    }
    if !prefix_ok {
        return false;
    }
    let encoded = h.substring_char(6, n);
    assert(encoded@ =~= h@.skip(6));
    let decoded = match decode_base64_standard(encoded.as_bytes()) {
        None => return false,
        Some(d) => d,
    };
    if !is_utf8(decoded.as_slice()) {
        return false;
    }
    let d = decoded.as_slice();
    let mut p: usize = 0;
    assert(d@.skip(0) =~= d@);
    while p < d.len() && d[p] != 0x3a
        invariant
            p <= d@.len(),
            byte_pos(d@, 0x3a) == p + byte_pos(d@.skip(p as int), 0x3a),
        decreases d.len() - p,
    {
        assert(d@.skip(p as int).drop_first() =~= d@.skip(p + 1));
        p = p + 1;
    }
    let user = cfg.username.as_str().as_bytes();
    let pass = cfg.password.as_str().as_bytes();
    if !bytes_eq(d, 0, p, user) {
        return false;
    }
    assert(d@.take(p as int) =~= d@.subrange(0, p as int));
    if p < d.len() {
        let r = bytes_eq(d, p + 1, d.len(), pass);
        assert(d@.skip(p + 1) =~= d@.subrange(p + 1, d@.len() as int));
        r
    } else {
        assert(Seq::<u8>::empty() =~= d@.subrange(d@.len() as int, d@.len() as int));
        bytes_eq(d, d.len(), d.len(), pass)
    }
}

} // verus!
