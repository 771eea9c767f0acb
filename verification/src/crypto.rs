//! Hashing, message authentication, Base64 and the other calls the token
//! logic makes into outside crates, each behind a small trusted wrapper.
use vstd::prelude::*;
use base64::engine::general_purpose::URL_SAFE_NO_PAD;
use base64::Engine;
use hmac::{Hmac, Mac};
use sha2::{Digest, Sha256};
use vstd::utf8::{decode_utf8, valid_utf8};

verus! {

/// The SHA-256 digest of a byte sequence.
pub uninterp spec fn spec_sha256(data: Seq<u8>) -> Seq<u8>;

/// `sha2::Sha256` over `data` (`new`, `update`, `finalize`): the 32-byte digest,
/// named by `spec_sha256`.
#[verifier::external_body]
pub(crate) fn sha256(data: &[u8]) -> (r: Vec<u8>)
    ensures
        r@ == spec_sha256(data@),
        r@.len() == 32,
{
    let mut hasher = Sha256::new();
    hasher.update(data);
    hasher.finalize().to_vec()
}

/// The HMAC-SHA256 tag of `data` under `key`.
pub uninterp spec fn spec_hmac_sha256(key: Seq<u8>, data: Seq<u8>) -> Seq<u8>;

/// `hmac::Hmac<Sha256>`: `new_from_slice(key)`, `update(data)`, `finalize()`.
/// The tag is named by `spec_hmac_sha256` and is 32 bytes long. HMAC takes keys
/// of any length (`HmacCore::new_from_slice` always returns `Ok`), so the
/// error arm is never taken.
#[verifier::external_body]
pub(crate) fn hmac_sha256(key: &[u8], data: &[u8]) -> (r: Vec<u8>)
    ensures
        r@ == spec_hmac_sha256(key@, data@),
        r@.len() == 32,
{
    let mut mac = match Hmac::<Sha256>::new_from_slice(key) {
        Ok(m) => m,
        Err(_) => return Vec::new(),
    };
    mac.update(data);
    mac.finalize().into_bytes().to_vec()
}

/// `hmac::Hmac<Sha256>`: `new_from_slice(key)`, `update(data)`,
/// `verify_slice(tag)`: whether `tag` is exactly the HMAC-SHA256 tag of `data`
/// under `key` (`verify_slice` rejects a tag of another length and compares in
/// constant time).
#[verifier::external_body]
pub(crate) fn hmac_sha256_verify(key: &[u8], data: &[u8], tag: &[u8]) -> (r: bool)
    ensures
        r == (tag@ == spec_hmac_sha256(key@, data@)),
{
    let mut mac = match Hmac::<Sha256>::new_from_slice(key) {
        Ok(m) => m,
        Err(_) => return false,
    };
    mac.update(data);
    mac.verify_slice(tag).is_ok()
}

/// A character of the URL-safe Base64 alphabet (`A`-`Z`, `a`-`z`, `0`-`9`, `-`, `_`).
pub open spec fn is_url_safe_char(c: char) -> bool {
    ||| 65 <= (c as u32) <= 90
    ||| 97 <= (c as u32) <= 122
    ||| 48 <= (c as u32) <= 57
    ||| c == '-'
    ||| c == '_'
}

/// The character of the URL-safe Base64 alphabet for a 6-bit value: `A`-`Z`
/// for 0-25, `a`-`z` for 26-51, `0`-`9` for 52-61, then `-` and `_`.
pub open spec fn b64url_char(v: int) -> char {
    if v < 26 {
        (v + 65) as char
    } else if v < 52 {
        (v + 71) as char
    } else if v < 62 {
        (v - 4) as char
    } else if v == 62 {
        '-'
    } else {
        '_'
    }
}

/// The 6-bit value of a character of the URL-safe Base64 alphabet.
pub open spec fn b64url_value(c: char) -> int {
    let n = c as int;
    if 65 <= n <= 90 {
        n - 65
    } else if 97 <= n <= 122 {
        n - 71
    } else if 48 <= n <= 57 {
        n + 4
    } else if c == '-' {
        62
    } else {
        63
    }
}

/// The characters of one group of one to three bytes: each three bytes give
/// four characters of six bits each; a short group of one or two bytes gives
/// two or three characters, its last one filled up with zero bits.
pub open spec fn b64url_group(d: Seq<u8>) -> Seq<char> {
    let b0 = d[0] as int;
    if d.len() == 1 {
        seq![b64url_char(b0 / 4), b64url_char((b0 % 4) * 16)]
    } else {
        let b1 = d[1] as int;
        if d.len() == 2 {
            seq![b64url_char(b0 / 4), b64url_char((b0 % 4) * 16 + b1 / 16), b64url_char((b1 % 16) * 4)]
        } else {
            let b2 = d[2] as int;
            seq![
                b64url_char(b0 / 4),
                b64url_char((b0 % 4) * 16 + b1 / 16),
                b64url_char((b1 % 16) * 4 + b2 / 64),
                b64url_char(b2 % 64),
            ]
        }
    }
}

/// The URL-safe Base64 encoding of a byte sequence without padding: its groups
/// of three bytes, in order, the last group possibly shorter.
pub open spec fn spec_b64url_encode(data: Seq<u8>) -> Seq<char>
    decreases data.len(),
{
    if data.len() == 0 {
        seq![]
    } else if data.len() <= 3 {
        b64url_group(data)
    } else {
        b64url_group(data.take(3)) + spec_b64url_encode(data.skip(3))
    }
}

proof fn lemma_b64url_char(v: int)
    requires
        0 <= v < 64,
    ensures
        is_url_safe_char(b64url_char(v)),
        b64url_value(b64url_char(v)) == v,
{
}

proof fn lemma_group_one_to_one(a0: u8, a1: u8, a2: u8, c0: u8, c1: u8, c2: u8)
    by (bit_vector)
    requires
        a0 / 4 == c0 / 4,
        (a0 % 4) * 16 + a1 / 16 == (c0 % 4) * 16 + c1 / 16,
        (a1 % 16) * 4 + a2 / 64 == (c1 % 16) * 4 + c2 / 64,
        a2 % 64 == c2 % 64,
    ensures
        a0 == c0 && a1 == c1 && a2 == c2,
{
}

proof fn lemma_group_shape(d: Seq<u8>)
    requires
        1 <= d.len() <= 3,
    ensures
        b64url_group(d).len() == d.len() + 1,
        forall|i: int| 0 <= i < b64url_group(d).len() ==> is_url_safe_char(#[trigger] b64url_group(d)[i]),
{
    let b0 = d[0] as int;
    lemma_b64url_char(b0 / 4);
    lemma_b64url_char((b0 % 4) * 16);
    if d.len() >= 2 {
        let b1 = d[1] as int;
        lemma_b64url_char((b0 % 4) * 16 + b1 / 16);
        lemma_b64url_char((b1 % 16) * 4);
        if d.len() == 3 {
            let b2 = d[2] as int;
            lemma_b64url_char((b1 % 16) * 4 + b2 / 64);
            lemma_b64url_char(b2 % 64);
        }
    }
}

proof fn lemma_group_one_to_one_seq(x: Seq<u8>, y: Seq<u8>)
    requires
        1 <= x.len() <= 3,
        1 <= y.len() <= 3,
        b64url_group(x) == b64url_group(y),
    ensures
        x == y,
{
    lemma_group_shape(x);
    lemma_group_shape(y);
    let gx = b64url_group(x);
    let gy = b64url_group(y);
    assert(x.len() == y.len());
    let x0 = x[0] as int;
    let y0 = y[0] as int;
    lemma_b64url_char(x0 / 4);
    lemma_b64url_char(y0 / 4);
    assert(gx[0] == gy[0]);
    if x.len() == 1 {
        lemma_b64url_char((x0 % 4) * 16);
        lemma_b64url_char((y0 % 4) * 16);
        assert(gx[1] == gy[1]);
        lemma_group_one_to_one(x[0], 0, 0, y[0], 0, 0);
        assert(x =~= y);
    } else {
        let x1 = x[1] as int;
        let y1 = y[1] as int;
        lemma_b64url_char((x0 % 4) * 16 + x1 / 16);
        lemma_b64url_char((y0 % 4) * 16 + y1 / 16);
        assert(gx[1] == gy[1]);
        if x.len() == 2 {
            lemma_b64url_char((x1 % 16) * 4);
            lemma_b64url_char((y1 % 16) * 4);
            assert(gx[2] == gy[2]);
            lemma_group_one_to_one(x[0], x[1], 0, y[0], y[1], 0);
            assert(x =~= y);
        } else {
            let x2 = x[2] as int;
            let y2 = y[2] as int;
            lemma_b64url_char((x1 % 16) * 4 + x2 / 64);
            lemma_b64url_char((y1 % 16) * 4 + y2 / 64);
            lemma_b64url_char(x2 % 64);
            lemma_b64url_char(y2 % 64);
            assert(gx[2] == gy[2]);
            assert(gx[3] == gy[3]);
            lemma_group_one_to_one(x[0], x[1], x[2], y[0], y[1], y[2]);
            assert(x =~= y);
        }
    }
}

/// The encoding uses only the URL-safe alphabet (no padding, no dot), and is
/// empty only for no bytes.
pub proof fn b64url_alphabet(data: Seq<u8>)
    ensures
        forall|i: int|
            0 <= i < spec_b64url_encode(data).len() ==> is_url_safe_char(
                #[trigger] spec_b64url_encode(data)[i],
            ),
        data.len() > 0 ==> spec_b64url_encode(data).len() >= 2,
        data.len() > 3 ==> spec_b64url_encode(data).len() >= 6,
        1 <= data.len() <= 3 ==> spec_b64url_encode(data).len() <= 4,
    decreases data.len(),
{
    if data.len() > 0 {
        if data.len() <= 3 {
            lemma_group_shape(data);
        } else {
            let head = data.take(3);
            let rest = data.skip(3);
            lemma_group_shape(head);
            b64url_alphabet(rest);
            let e = spec_b64url_encode(data);
            assert forall|i: int| 0 <= i < e.len() implies is_url_safe_char(#[trigger] e[i]) by {
                if i < 4 {
                    assert(e[i] == b64url_group(head)[i]);
                } else {
                    assert(e[i] == spec_b64url_encode(rest)[i - 4]);
                }
            }
        }
    }
}

/// Different byte sequences have different encodings.
pub proof fn b64url_one_to_one(x: Seq<u8>, y: Seq<u8>)
    requires
        spec_b64url_encode(x) == spec_b64url_encode(y),
    ensures
        x == y,
    decreases x.len(),
{
    b64url_alphabet(x);
    b64url_alphabet(y);
    if x.len() == 0 {
        assert(y.len() == 0);
        assert(x =~= y);
    } else if x.len() <= 3 {
        lemma_group_one_to_one_seq(x, y);
    } else {
        let ex = spec_b64url_encode(x);
        let ey = spec_b64url_encode(y);
        lemma_group_shape(x.take(3));
        lemma_group_shape(y.take(3));
        assert(ex.take(4) == b64url_group(x.take(3)));
        assert(ey.take(4) == b64url_group(y.take(3)));
        lemma_group_one_to_one_seq(x.take(3), y.take(3));
        assert(ex.skip(4) == spec_b64url_encode(x.skip(3)));
        assert(ey.skip(4) == spec_b64url_encode(y.skip(3)));
        b64url_one_to_one(x.skip(3), y.skip(3));
        assert(x =~= x.take(3) + x.skip(3));
        assert(y =~= y.take(3) + y.skip(3));
    }
}

/// `URL_SAFE_NO_PAD.encode(data)` of the `base64` crate: the URL-safe
/// Base64 encoding of `data` without padding, as `spec_b64url_encode` states it.
#[verifier::external_body]
pub(crate) fn b64url_encode(data: &[u8]) -> (r: String)
    ensures
        r@ == spec_b64url_encode(data@),
{
    URL_SAFE_NO_PAD.encode(data)
}

/// `URL_SAFE_NO_PAD.decode(text)` of the `base64` crate. Decoding is canonical
/// (no padding, no stray trailing bits): it succeeds exactly on the encodings
/// of byte sequences, and gives back the bytes whose encoding the text is. The
/// error is returned as its message.
#[verifier::external_body]
pub(crate) fn b64url_decode(text: &str) -> (r: Result<Vec<u8>, String>)
    ensures
        r matches Ok(v) ==> spec_b64url_encode(v@) == text@,
        (exists|x: Seq<u8>| spec_b64url_encode(x) == text@) ==> r is Ok,
{
    match URL_SAFE_NO_PAD.decode(text.as_bytes()) {
        Ok(v) => Ok(v),
        Err(e) => Err(e.to_string()),
    }
}

/// `String::from_utf8`: the text the bytes encode, or the error's message when
/// they are not valid UTF-8.
#[verifier::external_body]
pub(crate) fn string_from_utf8(bytes: Vec<u8>) -> (r: Result<String, String>)
    ensures
        r matches Ok(s) ==> valid_utf8(bytes@) && s@ == decode_utf8(bytes@),
        valid_utf8(bytes@) ==> r is Ok,
{
    match String::from_utf8(bytes) {
        Ok(s) => Ok(s),
        Err(e) => Err(e.to_string()),
    }
}

/// `worker::Date::now().as_millis()`: the current time of the Workers runtime,
/// in milliseconds since the epoch. Nothing is known of its value.
#[verifier::external_body]
pub(crate) fn now_millis() -> (r: u64) {
    worker::Date::now().as_millis()
}

/// `uuid::Uuid::new_v4().to_string()`: a fresh random identifier.
#[verifier::external_body]
pub(crate) fn new_record_id() -> (r: String) {
    uuid::Uuid::new_v4().to_string()
}

} // verus!
