//! Issuance of signed, expiring identity tokens.
//!
//! A token is the conventional three-part dot-joined encoding
//! `base64url(header) . base64url(claims) . base64url(signature)`, where the
//! header is `{"alg":"HS384","typ":"JWT"}`, the claims carry the subject and
//! the string-encoded `iat`/`exp` unix seconds, and the signature is
//! HMAC-SHA384 over the first two segments under the issuer's secret.
use vstd::prelude::*;

use crate::encoding::b64url;
use crate::encoding::b64url_encode;
use crate::encoding::dec_i64;
use crate::encoding::dec_int;
use crate::encoding::json_escape;
use crate::encoding::json_escape_bytes;
use vstd::string::StrSliceExecFns;
use vstd::string::StringExecFns;
use vstd::utf8::encode_utf8;
use hmac::Hmac;
use hmac::Mac;
use sha2::Sha384;

verus! {

/// The HMAC-SHA384 tag of `msg` under `key`; the tag depends on the key and
/// the message alone.
pub uninterp spec fn hmac_sha384_of(key: Seq<u8>, msg: Seq<u8>) -> Seq<u8>;

/// Relies on the `hmac` crate's `Hmac::<Sha384>` (`new_from_slice`, `update`,
/// `finalize`): the tag is a function of key and message alone, 48 bytes long
/// (the SHA-384 output size), and `new_from_slice` accepts keys of any length.
#[verifier::external_body]
fn hmac_sha384(key: &[u8], msg: &[u8]) -> (r: Vec<u8>)
    ensures
        r@ == hmac_sha384_of(key@, msg@),
        r@.len() == 48,
{
    match <Hmac<Sha384> as Mac>::new_from_slice(key) {
        Ok(mut mac) => {
            mac.update(msg);
            mac.finalize().into_bytes().to_vec()
        },
        Err(_) => Vec::new(),
    }
}

/// The last unix second the clock's date type can carry; a reading beyond
/// it does not return.
pub open spec fn max_clock_reading() -> int {
    8_210_298_412_799
}

/// Relies on `chrono::Utc::now`: the current unix time in whole seconds.
/// Which second comes back cannot be promised, but every reading that
/// returns at all lies between the epoch and the date type's last
/// representable second.
#[verifier::external_body]
pub(crate) fn now_unix() -> (r: i64)
    ensures
        0 <= r <= max_clock_reading(),
{
    chrono::Utc::now().timestamp()
}

/// The characters of an ASCII byte string, one character per byte.
pub open spec fn ascii_chars(s: Seq<u8>) -> Seq<char> {
    Seq::new(s.len(), |i: int| s[i] as char)
}

/// Relies on `String::from_utf8`: ASCII bytes decode to exactly one character
/// per byte.
#[verifier::external_body]
fn ascii_to_string(v: Vec<u8>) -> (r: String)
    requires
        forall|i: int| 0 <= i < v@.len() ==> v@[i] < 128,
    ensures
        r@ == ascii_chars(v@),
{
    match String::from_utf8(v) {
        Ok(s) => s,
        Err(_) => String::new(),
    }
}

/// The token header, fixed for every token this issuer mints.
pub open spec fn header_json() -> Seq<u8> {
    encode_utf8("{\"alg\":\"HS384\",\"typ\":\"JWT\"}"@)
}

/// The claim set as canonically encoded JSON: the subject and the two
/// string-encoded timestamps, in this order and nothing else.
pub open spec fn claims_json(subject: Seq<u8>, iat: int, exp: int) -> Seq<u8> {
    encode_utf8("{\"user_name\":\""@) + json_escape(subject) + encode_utf8("\",\"iat\":\""@)
        + dec_int(iat) + encode_utf8("\",\"exp\":\""@) + dec_int(exp) + encode_utf8("\"}"@)
}

/// The signing input: the first two base64url segments joined by a dot.
pub open spec fn signing_input(subject: Seq<u8>, iat: int, exp: int) -> Seq<u8> {
    b64url(header_json()) + seq![46u8] + b64url(claims_json(subject, iat, exp))
}

/// The complete token as bytes: signing input, a dot, and the base64url of
/// the HMAC-SHA384 tag over the signing input.
pub open spec fn jwt_bytes(secret: Seq<u8>, subject: Seq<u8>, iat: int, exp: int) -> Seq<u8> {
    signing_input(subject, iat, exp) + seq![46u8] + b64url(
        hmac_sha384_of(secret, signing_input(subject, iat, exp)),
    )
}

/// The complete token as the character string handed to callers.
pub open spec fn jwt_token(secret: Seq<u8>, subject: Seq<char>, iat: int, exp: int) -> Seq<char> {
    ascii_chars(jwt_bytes(secret, encode_utf8(subject), iat, exp))
}

/// Why a token could not be minted: the clock reading and the requested
/// lifetime do not fit the timestamp arithmetic.
pub enum SigningError {
    TimestampOutOfRange,
}

/// Mints signed, time-bounded assertions of identity; the only place the
/// signing secret is used. The secret is fixed at construction.
pub struct TokenIssuer {
    secret: Vec<u8>,
}

impl TokenIssuer {
    /// The signing secret this issuer was built with.
    pub closed spec fn secret_view(&self) -> Seq<u8> {
        self.secret@
    }

    pub fn new(secret: Vec<u8>) -> (r: TokenIssuer)
        ensures
            r.secret_view() == secret@,
    {
        TokenIssuer { secret }
    }

    /// Builds and signs the token for `subject` with the given issue and
    /// expiry instants. Total: every claim set has a token.
    pub fn issue_at(&self, subject: &str, iat: i64, exp: i64) -> (r: String)
        ensures
            r@ == jwt_token(self.secret_view(), subject@, iat as int, exp as int),
    {
        let header = "{\"alg\":\"HS384\",\"typ\":\"JWT\"}";
        let mut claims: Vec<u8> = "{\"user_name\":\"".as_bytes_vec();
        let mut escaped = json_escape_bytes(subject.as_bytes());
        claims.append(&mut escaped);
        let mut mid_iat = "\",\"iat\":\"".as_bytes_vec();
        claims.append(&mut mid_iat);
        let mut iat_digits = dec_i64(iat);
        claims.append(&mut iat_digits);
        let mut mid_exp = "\",\"exp\":\"".as_bytes_vec();
        claims.append(&mut mid_exp);
        let mut exp_digits = dec_i64(exp);
        claims.append(&mut exp_digits);
        let mut tail = "\"}".as_bytes_vec();
        claims.append(&mut tail);
        proof {
            assert(claims@ =~= claims_json(
                encode_utf8(subject@),
                iat as int,
                exp as int,
            ));
        }
        let mut token = b64url_encode(header.as_bytes());
        token.push(46);
        let mut claims_b64 = b64url_encode(claims.as_slice());
        token.append(&mut claims_b64);
        proof {
            assert(token@ =~= signing_input(encode_utf8(subject@), iat as int, exp as int));
        }
        let tag = hmac_sha384(self.secret.as_slice(), token.as_slice());
        token.push(46);
        let mut tag_b64 = b64url_encode(tag.as_slice());
        token.append(&mut tag_b64);
        proof {
            assert(token@ =~= jwt_bytes(
                self.secret@,
                encode_utf8(subject@),
                iat as int,
                exp as int,
            ));
            lemma_jwt_bytes_ascii(self.secret@, encode_utf8(subject@), iat as int, exp as int);
        }
        ascii_to_string(token)
    }

    /// Captures the current instant and issues a token for `subject` that
    /// expires `ttl_minutes` minutes later. Fails only when the clock
    /// reading and the lifetime do not fit 64-bit timestamp arithmetic:
    /// every lifetime whose span in seconds keeps the expiry representable
    /// for any possible clock reading is owed a token.
    pub fn issue(&self, subject: &str, ttl_minutes: i64) -> (r: Result<String, SigningError>)
        ensures
            r matches Ok(t) ==> exists|iat: int|
                t@ == #[trigger] jwt_token(self.secret_view(), subject@, iat, iat + ttl_minutes * 60),
            i64::MIN <= ttl_minutes * 60 && ttl_minutes * 60 <= i64::MAX - max_clock_reading()
                ==> r is Ok,
            ttl_minutes * 60 > i64::MAX || ttl_minutes * 60 < i64::MIN ==> r is Err,
    {
        let iat = now_unix();
        let span = match ttl_minutes.checked_mul(60) {
            Some(s) => s,
            None => {
                return Err(SigningError::TimestampOutOfRange);
            },
        };
        let exp = match iat.checked_add(span) {
            Some(e) => e,
            None => {
                return Err(SigningError::TimestampOutOfRange);
            },
        };
        let token = self.issue_at(subject, iat, exp);
        proof {
            assert(token@ == jwt_token(
                self.secret_view(),
                subject@,
                iat as int,
                iat as int + ttl_minutes * 60,
            ));
        }
        Ok(token)
    }
}

/// Every byte of a finished token is printable ASCII: the three segments are
/// base64url digits and the separators are dots.
pub proof fn lemma_jwt_bytes_ascii(secret: Seq<u8>, subject: Seq<u8>, iat: int, exp: int)
    ensures
        forall|i: int|
            0 <= i < jwt_bytes(secret, subject, iat, exp).len() ==> #[trigger] jwt_bytes(
                secret,
                subject,
                iat,
                exp,
            )[i] < 128,
{
    crate::encoding::lemma_b64url_ascii(header_json());
    crate::encoding::lemma_b64url_ascii(claims_json(subject, iat, exp));
    crate::encoding::lemma_b64url_ascii(
        hmac_sha384_of(secret, signing_input(subject, iat, exp)),
    );
}

/// Law: a finished token is exactly three dot-joined segments: it is the
/// header, claims and signature encodings in order, separated by the only
/// two dot bytes it contains — no segment has a dot of its own.
pub proof fn lemma_token_three_segments(secret: Seq<u8>, subject: Seq<char>, iat: int, exp: int)
    ensures
        ({
            let su = encode_utf8(subject);
            let head = b64url(header_json());
            let claims = b64url(claims_json(su, iat, exp));
            let tag = b64url(hmac_sha384_of(secret, signing_input(su, iat, exp)));
            &&& jwt_bytes(secret, su, iat, exp) == head + seq![46u8] + claims + seq![46u8] + tag
            &&& forall|i: int| 0 <= i < head.len() ==> #[trigger] head[i] != 46
            &&& forall|i: int| 0 <= i < claims.len() ==> #[trigger] claims[i] != 46
            &&& forall|i: int| 0 <= i < tag.len() ==> #[trigger] tag[i] != 46
        }),
{
    let su = encode_utf8(subject);
    crate::encoding::lemma_b64url_ascii(header_json());
    crate::encoding::lemma_b64url_ascii(claims_json(su, iat, exp));
    crate::encoding::lemma_b64url_ascii(hmac_sha384_of(secret, signing_input(su, iat, exp)));
}

/// The claim sets of two tokens for one subject differ whenever their issue
/// instants differ, whatever the expiries are.
proof fn lemma_claims_json_iat_ne(subject: Seq<u8>, iat1: int, exp1: int, iat2: int, exp2: int)
    requires
        iat1 != iat2,
    ensures
        claims_json(subject, iat1, exp1) != claims_json(subject, iat2, exp2),
{
    let p = encode_utf8("{\"user_name\":\""@) + json_escape(subject) + encode_utf8(
        "\",\"iat\":\""@,
    );
    let a1 = dec_int(iat1);
    let a2 = dec_int(iat2);
    let q1 = encode_utf8("\",\"exp\":\""@) + dec_int(exp1) + encode_utf8("\"}"@);
    let q2 = encode_utf8("\",\"exp\":\""@) + dec_int(exp2) + encode_utf8("\"}"@);
    reveal_strlit("\",\"exp\":\"");
    assert(vstd::utf8::is_ascii_chars("\",\"exp\":\""@));
    vstd::utf8::is_ascii_chars_encode_utf8("\",\"exp\":\""@);
    assert(encode_utf8("\",\"exp\":\""@)[0] == 34);
    assert(q1.len() > 0 && q1[0] == 34);
    assert(q2.len() > 0 && q2[0] == 34);
    crate::encoding::lemma_dec_int_bytes(iat1);
    crate::encoding::lemma_dec_int_bytes(iat2);
    crate::encoding::lemma_dec_int_injective(iat1, iat2);
    assert(claims_json(subject, iat1, exp1) =~= p + a1 + q1);
    assert(claims_json(subject, iat2, exp2) =~= p + a2 + q2);
    crate::encoding::lemma_delimited_segment_ne(p, a1, a2, q1, q2, 34);
}

/// Concatenation of byte sequences is associative.
proof fn lemma_add_assoc(x: Seq<u8>, y: Seq<u8>, z: Seq<u8>)
    ensures
        (x + y) + z == x + (y + z),
{
    assert((x + y) + z =~= x + (y + z));
}

/// Distinct byte strings read as distinct character strings.
proof fn lemma_ascii_chars_injective(x: Seq<u8>, y: Seq<u8>)
    requires
        ascii_chars(x) == ascii_chars(y),
    ensures
        x == y,
{
    assert(ascii_chars(x).len() == x.len());
    assert(ascii_chars(y).len() == y.len());
    assert(x.len() == y.len());
    assert forall|i: int| 0 <= i < x.len() implies x[i] == y[i] by {
        assert(ascii_chars(x)[i] == (x[i] as char));
        assert(ascii_chars(y)[i] == (y[i] as char));
        assert((x[i] as char) == (y[i] as char));
    }
    assert(x =~= y);
}

/// Law: two tokens for the same subject issued at different instants are
/// different strings, whatever their expiries and signatures came to be; in
/// particular two tokens minted one second apart never coincide.
pub proof fn lemma_distinct_instants_distinct_tokens(
    secret: Seq<u8>,
    subject: Seq<char>,
    iat1: int,
    exp1: int,
    iat2: int,
    exp2: int,
)
    requires
        iat1 != iat2,
    ensures
        jwt_token(secret, subject, iat1, exp1) != jwt_token(secret, subject, iat2, exp2),
{
    let su = encode_utf8(subject);
    let c1 = claims_json(su, iat1, exp1);
    let c2 = claims_json(su, iat2, exp2);
    lemma_claims_json_iat_ne(su, iat1, exp1, iat2, exp2);
    if b64url(c1) == b64url(c2) {
        crate::encoding::lemma_b64url_injective(c1, c2);
    }
    let p = b64url(header_json()) + seq![46u8];
    let a1 = b64url(c1);
    let a2 = b64url(c2);
    let tag1 = b64url(hmac_sha384_of(secret, signing_input(su, iat1, exp1)));
    let tag2 = b64url(hmac_sha384_of(secret, signing_input(su, iat2, exp2)));
    let q1 = seq![46u8] + tag1;
    let q2 = seq![46u8] + tag2;
    crate::encoding::lemma_b64url_ascii(c1);
    crate::encoding::lemma_b64url_ascii(c2);
    let t1 = jwt_bytes(secret, su, iat1, exp1);
    let t2 = jwt_bytes(secret, su, iat2, exp2);
    lemma_add_assoc(p + a1, seq![46u8], tag1);
    lemma_add_assoc(p + a2, seq![46u8], tag2);
    assert(t1 == (p + a1) + q1);
    assert(t2 == (p + a2) + q2);
    crate::encoding::lemma_delimited_segment_ne(p, a1, a2, q1, q2, 46);
    if jwt_token(secret, subject, iat1, exp1) == jwt_token(secret, subject, iat2, exp2) {
        lemma_ascii_chars_injective(t1, t2);
    }
}

/// Issues a token for `user_name` under the process-wide secret, expiring
/// `exp_min` minutes from now. Succeeds for every lifetime whose span in
/// seconds keeps the expiry representable for any possible clock reading;
/// fails when the span itself overflows the timestamps.
pub fn create_jwt(user_name: &str, exp_min: i64) -> (r: Result<String, String>)
    ensures
        r matches Ok(t) ==> exists|iat: int|
            t@ == #[trigger] jwt_token(encode_utf8("secret"@), user_name@, iat, iat + exp_min * 60),
        i64::MIN <= exp_min * 60 && exp_min * 60 <= i64::MAX - max_clock_reading() ==> r is Ok,
        exp_min * 60 > i64::MAX || exp_min * 60 < i64::MIN ==> r is Err,
{
    let issuer = TokenIssuer::new("secret".as_bytes_vec());
    match issuer.issue(user_name, exp_min) {
        Ok(t) => Ok(t),
        Err(_) => Err(String::from_str("Failed to sign token")),
    }
}

} // verus!
