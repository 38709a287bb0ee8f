use auth_core::encoding::b64url_encode;
use auth_core::encoding::dec_i64;
use auth_core::encoding::json_escape_bytes;

#[test]
fn base64url_matches_the_reference_vectors() {
    // RFC 4648 test vectors, unpadded.
    assert_eq!(b64url_encode(b""), b"");
    assert_eq!(b64url_encode(b"f"), b"Zg");
    assert_eq!(b64url_encode(b"fo"), b"Zm8");
    assert_eq!(b64url_encode(b"foo"), b"Zm9v");
    assert_eq!(b64url_encode(b"foob"), b"Zm9vYg");
    assert_eq!(b64url_encode(b"fooba"), b"Zm9vYmE");
    assert_eq!(b64url_encode(b"foobar"), b"Zm9vYmFy");
}

#[test]
fn base64url_uses_the_url_safe_alphabet() {
    // 0xfb 0xff encodes to characters that plain base64 would write + and /.
    assert_eq!(b64url_encode(&[0xfb, 0xff]), b"-_8");
}

#[test]
fn decimal_rendering_matches_integer_formatting() {
    assert_eq!(dec_i64(0), b"0");
    assert_eq!(dec_i64(7), b"7");
    assert_eq!(dec_i64(1000), b"1000");
    assert_eq!(dec_i64(-1), b"-1");
    assert_eq!(dec_i64(i64::MAX), b"9223372036854775807");
    assert_eq!(dec_i64(i64::MIN), b"-9223372036854775808");
}

#[test]
fn json_escaping_touches_only_what_json_requires() {
    assert_eq!(json_escape_bytes(b"alice"), b"alice");
    assert_eq!(json_escape_bytes(b"a\"b"), b"a\\\"b");
    assert_eq!(json_escape_bytes(b"a\\b"), b"a\\\\b");
    assert_eq!(json_escape_bytes(b"a\nb"), b"a\\u000ab");
    assert_eq!(json_escape_bytes(&[0x1f]), b"\\u001f");
    // Non-ASCII UTF-8 content passes through untouched.
    assert_eq!(json_escape_bytes("café".as_bytes()), "café".as_bytes());
}
