//! Byte-level encodings the token format is built from: base64url without
//! padding, decimal rendering of timestamps, and JSON string escaping.
//! Every executable function is proved equal to a spec-level description.
use vstd::prelude::*;

verus! {

/// The base64url digit (as an ASCII byte) for a 6-bit value.
pub open spec fn b64_digit(v: int) -> u8 {
    if v < 26 {
        (65 + v) as u8  // 'A'..='Z'
    } else if v < 52 {
        (71 + v) as u8  // 'a'..='z'
    } else if v < 62 {
        (v - 4) as u8  // '0'..='9'
    } else if v == 62 {
        45u8  // '-'
    } else {
        95u8  // '_'
    }
}

/// base64url (RFC 4648 §5, no padding) of a byte sequence: each 3-byte group
/// becomes 4 digits; a 1- or 2-byte tail becomes 2 or 3 digits.
pub open spec fn b64url(s: Seq<u8>) -> Seq<u8>
    decreases s.len(),
{
    if s.len() == 0 {
        Seq::<u8>::empty()
    } else if s.len() == 1 {
        let b0 = s[0] as int;
        seq![b64_digit(b0 / 4), b64_digit((b0 % 4) * 16)]
    } else if s.len() == 2 {
        let b0 = s[0] as int;
        let b1 = s[1] as int;
        seq![b64_digit(b0 / 4), b64_digit((b0 % 4) * 16 + b1 / 16), b64_digit((b1 % 16) * 4)]
    } else {
        let b0 = s[0] as int;
        let b1 = s[1] as int;
        let b2 = s[2] as int;
        seq![
            b64_digit(b0 / 4),
            b64_digit((b0 % 4) * 16 + b1 / 16),
            b64_digit((b1 % 16) * 4 + b2 / 64),
            b64_digit(b2 % 64),
        ] + b64url(s.skip(3))
    }
}

/// Every base64url digit is printable ASCII and is neither `.` nor `"`.
pub proof fn lemma_b64_digit_ascii(v: int)
    requires
        0 <= v < 64,
    ensures
        45 <= b64_digit(v) < 128,
        b64_digit(v) != 46,
        b64_digit(v) != 34,
{
}

pub proof fn lemma_b64url_ascii(s: Seq<u8>)
    ensures
        forall|i: int|
            0 <= i < b64url(s).len() ==> 45 <= #[trigger] b64url(s)[i] < 128 && b64url(s)[i] != 46,
    decreases s.len(),
{
    if s.len() == 0 {
    } else if s.len() == 1 {
        lemma_b64_digit_ascii(s[0] as int / 4);
        lemma_b64_digit_ascii((s[0] as int % 4) * 16);
    } else if s.len() == 2 {
        lemma_b64_digit_ascii(s[0] as int / 4);
        lemma_b64_digit_ascii((s[0] as int % 4) * 16 + s[1] as int / 16);
        lemma_b64_digit_ascii((s[1] as int % 16) * 4);
    } else {
        lemma_b64_digit_ascii(s[0] as int / 4);
        lemma_b64_digit_ascii((s[0] as int % 4) * 16 + s[1] as int / 16);
        lemma_b64_digit_ascii((s[1] as int % 16) * 4 + s[2] as int / 64);
        lemma_b64_digit_ascii(s[2] as int % 64);
        lemma_b64url_ascii(s.skip(3));
        assert forall|i: int| 0 <= i < b64url(s).len() implies 45 <= #[trigger] b64url(s)[i] < 128
            && b64url(s)[i] != 46 by {
            if i >= 4 {
                assert(b64url(s)[i] == b64url(s.skip(3))[i - 4]);
            }
        }
    }
}

/// The base64url digit map is injective on 6-bit values.
pub proof fn lemma_b64_digit_injective(v1: int, v2: int)
    requires
        0 <= v1 < 64,
        0 <= v2 < 64,
        b64_digit(v1) == b64_digit(v2),
    ensures
        v1 == v2,
{
}

/// base64url encoding is injective: distinct byte strings have distinct
/// encodings.
pub proof fn lemma_b64url_injective(s1: Seq<u8>, s2: Seq<u8>)
    requires
        b64url(s1) == b64url(s2),
    ensures
        s1 == s2,
    decreases s1.len(),
{
    lemma_b64url_len(s1);
    lemma_b64url_len(s2);
    if s1.len() == 0 || s2.len() == 0 {
        assert(s1 =~= s2);
    } else if s1.len() == 1 {
        assert(s2.len() == 1);
        let b0 = s1[0] as int;
        let c0 = s2[0] as int;
        assert(b64url(s1)[0] == b64_digit(b0 / 4) && b64url(s1)[1] == b64_digit((b0 % 4) * 16));
        assert(b64url(s2)[0] == b64_digit(c0 / 4) && b64url(s2)[1] == b64_digit((c0 % 4) * 16));
        lemma_b64_digit_injective(b0 / 4, c0 / 4);
        lemma_b64_digit_injective((b0 % 4) * 16, (c0 % 4) * 16);
        assert(s1 =~= s2);
    } else if s1.len() == 2 {
        assert(s2.len() == 2);
        let b0 = s1[0] as int;
        let b1 = s1[1] as int;
        let c0 = s2[0] as int;
        let c1 = s2[1] as int;
        assert(b64url(s1)[0] == b64_digit(b0 / 4) && b64url(s1)[1] == b64_digit(
            (b0 % 4) * 16 + b1 / 16,
        ) && b64url(s1)[2] == b64_digit((b1 % 16) * 4));
        assert(b64url(s2)[0] == b64_digit(c0 / 4) && b64url(s2)[1] == b64_digit(
            (c0 % 4) * 16 + c1 / 16,
        ) && b64url(s2)[2] == b64_digit((c1 % 16) * 4));
        lemma_b64_digit_injective(b0 / 4, c0 / 4);
        lemma_b64_digit_injective((b0 % 4) * 16 + b1 / 16, (c0 % 4) * 16 + c1 / 16);
        lemma_b64_digit_injective((b1 % 16) * 4, (c1 % 16) * 4);
        assert(b0 % 4 == c0 % 4 && b1 / 16 == c1 / 16) by {
            assert((b0 % 4) * 16 + b1 / 16 == (c0 % 4) * 16 + c1 / 16);
        }
        assert(s1 =~= s2);
    } else {
        assert(s2.len() >= 3);
        let b0 = s1[0] as int;
        let b1 = s1[1] as int;
        let b2 = s1[2] as int;
        let c0 = s2[0] as int;
        let c1 = s2[1] as int;
        let c2 = s2[2] as int;
        assert(b64url(s1)[0] == b64_digit(b0 / 4) && b64url(s1)[1] == b64_digit(
            (b0 % 4) * 16 + b1 / 16,
        ) && b64url(s1)[2] == b64_digit((b1 % 16) * 4 + b2 / 64) && b64url(s1)[3] == b64_digit(
            b2 % 64,
        ));
        assert(b64url(s2)[0] == b64_digit(c0 / 4) && b64url(s2)[1] == b64_digit(
            (c0 % 4) * 16 + c1 / 16,
        ) && b64url(s2)[2] == b64_digit((c1 % 16) * 4 + c2 / 64) && b64url(s2)[3] == b64_digit(
            c2 % 64,
        ));
        lemma_b64_digit_injective(b0 / 4, c0 / 4);
        lemma_b64_digit_injective((b0 % 4) * 16 + b1 / 16, (c0 % 4) * 16 + c1 / 16);
        lemma_b64_digit_injective((b1 % 16) * 4 + b2 / 64, (c1 % 16) * 4 + c2 / 64);
        lemma_b64_digit_injective(b2 % 64, c2 % 64);
        assert(b0 % 4 == c0 % 4 && b1 / 16 == c1 / 16) by {
            assert((b0 % 4) * 16 + b1 / 16 == (c0 % 4) * 16 + c1 / 16);
        }
        assert(b1 % 16 == c1 % 16 && b2 / 64 == c2 / 64) by {
            assert((b1 % 16) * 4 + b2 / 64 == (c1 % 16) * 4 + c2 / 64);
        }
        assert(b64url(s1.skip(3)) =~= b64url(s2.skip(3))) by {
            assert forall|i: int| 0 <= i < b64url(s1.skip(3)).len() implies b64url(s1.skip(3))[i]
                == b64url(s2.skip(3))[i] by {
                assert(b64url(s1.skip(3))[i] == b64url(s1)[i + 4]);
                assert(b64url(s2.skip(3))[i] == b64url(s2)[i + 4]);
            }
        }
        lemma_b64url_injective(s1.skip(3), s2.skip(3));
        assert(b0 == c0) by {
            assert(b0 == (b0 / 4) * 4 + b0 % 4 && c0 == (c0 / 4) * 4 + c0 % 4);
        }
        assert(b1 == c1) by {
            assert(b1 == (b1 / 16) * 16 + b1 % 16 && c1 == (c1 / 16) * 16 + c1 % 16);
        }
        assert(b2 == c2) by {
            assert(b2 == (b2 / 64) * 64 + b2 % 64 && c2 == (c2 / 64) * 64 + c2 % 64);
        }
        assert(s1.len() == s2.len());
        assert forall|i: int| 0 <= i < s1.len() implies s1[i] == s2[i] by {
            if i >= 3 {
                assert(s1.skip(3)[i - 3] == s1[i]);
                assert(s2.skip(3)[i - 3] == s2[i]);
            }
        }
        assert(s1 =~= s2);
    }
}

/// The length of a base64url encoding determines which arity case produced
/// it: empty, two, three, or at least four digits.
proof fn lemma_b64url_len(s: Seq<u8>)
    ensures
        s.len() == 0 ==> b64url(s).len() == 0,
        s.len() == 1 ==> b64url(s).len() == 2,
        s.len() == 2 ==> b64url(s).len() == 3,
        s.len() >= 3 ==> b64url(s).len() == 4 + b64url(s.skip(3)).len(),
        b64url(s).len() == 0 ==> s.len() == 0,
        b64url(s).len() == 2 ==> s.len() == 1,
        b64url(s).len() == 3 ==> s.len() == 2,
        b64url(s).len() >= 4 ==> s.len() >= 3,
{
    if s.len() >= 3 {
        assert(b64url(s).len() == 4 + b64url(s.skip(3)).len());
    }
}

/// Every byte of a decimal rendering is a digit or the minus sign; none is
/// a quote, a dot, or any other structural byte.
pub proof fn lemma_dec_int_bytes(n: int)
    ensures
        forall|i: int|
            0 <= i < dec_int(n).len() ==> (#[trigger] dec_int(n)[i] == 45 || 48 <= dec_int(n)[i]
                <= 57),
{
    if n < 0 {
        lemma_dec_nat_digits(-n);
    } else {
        lemma_dec_nat_digits(n);
    }
}

/// Decimal rendering is injective on all integers.
pub proof fn lemma_dec_int_injective(n1: int, n2: int)
    requires
        n1 != n2,
    ensures
        dec_int(n1) != dec_int(n2),
{
    if n1 >= 0 && n2 >= 0 {
        lemma_dec_nat_injective(n1, n2);
    } else if n1 < 0 && n2 < 0 {
        lemma_dec_nat_injective(-n1, -n2);
        if dec_int(n1) == dec_int(n2) {
            assert(dec_nat(-n1) =~= dec_int(n1).skip(1));
            assert(dec_nat(-n2) =~= dec_int(n2).skip(1));
            assert(false);
        }
    } else {
        let neg = if n1 < 0 { n1 } else { n2 };
        let pos = if n1 < 0 { n2 } else { n1 };
        lemma_dec_nat_digits(pos);
        if dec_int(n1) == dec_int(n2) {
            assert(dec_int(neg)[0] == 45);
            assert(48 <= dec_int(pos)[0] <= 57);
            assert(false);
        }
    }
}

/// Two byte strings that agree on a prefix, then carry differing segments
/// free of a separator byte, each followed by that separator, are unequal.
pub proof fn lemma_delimited_segment_ne(
    p: Seq<u8>,
    a1: Seq<u8>,
    a2: Seq<u8>,
    q1: Seq<u8>,
    q2: Seq<u8>,
    sep: u8,
)
    requires
        a1 != a2,
        forall|i: int| 0 <= i < a1.len() ==> #[trigger] a1[i] != sep,
        forall|i: int| 0 <= i < a2.len() ==> #[trigger] a2[i] != sep,
        q1.len() > 0,
        q1[0] == sep,
        q2.len() > 0,
        q2[0] == sep,
    ensures
        p + a1 + q1 != p + a2 + q2,
{
    let s1 = p + a1 + q1;
    let s2 = p + a2 + q2;
    if s1 == s2 {
        if a1.len() == a2.len() {
            assert(a1 =~= a2) by {
                assert(forall|i: int|
                    0 <= i < a1.len() ==> #[trigger] a1[i] == s1[p.len() + i] && #[trigger] a2[i]
                        == s2[p.len() + i]);
            }
            assert(false);
        } else if a1.len() < a2.len() {
            let k = p.len() + a1.len();
            assert(s1[k as int] == q1[0]);
            assert(s2[k as int] == a2[a1.len() as int]);
            assert(false);
        } else {
            let k = p.len() + a2.len();
            assert(s2[k as int] == q2[0]);
            assert(s1[k as int] == a1[a2.len() as int]);
            assert(false);
        }
    }
}

fn b64_digit_exec(v: u8) -> (r: u8)
    requires
        v < 64,
    ensures
        r == b64_digit(v as int),
{
    if v < 26 {
        65 + v
    } else if v < 52 {
        71 + v
    } else if v < 62 {
        v - 4
    } else if v == 62 {
        45
    } else {
        95
    }
}

/// Encodes `s` as base64url without padding.
pub fn b64url_encode(s: &[u8]) -> (r: Vec<u8>)
    ensures
        r@ == b64url(s@),
{
    let mut out: Vec<u8> = Vec::new();
    let mut i: usize = 0;
    proof {
        assert(s@.skip(0) =~= s@);
        assert(out@ + b64url(s@) =~= b64url(s@));
    }
    while s.len() - i >= 3
        invariant
            i <= s.len(),
            out@ + b64url(s@.skip(i as int)) == b64url(s@),
        decreases s.len() - i,
    {
        let ghost pre = out@;
        let b0 = s[i];
        let b1 = s[i + 1];
        let b2 = s[i + 2];
        proof {
            assert(s@.skip(i as int).len() >= 3);
            assert(s@.skip(i as int)[0] == b0);
            assert(s@.skip(i as int)[1] == b1);
            assert(s@.skip(i as int)[2] == b2);
            assert(s@.skip(i as int).skip(3) =~= s@.skip(i + 3));
        }
        out.push(b64_digit_exec(b0 / 4));
        out.push(b64_digit_exec((b0 % 4) * 16 + b1 / 16));
        out.push(b64_digit_exec((b1 % 16) * 4 + b2 / 64));
        out.push(b64_digit_exec(b2 % 64));
        proof {
            let ghost chunk = seq![
                b64_digit(b0 as int / 4),
                b64_digit((b0 as int % 4) * 16 + b1 as int / 16),
                b64_digit((b1 as int % 16) * 4 + b2 as int / 64),
                b64_digit(b2 as int % 64),
            ];
            assert(out@ =~= pre + chunk);
            assert(b64url(s@.skip(i as int)) == chunk + b64url(s@.skip(i + 3)));
            assert((pre + chunk) + b64url(s@.skip(i + 3)) =~= pre + (chunk + b64url(
                s@.skip(i + 3),
            )));
        }
        i = i + 3;
    }
    if s.len() - i == 1 {
        let b0 = s[i];
        proof {
            assert(s@.skip(i as int).len() == 1);
            assert(s@.skip(i as int)[0] == b0);
        }
        out.push(b64_digit_exec(b0 / 4));
        out.push(b64_digit_exec((b0 % 4) * 16));
    } else if s.len() - i == 2 {
        let b0 = s[i];
        let b1 = s[i + 1];
        proof {
            assert(s@.skip(i as int).len() == 2);
            assert(s@.skip(i as int)[0] == b0);
            assert(s@.skip(i as int)[1] == b1);
        }
        out.push(b64_digit_exec(b0 / 4));
        out.push(b64_digit_exec((b0 % 4) * 16 + b1 / 16));
        out.push(b64_digit_exec((b1 % 16) * 4));
    } else {
        proof {
            assert(s@.skip(i as int).len() == 0);
        }
    }
    proof {
        assert(out@ =~= b64url(s@));
    }
    out
}

/// Decimal digits (ASCII) of a non-negative integer, most significant first.
pub open spec fn dec_nat(n: int) -> Seq<u8>
    decreases n,
{
    if n < 10 {
        seq![(48 + if n >= 0 { n } else { 0 }) as u8]
    } else {
        dec_nat(n / 10) + seq![(48 + n % 10) as u8]
    }
}

/// Decimal rendering of a signed integer, `-` prefixed when negative,
/// exactly as integer formatting in Rust prints it.
pub open spec fn dec_int(n: int) -> Seq<u8> {
    if n < 0 {
        seq![45u8] + dec_nat(-n)
    } else {
        dec_nat(n)
    }
}

pub proof fn lemma_dec_nat_digits(n: int)
    requires
        n >= 0,
    ensures
        dec_nat(n).len() >= 1,
        forall|i: int| 0 <= i < dec_nat(n).len() ==> 48 <= #[trigger] dec_nat(n)[i] <= 57,
    decreases n,
{
    if n >= 10 {
        lemma_dec_nat_digits(n / 10);
    }
}

/// Distinct non-negative integers have distinct decimal renderings.
pub proof fn lemma_dec_nat_injective(n1: int, n2: int)
    requires
        0 <= n1,
        0 <= n2,
        n1 != n2,
    ensures
        dec_nat(n1) != dec_nat(n2),
    decreases n1 + n2,
{
    lemma_dec_nat_digits(n1);
    lemma_dec_nat_digits(n2);
    if n1 < 10 && n2 < 10 {
        assert(dec_nat(n1)[0] != dec_nat(n2)[0]);
    } else if n1 < 10 {
        lemma_dec_nat_digits(n2 / 10);
        assert(dec_nat(n2).len() >= 2);
    } else if n2 < 10 {
        lemma_dec_nat_digits(n1 / 10);
        assert(dec_nat(n1).len() >= 2);
    } else {
        if n1 % 10 != n2 % 10 {
            assert(dec_nat(n1).last() != dec_nat(n2).last());
            assert(dec_nat(n1) != dec_nat(n2));
        } else {
            lemma_dec_nat_injective(n1 / 10, n2 / 10);
            if dec_nat(n1) == dec_nat(n2) {
                assert(dec_nat(n1 / 10) =~= dec_nat(n1).drop_last());
                assert(dec_nat(n2 / 10) =~= dec_nat(n2).drop_last());
                assert(false);
            }
        }
    }
}

fn dec_u64(n: u64) -> (r: Vec<u8>)
    ensures
        r@ == dec_nat(n as int),
{
    let mut digits: Vec<u8> = Vec::new();
    let mut m: u64 = n;
    while m >= 10
        invariant
            dec_nat(m as int) + digits@.reverse() == dec_nat(n as int),
        decreases m,
    {
        let ghost pre = digits@;
        let ghost mo = m as int;
        digits.push(48 + (m % 10) as u8);
        proof {
            assert(digits@.reverse() =~= seq![(48 + mo % 10) as u8] + pre.reverse());
            assert(dec_nat(mo) =~= dec_nat(mo / 10) + seq![(48 + mo % 10) as u8]);
            assert(dec_nat(mo / 10) + digits@.reverse() =~= dec_nat(mo) + pre.reverse());
        }
        m = m / 10;
    }
    let mut out: Vec<u8> = Vec::new();
    out.push(48 + (m % 10) as u8);
    proof {
        assert(out@ =~= dec_nat(m as int));
    }
    let mut j: usize = digits.len();
    while j > 0
        invariant
            j <= digits.len(),
            out@ == dec_nat(m as int) + digits@.skip(j as int).reverse(),
            dec_nat(m as int) + digits@.reverse() == dec_nat(n as int),
        decreases j,
    {
        j = j - 1;
        out.push(digits[j]);
        proof {
            assert(digits@.skip(j as int).reverse() =~= digits@.skip(j + 1).reverse().push(
                digits@[j as int],
            ));
        }
    }
    proof {
        assert(digits@.skip(0) =~= digits@);
        assert(out@ =~= dec_nat(n as int));
    }
    out
}

/// Renders `n` in decimal, as `i64` formatting in Rust prints it.
pub fn dec_i64(n: i64) -> (r: Vec<u8>)
    ensures
        r@ == dec_int(n as int),
{
    if n >= 0 {
        dec_u64(n as u64)
    } else {
        let magnitude: u64 = ((-(n + 1)) as u64) + 1;
        let mut out: Vec<u8> = Vec::new();
        out.push(45);
        let mut digits = dec_u64(magnitude);
        out.append(&mut digits);
        proof {
            assert(out@ =~= dec_int(n as int));
        }
        out
    }
}

/// JSON escaping of one byte of string content: `"` and `\` get a backslash,
/// control bytes become `\u00XX`, everything else stands as it is.
pub open spec fn json_escape_byte(b: u8) -> Seq<u8> {
    if b == 34 {
        seq![92u8, 34u8]
    } else if b == 92 {
        seq![92u8, 92u8]
    } else if b < 32 {
        seq![92u8, 117u8, 48u8, 48u8, hex_digit(b as int / 16), hex_digit(b as int % 16)]
    } else {
        seq![b]
    }
}

/// The lower-case hex digit (ASCII) for a 4-bit value.
pub open spec fn hex_digit(v: int) -> u8 {
    if v < 10 {
        (48 + v) as u8
    } else {
        (87 + v) as u8
    }
}

/// JSON escaping of a whole byte string, byte by byte.
pub open spec fn json_escape(s: Seq<u8>) -> Seq<u8>
    decreases s.len(),
{
    if s.len() == 0 {
        Seq::<u8>::empty()
    } else {
        json_escape_byte(s[0]) + json_escape(s.skip(1))
    }
}

fn hex_digit_exec(v: u8) -> (r: u8)
    requires
        v < 16,
    ensures
        r == hex_digit(v as int),
{
    if v < 10 {
        48 + v
    } else {
        87 + v
    }
}

/// Escapes `s` for use inside a JSON string literal.
pub fn json_escape_bytes(s: &[u8]) -> (r: Vec<u8>)
    ensures
        r@ == json_escape(s@),
{
    let mut out: Vec<u8> = Vec::new();
    let mut i: usize = 0;
    proof {
        assert(s@.skip(0) =~= s@);
        assert(out@ + json_escape(s@) =~= json_escape(s@));
    }
    while i < s.len()
        invariant
            i <= s.len(),
            out@ + json_escape(s@.skip(i as int)) == json_escape(s@),
        decreases s.len() - i,
    {
        let ghost pre = out@;
        let b = s[i];
        proof {
            assert(s@.skip(i as int)[0] == b);
            assert(s@.skip(i as int).skip(1) =~= s@.skip(i + 1));
        }
        if b == 34 {
            out.push(92);
            out.push(34);
        } else if b == 92 {
            out.push(92);
            out.push(92);
        } else if b < 32 {
            out.push(92);
            out.push(117);
            out.push(48);
            out.push(48);
            out.push(hex_digit_exec(b / 16));
            out.push(hex_digit_exec(b % 16));
        } else {
            out.push(b);
        }
        proof {
            assert(out@ =~= pre + json_escape_byte(b));
            assert((pre + json_escape_byte(b)) + json_escape(s@.skip(i + 1)) =~= pre + (
            json_escape_byte(b) + json_escape(s@.skip(i + 1))));
        }
        i = i + 1;
    }
    proof {
        assert(out@ =~= json_escape(s@));
    }
    out
}

} // verus!
