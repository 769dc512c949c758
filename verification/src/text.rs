//! Text helpers shared by the wire formats: decimal rendering and parsing
//! of unsigned integers, and the `String` operations the library builds
//! its messages with.

use vstd::prelude::*;
use vstd::string::StringSliceAdditionalSpecFns;

verus! {

/// ASCII decimal digit for `d < 10`.
pub open spec fn digit_char(d: nat) -> char {
    if d == 0 { '0' }
    else if d == 1 { '1' }
    else if d == 2 { '2' }
    else if d == 3 { '3' }
    else if d == 4 { '4' }
    else if d == 5 { '5' }
    else if d == 6 { '6' }
    else if d == 7 { '7' }
    else if d == 8 { '8' }
    else { '9' }
}

/// Decimal rendering of `n` (no sign, no leading zeros).
pub open spec fn dec(n: nat) -> Seq<char>
    decreases n,
{
    if n < 10 {
        seq![digit_char(n)]
    } else {
        dec(n / 10).push(digit_char(n % 10))
    }
}

/// Is `b` an ASCII decimal digit byte?
pub open spec fn is_digit_byte(b: u8) -> bool {
    48 <= b <= 57
}

pub open spec fn all_digit_bytes(s: Seq<u8>) -> bool {
    forall|i: int| 0 <= i < s.len() ==> is_digit_byte(#[trigger] s[i])
}

/// Value of a string of decimal digit bytes (leading zeros allowed).
pub open spec fn digits_value(s: Seq<u8>) -> nat
    decreases s.len(),
{
    if s.len() == 0 {
        0
    } else {
        digits_value(s.drop_last()) * 10 + (s.last() - 48) as nat
    }
}

/// The digits after an optional leading `+`.
pub open spec fn unsigned_body(s: Seq<u8>) -> Seq<u8> {
    if s.len() > 0 && s[0] == 43u8 { s.drop_first() } else { s }
}

/// What `str::parse` gives for an unsigned integer type whose maximum is
/// `max`: an optional `+`, then at least one decimal digit, and a value
/// that fits.
pub open spec fn parse_unsigned_spec(s: Seq<u8>, max: nat) -> Option<nat> {
    let body = unsigned_body(s);
    if body.len() > 0 && all_digit_bytes(body) && digits_value(body) <= max {
        Some(digits_value(body))
    } else {
        None
    }
}

/// Bytes of the decimal rendering.
pub open spec fn dec_bytes(n: nat) -> Seq<u8>
    decreases n,
{
    if n < 10 {
        seq![(48 + n) as u8]
    } else {
        dec_bytes(n / 10).push((48 + n % 10) as u8)
    }
}

pub proof fn lemma_dec_bytes_props(n: nat)
    ensures
        dec_bytes(n).len() > 0,
        all_digit_bytes(dec_bytes(n)),
        digits_value(dec_bytes(n)) == n,
        dec_bytes(n)[0] != 43u8,
        dec_bytes(n).len() == dec(n).len(),
        forall|i: int| 0 <= i < dec(n).len() ==> (#[trigger] dec(n)[i]) as u8 == dec_bytes(n)[i]
            && '\0' <= dec(n)[i] <= '\u{7f}',
    decreases n,
{
    if n >= 10 {
        lemma_dec_bytes_props(n / 10);
        let d = dec_bytes(n);
        assert(d.drop_last() =~= dec_bytes(n / 10));
        assert(d[0] == dec_bytes(n / 10)[0]);
        assert(d.last() == (48 + n % 10) as u8);
        assert(((48 + n % 10) as u8) as nat == 48 + n % 10);
        assert((d.last() - 48) as nat == n % 10);
        assert((n / 10) * 10 + n % 10 == n) by (nonlinear_arith);
        assert(digits_value(d) == digits_value(dec_bytes(n / 10)) * 10 + (d.last() - 48) as nat);
        assert forall|i: int| 0 <= i < dec(n).len() implies (#[trigger] dec(n)[i]) as u8 == dec_bytes(n)[i]
            && '\0' <= dec(n)[i] <= '\u{7f}' by {
            if i < dec(n / 10).len() {
                assert(dec(n)[i] == dec(n / 10)[i]);
            } else {
                let k = n % 10;
                assert(dec(n)[i] == digit_char(k));
                assert(digit_char(k) as u8 == (48 + k) as u8);
            }
        }
    } else {
        assert(digit_char(n) as u8 == (48 + n) as u8);
        assert(dec_bytes(n).drop_last() =~= Seq::<u8>::empty());
        assert(((48 + n) as u8) as nat == 48 + n);
        assert(dec_bytes(n).last() == (48 + n) as u8);
        assert(digits_value(dec_bytes(n)) == digits_value(Seq::<u8>::empty()) * 10 + (dec_bytes(n).last() - 48) as nat);
    }
}

/// Rendering then parsing gives the number back.
pub proof fn lemma_parse_dec(n: nat, max: nat)
    requires
        n <= max,
    ensures
        parse_unsigned_spec(dec_bytes(n), max) == Some(n),
{
    lemma_dec_bytes_props(n);
}

pub proof fn lemma_digits_value_prefix_mono(s: Seq<u8>, i: int, j: int)
    requires
        0 <= i <= j <= s.len(),
        all_digit_bytes(s),
    ensures
        digits_value(s.subrange(0, i)) <= digits_value(s.subrange(0, j)),
    decreases j - i,
{
    if i < j {
        lemma_digits_value_prefix_mono(s, i, j - 1);
        assert(s.subrange(0, j).drop_last() =~= s.subrange(0, j - 1));
    }
}

/// Parse `b[start..end]` as an unsigned integer of at most `max`.
pub fn parse_unsigned(b: &[u8], start: usize, end: usize, max: u64) -> (r: Option<u64>)
    requires
        start <= end <= b@.len(),
    ensures
        match parse_unsigned_spec(b@.subrange(start as int, end as int), max as nat) {
            Some(v) => r == Some(v as u64),
            None => r is None,
        },
{
    let ghost s = b@.subrange(start as int, end as int);
    let mut i = start;
    if i < end && b[i] == 43u8 {
        i = i + 1;
    }
    let ghost body = unsigned_body(s);
    proof {
        if s.len() > 0 && s[0] == 43u8 {
            assert(body =~= b@.subrange(i as int, end as int));
        } else {
            assert(body =~= b@.subrange(i as int, end as int));
        }
    }
    let body_start = i;
    if i == end {
        return None;
    }
    let mut v: u64 = 0;
    while i < end
        invariant
            body_start <= i <= end <= b@.len(),
            body == b@.subrange(body_start as int, end as int),
            s == b@.subrange(start as int, end as int),
            body == unsigned_body(s),
            body.len() > 0,
            all_digit_bytes(body.subrange(0, i - body_start)),
            v as nat == digits_value(body.subrange(0, i - body_start)),
            v <= max,
        decreases end - i,
    {
        let c = b[i];
        if c < 48u8 || c > 57u8 {
            proof {
                assert(body[i - body_start] == c);
            }
            return None;
        }
        let d = (c - 48u8) as u64;
        let ghost k = (i - body_start) as int;
        proof {
            assert(body.subrange(0, k + 1).drop_last() =~= body.subrange(0, k));
            assert(body.subrange(0, k + 1).last() == c);
        }
        if d > max || v > (max - d) / 10 {
            proof {
                assert(v * 10 + d > max) by (nonlinear_arith)
                    requires d > max || (d <= max && v > (max - d) / 10), d <= 9;
                if all_digit_bytes(body) {
                    lemma_digits_value_prefix_mono(body, k + 1, body.len() as int);
                    assert(body.subrange(0, body.len() as int) =~= body);
                }
            }
            return None;
        }
        proof {
            assert(v * 10 + d <= max) by (nonlinear_arith)
                requires d <= max, v <= (max - d) / 10, d <= 9;
        }
        v = v * 10 + d;
        i = i + 1;
        proof {
            assert forall|j: int| 0 <= j < body.subrange(0, i - body_start).len() implies is_digit_byte(
                #[trigger] body.subrange(0, i - body_start)[j],
            ) by {
                if j < k {
                    assert(body.subrange(0, i - body_start)[j] == body.subrange(0, k)[j]);
                }
            }
        }
    }
    proof {
        assert(body.subrange(0, body.len() as int) =~= body);
    }
    Some(v)
}

/// Decimal rendering of `n` as a `String`.
pub fn dec_string(n: u64) -> (s: String)
    ensures
        s@ == dec(n as nat),
    decreases n,
{
    if n < 10 {
        let mut s = String::new();
        push_char(&mut s, digit(n));
        s
    } else {
        let mut s = dec_string(n / 10);
        push_char(&mut s, digit(n % 10));
        s
    }
}

fn digit(d: u64) -> (c: char)
    requires
        d < 10,
    ensures
        c == digit_char(d as nat),
{
    if d == 0 { '0' }
    else if d == 1 { '1' }
    else if d == 2 { '2' }
    else if d == 3 { '3' }
    else if d == 4 { '4' }
    else if d == 5 { '5' }
    else if d == 6 { '6' }
    else if d == 7 { '7' }
    else if d == 8 { '8' }
    else { '9' }
}

/// ASCII lowercase hexadecimal digit for `d < 16`.
pub open spec fn hex_digit_char(d: nat) -> char {
    if d < 10 {
        digit_char(d)
    } else if d == 10 { 'a' }
    else if d == 11 { 'b' }
    else if d == 12 { 'c' }
    else if d == 13 { 'd' }
    else if d == 14 { 'e' }
    else { 'f' }
}

/// Lowercase hexadecimal rendering of `n` (no prefix, no leading zeros),
/// as `{:x}` formats it.
pub open spec fn hex(n: nat) -> Seq<char>
    decreases n,
{
    if n < 16 {
        seq![hex_digit_char(n)]
    } else {
        hex(n / 16).push(hex_digit_char(n % 16))
    }
}

/// Two lowercase hexadecimal digits of a byte, as `{:02x}` formats it.
pub open spec fn byte_hex(b: u8) -> Seq<char> {
    seq![hex_digit_char((b / 16) as nat), hex_digit_char((b % 16) as nat)]
}

/// The bytes as two hexadecimal digits each, concatenated.
pub open spec fn bytes_hex_spec(s: Seq<u8>) -> Seq<char>
    decreases s.len(),
{
    if s.len() == 0 {
        Seq::empty()
    } else {
        bytes_hex_spec(s.drop_last()) + byte_hex(s.last())
    }
}

fn hex_digit(d: u64) -> (c: char)
    requires
        d < 16,
    ensures
        c == hex_digit_char(d as nat),
{
    if d < 10 {
        digit(d)
    } else if d == 10 { 'a' }
    else if d == 11 { 'b' }
    else if d == 12 { 'c' }
    else if d == 13 { 'd' }
    else if d == 14 { 'e' }
    else { 'f' }
}

/// Lowercase hexadecimal rendering of `n` as a `String`.
pub fn hex_string(n: u64) -> (s: String)
    ensures
        s@ == hex(n as nat),
    decreases n,
{
    if n < 16 {
        let mut s = String::new();
        push_char(&mut s, hex_digit(n));
        s
    } else {
        let mut s = hex_string(n / 16);
        push_char(&mut s, hex_digit(n % 16));
        s
    }
}

/// `0x` followed by the lowercase hexadecimal rendering of `n`, as
/// `0x{:x}` formats it.
pub fn hex_prefixed(n: u64) -> (s: String)
    ensures
        s@ == "0x"@ + hex(n as nat),
{
    let mut s = "0x".to_owned();
    let h = hex_string(n);
    push_str(&mut s, h.as_str());
    s
}

/// The bytes as lowercase hexadecimal, two digits per byte.
pub fn bytes_hex(data: &[u8]) -> (s: String)
    ensures
        s@ == bytes_hex_spec(data@),
{
    let mut s = String::new();
    let mut i: usize = 0;
    while i < data.len()
        invariant
            0 <= i <= data@.len(),
            s@ == bytes_hex_spec(data@.subrange(0, i as int)),
        decreases data@.len() - i,
    {
        let b = data[i];
        push_char(&mut s, hex_digit((b / 16) as u64));
        push_char(&mut s, hex_digit((b % 16) as u64));
        proof {
            let t = data@.subrange(0, i + 1);
            assert(t.drop_last() =~= data@.subrange(0, i as int));
            assert(t.last() == b);
            assert(s@ =~= bytes_hex_spec(t));
        }
        i += 1;
    }
    proof {
        assert(data@.subrange(0, data@.len() as int) =~= data@);
    }
    s
}

/// A character with the Unicode `White_Space` property, as
/// `char::is_whitespace` decides it.
pub open spec fn is_unicode_ws(c: char) -> bool {
    let u = c as u32;
    (0x9 <= u <= 0xD) || u == 0x20 || u == 0x85 || u == 0xA0 || u == 0x1680 || (0x2000 <= u <= 0x200A) || u
        == 0x2028 || u == 0x2029 || u == 0x202F || u == 0x205F || u == 0x3000
}

/// `r` is `s` without its leading and trailing whitespace.
pub open spec fn trimmed(s: Seq<char>, r: Seq<char>) -> bool {
    exists|i: int, j: int|
        0 <= i <= j <= s.len() && r == s.subrange(i, j) && (forall|k: int| 0 <= k < i ==> is_unicode_ws(
            #[trigger] s[k],
        )) && (forall|k: int| j <= k < s.len() ==> is_unicode_ws(#[trigger] s[k])) && (i < j ==> !is_unicode_ws(s[i])
            && !is_unicode_ws(s[j - 1]))
}

/// `n`'s UTF-8 encoding starts with `p`'s.
pub open spec fn bytes_start_with(n: Seq<char>, p: Seq<char>) -> bool {
    let a = vstd::utf8::encode_utf8(n);
    let b = vstd::utf8::encode_utf8(p);
    b.len() <= a.len() && a.subrange(0, b.len() as int) == b
}

/// `s` starts with `p`, compared byte by byte as `str::starts_with` does.
pub fn starts_with(s: &str, p: &str) -> (b: bool)
    ensures
        b == bytes_start_with(s@, p@),
{
    let x = s.as_bytes();
    let y = p.as_bytes();
    assert(x@ == vstd::utf8::encode_utf8(s@));
    assert(y@ == vstd::utf8::encode_utf8(p@));
    if y.len() > x.len() {
        return false;
    }
    let mut k: usize = 0;
    while k < y.len()
        invariant
            x@ == vstd::utf8::encode_utf8(s@),
            y@ == vstd::utf8::encode_utf8(p@),
            y@.len() <= x@.len(),
            0 <= k <= y@.len(),
            forall|q: int| 0 <= q < k ==> x@[q] == y@[q],
        decreases y@.len() - k,
    {
        if x[k] != y[k] {
            proof {
                assert(x@.subrange(0, y@.len() as int)[k as int] != y@[k as int]);
            }
            return false;
        }
        k += 1;
    }
    proof {
        assert(x@.subrange(0, y@.len() as int) =~= y@);
    }
    true
}

/// `str::trim`: the string without leading and trailing whitespace
/// (Unicode `White_Space`), as a new `String`.
#[verifier::external_body]
pub(crate) fn trim_str(s: &str) -> (r: String)
    ensures
        trimmed(s@, r@),
{
    s.trim().to_owned()
}

/// `String::push`: appends one character.
#[verifier::external_body]
pub(crate) fn push_char(s: &mut String, c: char)
    ensures
        final(s)@ == old(s)@.push(c),
{
    s.push(c);
}

/// `String::push_str`: appends the characters of `t`.
#[verifier::external_body]
pub(crate) fn push_str(s: &mut String, t: &str)
    ensures
        final(s)@ == old(s)@ + t@,
{
    s.push_str(t);
}

/// The text `{:?}` gives for a string slice: the contents in double quotes,
/// with escapes.
pub uninterp spec fn debug_str_text(s: Seq<char>) -> Seq<char>;

/// Renders a string slice with `{:?}` through `std::format!`; the result is
/// named, its escaping rules are not spelled out.
#[verifier::external_body]
pub(crate) fn debug_str(s: &str) -> (r: String)
    ensures
        r@ == debug_str_text(s@),
{
    format!("{:?}", s)
}

/// `std::str::from_utf8`: `Some` exactly when the bytes are valid UTF-8,
/// and then the characters they encode.
#[verifier::external_body]
pub(crate) fn utf8_to_string(bytes: &[u8]) -> (r: Option<String>)
    ensures
        r is Some <==> vstd::utf8::valid_utf8(bytes@),
        r matches Some(s) ==> s@ == vstd::utf8::decode_utf8(bytes@),
{
    match std::str::from_utf8(bytes) {
        Ok(s) => Some(s.to_owned()),
        Err(_) => None,
    }
}

/// UTF-8 encoding distributes over concatenation.
pub proof fn lemma_encode_utf8_concat(a: Seq<char>, b: Seq<char>)
    ensures
        vstd::utf8::encode_utf8(a + b) == vstd::utf8::encode_utf8(a) + vstd::utf8::encode_utf8(b),
    decreases a.len(),
{
    if a.len() > 0 {
        lemma_encode_utf8_concat(a.drop_first(), b);
        assert((a + b).drop_first() =~= a.drop_first() + b);
        assert(vstd::utf8::encode_scalar(a[0] as u32) + vstd::utf8::encode_utf8(a.drop_first() + b)
            =~= vstd::utf8::encode_scalar(a[0] as u32) + vstd::utf8::encode_utf8(a.drop_first())
                + vstd::utf8::encode_utf8(b));
    } else {
        assert(a + b =~= b);
    }
}

} // verus!
