//! Byte-level text helpers shared by the parser, the renderer and the
//! command-line formatting: ASCII classification, hex and decimal digits,
//! and the conversions between `str`, `String` and UTF-8 bytes.

use vstd::prelude::*;
use vstd::string::StrSliceExecFns;
use vstd::utf8::*;

verus! {

/// The UTF-8 bytes of a string slice.
pub open spec fn str_bytes(s: &str) -> Seq<u8> {
    encode_utf8(s@)
}

/// An ASCII character sequence is encoded byte for byte.
pub proof fn lemma_ascii_encode(chars: Seq<char>)
    requires
        is_ascii_chars(chars),
    ensures
        encode_utf8(chars) == chars.map_values(|c: char| c as u8),
{
    is_ascii_chars_encode_utf8(chars);
    assert(encode_utf8(chars) =~= chars.map_values(|c: char| c as u8));
}

/// The bytes of an ASCII literal whose characters are known.
pub proof fn lemma_keyword_bytes(s: &str, chars: Seq<char>, bytes: Seq<u8>)
    requires
        s@ =~= chars,
        bytes.len() == chars.len(),
        forall|i: int| 0 <= i < chars.len() ==> (#[trigger] chars[i]) as int == bytes[i] as int,
        forall|i: int| 0 <= i < bytes.len() ==> #[trigger] bytes[i] < 128,
    ensures
        str_bytes(s) == bytes,
{
    assert forall|i: int| 0 <= i < chars.len() implies '\0' <= #[trigger] chars[i] <= '\u{7f}' by {
        assert(bytes[i] < 128);
    }
    assert(is_ascii_chars(chars));
    lemma_ascii_encode(chars);
    let m = chars.map_values(|c: char| c as u8);
    assert forall|i: int| 0 <= i < chars.len() implies #[trigger] m[i] == bytes[i] by {
        assert(chars[i] as int == bytes[i] as int);
        assert(chars[i] as u8 == bytes[i]);
    }
    assert(m =~= bytes);
}

/// A sequence of bytes below 0x80 is valid UTF-8.
pub open spec fn ascii_bytes(s: Seq<u8>) -> bool {
    forall|i: int| 0 <= i < s.len() ==> #[trigger] s[i] < 128
}

/// ASCII bytes are valid UTF-8.
pub proof fn lemma_ascii_valid_utf8(s: Seq<u8>)
    requires
        ascii_bytes(s),
    ensures
        valid_utf8(s),
    decreases s.len(),
{
    if s.len() > 0 {
        let b = s[0];
        assert(b < 128);
        assert(is_leading_byte_width_1(b)) by (bit_vector)
            requires
                b < 128,
        ;
        assert(codepoint_width_1(b) == b as u32) by (bit_vector)
            requires
                b < 128,
        ;
        assert(valid_first_scalar(s));
        assert(pop_first_scalar(s) =~= s.drop_first());
        lemma_ascii_valid_utf8(s.drop_first());
    }
}

/// Valid UTF-8 is re-encoded to itself.
pub proof fn lemma_valid_roundtrip(s: Seq<u8>)
    requires
        valid_utf8(s),
    ensures
        encode_utf8(decode_utf8(s)) == s,
{
    decode_utf8_encode_utf8(s);
}

/// Two valid pieces make a valid whole.
pub proof fn lemma_valid_concat(a: Seq<u8>, b: Seq<u8>)
    requires
        valid_utf8(a),
        valid_utf8(b),
    ensures
        valid_utf8(a + b),
{
    valid_utf8_concat(a, b);
}

/// The bytes of any string are valid UTF-8.
pub proof fn lemma_encoded_valid(c: Seq<char>)
    ensures
        valid_utf8(encode_utf8(c)),
{
    encode_utf8_valid_utf8(c);
}

/// Builds a `String` from bytes already known to be valid UTF-8.
///
/// Calls `String::from_utf8`, which the standard library documents as
/// succeeding exactly on valid UTF-8 and keeping the bytes as they are; the
/// contract claims that the resulting string decodes from those bytes.
#[verifier::external_body]
pub(crate) fn string_from_utf8(bytes: Vec<u8>) -> (s: String)
    requires
        valid_utf8(bytes@),
    ensures
        s@ == decode_utf8(bytes@),
{
    match String::from_utf8(bytes) {
        Ok(s) => s,
        Err(_) => String::new(),
    }
}

/// What `String::from_utf8_lossy` makes of the given bytes: each invalid
/// sequence becomes U+FFFD.
pub uninterp spec fn utf8_lossy(bytes: Seq<u8>) -> Seq<char>;

/// Calls `String::from_utf8_lossy`. The contract names its result, and states
/// the one fact the standard library documents plainly: valid UTF-8 is kept
/// as it is.
#[verifier::external_body]
pub(crate) fn string_from_utf8_lossy(bytes: &[u8]) -> (s: String)
    ensures
        s@ == utf8_lossy(bytes@),
        valid_utf8(bytes@) ==> s@ == decode_utf8(bytes@),
{
    String::from_utf8_lossy(bytes).into_owned()
}

/// Bytes equality.
pub fn bytes_eq(a: &[u8], b: &[u8]) -> (r: bool)
    ensures
        r == (a@ == b@),
{
    if a.len() != b.len() {
        return false;
    }
    let mut i: usize = 0;
    while i < a.len()
        invariant
            a@.len() == b@.len(),
            i <= a@.len(),
            forall|j: int| 0 <= j < i ==> a@[j] == b@[j],
        decreases a@.len() - i,
    {
        if a[i] != b[i] {
            return false;
        }
        i = i + 1;
    }
    assert(a@ =~= b@);
    true
}

/// Appends a slice.
pub fn push_bytes(out: &mut Vec<u8>, s: &[u8])
    ensures
        final(out)@ == old(out)@ + s@,
{
    let mut i: usize = 0;
    while i < s.len()
        invariant
            i <= s@.len(),
            out@ == old(out)@ + s@.subrange(0, i as int),
        decreases s@.len() - i,
    {
        out.push(s[i]);
        i = i + 1;
        assert(s@.subrange(0, i as int) =~= s@.subrange(0, i - 1) + seq![s@[i - 1]]);
    }
    assert(s@.subrange(0, s@.len() as int) =~= s@);
}

/// Appends the UTF-8 bytes of a string slice.
pub fn push_str(out: &mut Vec<u8>, s: &str)
    ensures
        final(out)@ == old(out)@ + str_bytes(s),
{
    push_bytes(out, s.as_bytes());
}

/// `u8::is_ascii_whitespace`: space, tab, line feed, form feed, carriage return.
pub open spec fn is_ascii_ws(b: u8) -> bool {
    b == 32 || b == 9 || b == 10 || b == 12 || b == 13
}

/// Executable [`is_ascii_ws`].
pub fn ascii_ws(b: u8) -> (r: bool)
    ensures
        r == is_ascii_ws(b),
{
    b == 32 || b == 9 || b == 10 || b == 12 || b == 13
}

/// `u8::is_ascii_digit`.
pub open spec fn is_digit(b: u8) -> bool {
    48 <= b <= 57
}

/// A hex digit, either case.
pub open spec fn is_hex_digit(b: u8) -> bool {
    (48 <= b <= 57) || (97 <= b <= 102) || (65 <= b <= 70)
}

/// The value of a hex digit.
pub open spec fn hex_digit_value(b: u8) -> nat {
    if 48 <= b <= 57 {
        (b - 48) as nat
    } else if 97 <= b <= 102 {
        (b - 87) as nat
    } else {
        (b - 55) as nat
    }
}

/// Every byte is a hex digit.
pub open spec fn all_hex(s: Seq<u8>) -> bool {
    forall|i: int| 0 <= i < s.len() ==> #[trigger] is_hex_digit(s[i])
}

/// Every byte is a decimal digit.
pub open spec fn all_digits(s: Seq<u8>) -> bool {
    forall|i: int| 0 <= i < s.len() ==> #[trigger] is_digit(s[i])
}

/// The big-endian value of hex digits.
pub open spec fn hex_value(s: Seq<u8>) -> nat
    decreases s.len(),
{
    if s.len() == 0 {
        0
    } else {
        hex_value(s.drop_last()) * 16 + hex_digit_value(s.last())
    }
}

/// The lowercase hex digit for `d < 16`.
pub open spec fn hex_char(d: nat) -> u8 {
    if d < 10 {
        (48 + d) as u8
    } else {
        (87 + d) as u8
    }
}

/// Executable [`hex_char`].
pub fn hex_char_exec(d: u8) -> (r: u8)
    requires
        d < 16,
    ensures
        r == hex_char(d as nat),
{
    if d < 10 {
        48 + d
    } else {
        87 + d
    }
}

/// `{:02x}`: two lowercase hex digits.
pub open spec fn hex2(v: u8) -> Seq<u8> {
    seq![hex_char((v / 16) as nat), hex_char((v % 16) as nat)]
}

/// `{:04x}`: four lowercase hex digits.
pub open spec fn hex4(v: u16) -> Seq<u8> {
    seq![
        hex_char((v / 4096) as nat),
        hex_char(((v / 256) % 16) as nat),
        hex_char(((v / 16) % 16) as nat),
        hex_char((v % 16) as nat),
    ]
}

/// ASCII lowercase of one byte.
pub open spec fn lower_byte(b: u8) -> u8 {
    if 65 <= b <= 90 {
        (b + 32) as u8
    } else {
        b
    }
}

/// ASCII lowercase of a byte sequence.
pub open spec fn ascii_lower(s: Seq<u8>) -> Seq<u8> {
    s.map_values(|b: u8| lower_byte(b))
}

/// The value of hex digits is below `16^len`.
pub proof fn lemma_hex_value_bound(s: Seq<u8>)
    requires
        all_hex(s),
    ensures
        s.len() == 1 ==> hex_value(s) < 16,
        s.len() == 2 ==> hex_value(s) < 256,
        s.len() == 4 ==> hex_value(s) < 65536,
        s.len() <= 8 ==> hex_value(s) < 0x1_0000_0000,
    decreases s.len(),
{
    if s.len() > 0 {
        let p = s.drop_last();
        assert(all_hex(p)) by {
            assert forall|i: int| 0 <= i < p.len() implies #[trigger] is_hex_digit(p[i]) by {
                assert(is_hex_digit(s[i]));
            }
        }
        assert(is_hex_digit(s[s.len() - 1]));
        lemma_hex_value_bound(p);
        let d = hex_digit_value(s.last());
        assert(d < 16);
        if s.len() == 1 {
            assert(p.len() == 0);
        } else if s.len() == 2 {
            assert(hex_value(p) < 16);
        } else if s.len() == 3 {
            assert(hex_value(p) < 256);
        } else if s.len() == 4 {
            let h = hex_value(p);
            assert(h < 4096) by {
                let q = p.drop_last();
                assert(all_hex(q)) by {
                    assert forall|i: int| 0 <= i < q.len() implies #[trigger] is_hex_digit(q[i]) by {
                        assert(is_hex_digit(s[i]));
                    }
                }
                assert(is_hex_digit(s[p.len() - 1]));
                lemma_hex_value_bound(q);
                assert(hex_value(q) < 256);
            }
        }
        if s.len() <= 8 {
            lemma_hex_value_bound_gen(s);
        }
    }
}

proof fn lemma_hex_value_bound_gen(s: Seq<u8>)
    requires
        all_hex(s),
    ensures
        hex_value(s) < pow16(s.len()),
        s.len() <= 8 ==> hex_value(s) < 0x1_0000_0000,
    decreases s.len(),
{
    if s.len() > 0 {
        let p = s.drop_last();
        assert(all_hex(p)) by {
            assert forall|i: int| 0 <= i < p.len() implies #[trigger] is_hex_digit(p[i]) by {
                assert(is_hex_digit(s[i]));
            }
        }
        assert(is_hex_digit(s[s.len() - 1]));
        lemma_hex_value_bound_gen(p);
        let h = hex_value(p);
        let d = hex_digit_value(s.last());
        let m = pow16(p.len());
        assert(h * 16 + d < m * 16) by (nonlinear_arith)
            requires
                h < m,
                d < 16,
        ;
        assert(pow16(s.len()) == pow16(p.len()) * 16);
    }
    if s.len() <= 8 {
        lemma_pow16_small(s.len());
    }
}

/// `16^n`.
pub open spec fn pow16(n: nat) -> nat
    decreases n,
{
    if n == 0 {
        1
    } else {
        pow16((n - 1) as nat) * 16
    }
}

proof fn lemma_pow16_small(n: nat)
    requires
        n <= 8,
    ensures
        pow16(n) <= 0x1_0000_0000,
    decreases n,
{
    if n > 0 {
        lemma_pow16_small((n - 1) as nat);
        reveal_with_fuel(pow16, 9);
        assert(pow16(8) == 0x1_0000_0000);
        if n < 8 {
            lemma_pow16_mono((n - 1) as nat);
        }
    }
}

proof fn lemma_pow16_mono(n: nat)
    requires
        n < 8,
    ensures
        pow16(n) * 16 <= 0x1_0000_0000,
    decreases n,
{
    reveal_with_fuel(pow16, 9);
    if n > 0 {
        lemma_pow16_mono((n - 1) as nat);
    }
}

/// Parses a hex digit.
pub fn hex_digit(b: u8) -> (r: Option<u8>)
    ensures
        r is Some <==> is_hex_digit(b),
        r matches Some(v) ==> v as nat == hex_digit_value(b) && v < 16,
{
    if 48 <= b && b <= 57 {
        Some(b - 48)
    } else if 97 <= b && b <= 102 {
        Some(b - 87)
    } else if 65 <= b && b <= 70 {
        Some(b - 55)
    } else {
        None
    }
}

/// Decimal digits of a number, most significant first, no leading zero.
pub open spec fn decimal(n: nat) -> Seq<u8>
    decreases n,
{
    if n < 10 {
        seq![(48 + n) as u8]
    } else {
        decimal(n / 10) + seq![(48 + n % 10) as u8]
    }
}

/// Decimal digits are ASCII digits.
pub proof fn lemma_decimal_digits(n: nat)
    ensures
        all_digits(decimal(n)),
        ascii_bytes(decimal(n)),
        decimal(n).len() >= 1,
    decreases n,
{
    if n >= 10 {
        lemma_decimal_digits(n / 10);
        let a = decimal(n / 10);
        let b = seq![(48 + n % 10) as u8];
        assert(decimal(n) == a + b);
        assert forall|i: int| 0 <= i < decimal(n).len() implies #[trigger] is_digit(decimal(n)[i]) by {
            if i < a.len() {
                assert(is_digit(a[i]));
            }
        }
        assert forall|i: int| 0 <= i < decimal(n).len() implies #[trigger] decimal(n)[i] < 128 by {
            assert(is_digit(decimal(n)[i]));
        }
    }
}

/// Formats a number in decimal, as `Display` does for unsigned integers.
pub fn push_decimal(out: &mut Vec<u8>, n: u128)
    ensures
        final(out)@ == old(out)@ + decimal(n as nat),
    decreases n,
{
    if n < 10 {
        out.push(48 + n as u8);
    } else {
        push_decimal(out, n / 10);
        out.push(48 + (n % 10) as u8);
        assert(decimal(n as nat) == decimal((n / 10) as nat) + seq![(48 + n % 10) as u8]);
    }
}

/// The decimal digits of `n`, as characters.
pub open spec fn decimal_chars(n: nat) -> Seq<char> {
    decimal(n).map_values(|b: u8| b as char)
}

/// `n.to_string()`: the decimal digits of an unsigned number.
pub fn decimal_string(n: u128) -> (r: String)
    ensures
        r@ == decimal_chars(n as nat),
{
    let mut out: Vec<u8> = Vec::new();
    push_decimal(&mut out, n);
    proof {
        let d = decimal(n as nat);
        let c = decimal_chars(n as nat);
        lemma_decimal_digits(n as nat);
        assert(out@ =~= d);
        assert(is_ascii_chars(c)) by {
            assert forall|i: int| 0 <= i < c.len() implies '\0' <= #[trigger] c[i] <= '\u{7f}' by {
                assert(d[i] < 128);
            }
        }
        lemma_ascii_encode(c);
        assert(encode_utf8(c) =~= d) by {
            assert forall|i: int| 0 <= i < d.len() implies encode_utf8(c)[i] == d[i] by {
                assert(c[i] == d[i] as char);
            }
        }
        lemma_ascii_valid_utf8(d);
        encode_utf8_decode_utf8(c);
    }
    string_from_utf8(out)
}

/// Equal strings: compared byte by byte, which for UTF-8 is the same as
/// character by character.
pub fn str_eq(a: &str, b: &str) -> (r: bool)
    ensures
        r == (a@ == b@),
{
    let r = bytes_eq(a.as_bytes(), b.as_bytes());
    proof {
        encode_utf8_decode_utf8(a@);
        encode_utf8_decode_utf8(b@);
    }
    r
}

/// `char::is_whitespace`: the characters with the Unicode `White_Space`
/// property.
pub open spec fn is_white_space(c: char) -> bool {
    let v = c as u32;
    ||| 0x09 <= v <= 0x0d
    ||| v == 0x20
    ||| v == 0x85
    ||| v == 0xa0
    ||| v == 0x1680
    ||| 0x2000 <= v <= 0x200a
    ||| v == 0x2028
    ||| v == 0x2029
    ||| v == 0x202f
    ||| v == 0x205f
    ||| v == 0x3000
}

/// Executable [`is_white_space`].
pub fn white_space(c: char) -> (r: bool)
    ensures
        r == is_white_space(c),
{
    let v = c as u32;
    (0x09 <= v && v <= 0x0d) || v == 0x20 || v == 0x85 || v == 0xa0 || v == 0x1680 || (0x2000 <= v && v
        <= 0x200a) || v == 0x2028 || v == 0x2029 || v == 0x202f || v == 0x205f || v == 0x3000
}

/// Encoding distributes over concatenation.
pub proof fn lemma_encode_concat(a: Seq<char>, b: Seq<char>)
    ensures
        encode_utf8(a + b) == encode_utf8(a) + encode_utf8(b),
    decreases a.len(),
{
    if a.len() == 0 {
        assert(a + b =~= b);
        assert(encode_utf8(a) + encode_utf8(b) =~= encode_utf8(b));
    } else {
        assert((a + b).drop_first() =~= a.drop_first() + b);
        lemma_encode_concat(a.drop_first(), b);
        assert(encode_utf8(a + b) == encode_scalar((a + b)[0] as u32) + encode_utf8((a + b).drop_first()));
        assert(encode_scalar(a[0] as u32) + (encode_utf8(a.drop_first()) + encode_utf8(b)) =~= encode_scalar(
            a[0] as u32,
        ) + encode_utf8(a.drop_first()) + encode_utf8(b));
    }
}

proof fn lemma_leading_byte_high(v: u32)
    requires
        is_scalar(v),
        !has_width_1_encoding(v),
    ensures
        encode_scalar(v)[0] >= 128,
{
    if has_width_2_encoding(v) {
        assert(0xC0u8 | ((v >> 6) & 0x1F) as u8 >= 128) by (bit_vector);
    } else if has_width_3_encoding(v) {
        assert(0xE0u8 | ((v >> 12) & 0x0F) as u8 >= 128) by (bit_vector);
    } else {
        assert(0xF0u8 | ((v >> 18) & 0x7) as u8 >= 128) by (bit_vector);
    }
}

/// A character's code as a `u32` is its value.
pub proof fn lemma_char_u32(c: char)
    ensures
        (c as u32) as int == c as int,
        (c as u32) <= 0x7f <==> c <= '\u{7f}',
{
}

/// Characters whose encoding is ASCII are ASCII.
pub proof fn lemma_encode_ascii_back(w: Seq<char>)
    requires
        ascii_bytes(encode_utf8(w)),
    ensures
        is_ascii_chars(w),
    decreases w.len(),
{
    if w.len() > 0 {
        let v = w[0] as u32;
        char_is_scalar(w[0]);
        let e = encode_utf8(w);
        assert(e == encode_scalar(v) + encode_utf8(w.drop_first()));
        if !has_width_1_encoding(v) {
            lemma_leading_byte_high(v);
            assert(e[0] == encode_scalar(v)[0]);
            assert(e[0] < 128);
        }
        let rest = encode_utf8(w.drop_first());
        assert(encode_scalar(v).len() == 1);
        assert forall|i: int| 0 <= i < rest.len() implies #[trigger] rest[i] < 128 by {
            assert(rest[i] == e[i + 1]);
        }
        lemma_encode_ascii_back(w.drop_first());
        assert forall|i: int| 0 <= i < w.len() implies '\0' <= #[trigger] w[i] <= '\u{7f}' by {
            if i > 0 {
                assert(w[i] == w.drop_first()[i - 1]);
            } else {
                assert(has_width_1_encoding(v));
                lemma_char_u32(w[0]);
                assert(w[0] as int <= 0x7f);
            }
        }
    }
}

/// The UTF-8 bytes of ASCII characters are the characters themselves.
pub proof fn lemma_ascii_chars_bytes(w: Seq<char>)
    requires
        is_ascii_chars(w),
    ensures
        encode_utf8(w) == w.map_values(|c: char| c as u8),
        ascii_bytes(encode_utf8(w)),
{
    lemma_ascii_encode(w);
    assert forall|i: int| 0 <= i < encode_utf8(w).len() implies #[trigger] encode_utf8(w)[i] < 128 by {
        assert(w[i] <= '\u{7f}');
    }
}

/// The characters of a string slice, in order.
pub fn chars_of(s: &str) -> (r: Vec<char>)
    ensures
        r@ == s@,
{
    let ghost all = s@;
    let mut out: Vec<char> = Vec::new();
    for c in it: s.chars()
        invariant
            it.seq() == all,
            out@ == all.subrange(0, it.index() as int),
    {
        proof {
            assert(all.subrange(0, it.index() + 1) =~= all.subrange(0, it.index() as int).push(c));
        }
        out.push(c);
    }
    assert(all.subrange(0, all.len() as int) =~= all);
    out
}

/// `char::to_ascii_lowercase`: `A`–`Z` become `a`–`z`; every other
/// character is kept.
pub open spec fn lower_char(c: char) -> char {
    if 'A' <= c <= 'Z' {
        ((c as u32) + 32) as char
    } else {
        c
    }
}

/// `str::to_ascii_lowercase`, character by character.
pub open spec fn lowercase(s: Seq<char>) -> Seq<char> {
    s.map_values(|c: char| lower_char(c))
}

/// Executable [`lower_char`].
pub fn ascii_lower_char(c: char) -> (r: char)
    ensures
        r == lower_char(c),
{
    if 'A' <= c && c <= 'Z' {
        let b: u8 = (c as u8) + 32;
        b as char
    } else {
        c
    }
}

/// The characters of `s` with ASCII letters in lower case.
pub fn ascii_lowercase(s: &str) -> (r: Vec<char>)
    ensures
        r@ == lowercase(s@),
{
    let cs = chars_of(s);
    let mut out: Vec<char> = Vec::new();
    let mut i: usize = 0;
    while i < cs.len()
        invariant
            i <= cs@.len(),
            cs@ == s@,
            out@ == lowercase(cs@.subrange(0, i as int)),
        decreases cs@.len() - i,
    {
        let l = ascii_lower_char(cs[i]);
        out.push(l);
        i = i + 1;
        assert(lowercase(cs@.subrange(0, i as int)) =~= lowercase(cs@.subrange(0, i - 1)).push(l));
    }
    assert(cs@.subrange(0, cs@.len() as int) =~= cs@);
    out
}

/// `needle` occurs in `hay` as a contiguous run.
pub open spec fn has_substring(hay: Seq<char>, needle: Seq<char>) -> bool {
    exists|i: int| 0 <= i && i + needle.len() <= hay.len() && #[trigger] hay.subrange(i, i + needle.len()) == needle
}

/// Whether the run of `hay` starting at `at` is `needle`.
pub(crate) fn matches_at(hay: &Vec<char>, at: usize, needle: &Vec<char>) -> (r: bool)
    requires
        at + needle@.len() <= hay@.len(),
    ensures
        r == (hay@.subrange(at as int, at + needle@.len()) == needle@),
{
    let hl = hay.len();
    let mut j: usize = 0;
    while j < needle.len()
        invariant
            hl == hay@.len(),
            at + needle@.len() <= hay@.len(),
            j <= needle@.len(),
            forall|k: int| 0 <= k < j ==> hay@[at + k] == needle@[k],
        decreases needle@.len() - j,
    {
        if hay[at + j] != needle[j] {
            assert(hay@.subrange(at as int, at + needle@.len())[j as int] != needle@[j as int]);
            return false;
        }
        j = j + 1;
    }
    assert(hay@.subrange(at as int, at + needle@.len()) =~= needle@);
    true
}

/// `str::contains` on characters: whether `needle` occurs in `hay`.
pub fn contains_chars(hay: &Vec<char>, needle: &str) -> (r: bool)
    ensures
        r == has_substring(hay@, needle@),
{
    let n = chars_of(needle);
    if n.len() > hay.len() {
        return false;
    }
    let last = hay.len() - n.len();
    let mut i: usize = 0;
    while i <= last
        invariant
            n@ == needle@,
            last == hay@.len() - n@.len(),
            i <= last + 1,
            forall|k: int| 0 <= k < i ==> #[trigger] hay@.subrange(k, k + n@.len()) != n@,
        decreases last + 1 - i,
    {
        if matches_at(hay, i, &n) {
            return true;
        }
        if i == last {
            return false;
        }
        i = i + 1;
    }
    false
}

/// Whitespace dropped from the front, as `str::trim_start` drops it.
pub open spec fn skip_white_space(t: Seq<char>) -> Seq<char>
    decreases t.len(),
{
    if t.len() > 0 && is_white_space(t[0]) {
        skip_white_space(t.drop_first())
    } else {
        t
    }
}

/// The characters up to the first whitespace.
pub open spec fn up_to_white_space(t: Seq<char>) -> Seq<char>
    decreases t.len(),
{
    if t.len() == 0 || is_white_space(t[0]) {
        Seq::empty()
    } else {
        seq![t[0]] + up_to_white_space(t.drop_first())
    }
}

/// Leading whitespace is all that [`skip_white_space`] drops.
pub proof fn lemma_skip_white_space(t: Seq<char>)
    ensures
        skip_white_space(t).len() <= t.len(),
        skip_white_space(t) == t.subrange(t.len() - skip_white_space(t).len(), t.len() as int),
        skip_white_space(t).len() > 0 ==> !is_white_space(skip_white_space(t)[0]),
    decreases t.len(),
{
    if t.len() > 0 && is_white_space(t[0]) {
        lemma_skip_white_space(t.drop_first());
        assert(t.drop_first().subrange(t.len() - 1 - skip_white_space(t).len(), t.len() - 1) =~= t.subrange(
            t.len() - skip_white_space(t).len(),
            t.len() as int,
        ));
    } else {
        assert(t.subrange(0, t.len() as int) =~= t);
    }
}

/// [`up_to_white_space`] is a prefix, followed by whitespace or the end.
pub proof fn lemma_up_to_white_space(t: Seq<char>)
    ensures
        up_to_white_space(t).len() <= t.len(),
        up_to_white_space(t) == t.subrange(0, up_to_white_space(t).len() as int),
        up_to_white_space(t).len() < t.len() ==> is_white_space(t[up_to_white_space(t).len() as int]),
        t.len() > 0 && !is_white_space(t[0]) ==> up_to_white_space(t).len() > 0,
    decreases t.len(),
{
    if t.len() > 0 && !is_white_space(t[0]) {
        lemma_up_to_white_space(t.drop_first());
        assert(seq![t[0]] + t.drop_first().subrange(0, up_to_white_space(t.drop_first()).len() as int) =~= t.subrange(
            0,
            up_to_white_space(t).len() as int,
        ));
    } else {
        assert(t.subrange(0, 0) =~= Seq::<char>::empty());
    }
}

/// The whitespace-separated words of some text, as `str::split_whitespace`
/// yields them.
pub open spec fn words(t: Seq<char>) -> Seq<Seq<char>>
    decreases t.len(),
{
    let s = skip_white_space(t);
    if s.len() == 0 {
        Seq::empty()
    } else {
        let w = up_to_white_space(s);
        proof {
            lemma_skip_white_space(t);
            lemma_up_to_white_space(s);
        }
        seq![w] + words(s.subrange(w.len() as int, s.len() as int))
    }
}

/// The next word of `t` from `from`: its bounds, or `None` when only
/// whitespace is left.
pub fn next_word(t: &Vec<char>, from: usize) -> (r: Option<(usize, usize)>)
    requires
        from <= t@.len(),
    ensures
        match r {
            None => words(t@.subrange(from as int, t@.len() as int)) == Seq::<Seq<char>>::empty(),
            Some((a, b)) => from <= a < b <= t@.len() && words(t@.subrange(from as int, t@.len() as int)) == seq![
                t@.subrange(a as int, b as int),
            ] + words(t@.subrange(b as int, t@.len() as int)),
        },
{
    let n = t.len();
    let ghost rest = t@.subrange(from as int, n as int);
    let mut a = from;
    while a < n && white_space(t[a])
        invariant
            n == t@.len(),
            from <= a <= n,
            skip_white_space(rest) == skip_white_space(t@.subrange(a as int, n as int)),
            rest == t@.subrange(from as int, n as int),
        decreases n - a,
    {
        assert(t@.subrange(a as int, n as int).drop_first() =~= t@.subrange(a + 1, n as int));
        a = a + 1;
    }
    if a == n {
        assert(t@.subrange(a as int, n as int) =~= Seq::<char>::empty());
        assert(words(rest) =~= Seq::<Seq<char>>::empty());
        return None;
    }
    assert(skip_white_space(t@.subrange(a as int, n as int)) == t@.subrange(a as int, n as int));
    let mut b = a;
    while b < n && !white_space(t[b])
        invariant
            n == t@.len(),
            a <= b <= n,
            up_to_white_space(t@.subrange(a as int, n as int)) == t@.subrange(a as int, b as int) + up_to_white_space(
                t@.subrange(b as int, n as int),
            ),
        decreases n - b,
    {
        proof {
            let s = t@.subrange(b as int, n as int);
            assert(s.drop_first() =~= t@.subrange(b + 1, n as int));
            assert(t@.subrange(a as int, b as int) + (seq![s[0]] + up_to_white_space(s.drop_first())) =~= t@.subrange(
                a as int,
                b + 1,
            ) + up_to_white_space(t@.subrange(b + 1, n as int)));
        }
        b = b + 1;
    }
    proof {
        let s = t@.subrange(a as int, n as int);
        assert(up_to_white_space(t@.subrange(b as int, n as int)) =~= Seq::<char>::empty());
        assert(t@.subrange(a as int, b as int) + Seq::<char>::empty() =~= t@.subrange(a as int, b as int));
        assert(up_to_white_space(s) == t@.subrange(a as int, b as int));
        assert(s.subrange((b - a) as int, s.len() as int) =~= t@.subrange(b as int, n as int));
    }
    Some((a, b))
}

/// Whitespace dropped from the back, as `str::trim_end` drops it.
pub open spec fn trim_end_white_space(t: Seq<char>) -> Seq<char>
    decreases t.len(),
{
    if t.len() > 0 && is_white_space(t.last()) {
        trim_end_white_space(t.drop_last())
    } else {
        t
    }
}

/// `str::trim`: leading and trailing whitespace removed.
pub open spec fn trim_white_space(t: Seq<char>) -> Seq<char> {
    trim_end_white_space(skip_white_space(t))
}

/// The characters of `v` from `a` up to `b`.
pub fn sub_chars(v: &Vec<char>, a: usize, b: usize) -> (r: Vec<char>)
    requires
        a <= b <= v@.len(),
    ensures
        r@ == v@.subrange(a as int, b as int),
{
    let mut out: Vec<char> = Vec::new();
    let mut i: usize = a;
    while i < b
        invariant
            a <= i <= b <= v@.len(),
            out@ == v@.subrange(a as int, i as int),
        decreases b - i,
    {
        out.push(v[i]);
        i = i + 1;
        assert(out@ =~= v@.subrange(a as int, i as int));
    }
    out
}

/// The characters of `s` without leading and trailing whitespace.
pub fn trimmed_chars(s: &str) -> (r: Vec<char>)
    ensures
        r@ == trim_white_space(s@),
{
    let v = chars_of(s);
    let n = v.len();
    let mut a: usize = 0;
    assert(v@.subrange(0, n as int) =~= v@);
    while a < n && white_space(v[a])
        invariant
            n == v@.len(),
            v@ == s@,
            a <= n,
            skip_white_space(v@) == skip_white_space(v@.subrange(a as int, n as int)),
        decreases n - a,
    {
        assert(v@.subrange(a as int, n as int).drop_first() =~= v@.subrange(a + 1, n as int));
        a = a + 1;
    }
    assert(skip_white_space(v@.subrange(a as int, n as int)) == v@.subrange(a as int, n as int));
    let mut b: usize = n;
    while b > a && white_space(v[b - 1])
        invariant
            n == v@.len(),
            v@ == s@,
            a <= b <= n,
            trim_white_space(v@) == trim_end_white_space(v@.subrange(a as int, b as int)),
        decreases b - a,
    {
        assert(v@.subrange(a as int, b as int).drop_last() =~= v@.subrange(a as int, b - 1));
        b = b - 1;
    }
    sub_chars(&v, a, b)
}

/// The characters of `s` without trailing whitespace.
pub fn trim_end_chars(s: &str) -> (r: Vec<char>)
    ensures
        r@ == trim_end_white_space(s@),
{
    let v = chars_of(s);
    let n = v.len();
    let mut b: usize = n;
    assert(v@.subrange(0, n as int) =~= v@);
    while b > 0 && white_space(v[b - 1])
        invariant
            n == v@.len(),
            v@ == s@,
            b <= n,
            trim_end_white_space(v@) == trim_end_white_space(v@.subrange(0, b as int)),
        decreases b,
    {
        assert(v@.subrange(0, b as int).drop_last() =~= v@.subrange(0, b - 1));
        b = b - 1;
    }
    sub_chars(&v, 0, b)
}

/// Whether some characters spell `b`.
pub fn chars_eq(a: &Vec<char>, b: &str) -> (r: bool)
    ensures
        r == (a@ == b@),
{
    let w = chars_of(b);
    if a.len() != w.len() {
        return false;
    }
    let mut i: usize = 0;
    while i < a.len()
        invariant
            a@.len() == w@.len(),
            w@ == b@,
            i <= a@.len(),
            forall|j: int| 0 <= j < i ==> a@[j] == w@[j],
        decreases a@.len() - i,
    {
        if a[i] != w[i] {
            return false;
        }
        i = i + 1;
    }
    assert(a@ =~= w@);
    true
}

/// An ASCII digit character.
pub open spec fn is_digit_char(c: char) -> bool {
    '0' <= c <= '9'
}

/// The value of decimal digit characters.
pub open spec fn digits_value(s: Seq<char>) -> nat
    decreases s.len(),
{
    if s.len() == 0 {
        0
    } else {
        digits_value(s.drop_last()) * 10 + ((s.last() as u32) - 48) as nat
    }
}

/// The text of a number without its optional leading `+`.
pub open spec fn unsigned_digits(s: Seq<char>) -> Seq<char> {
    if s.len() > 0 && s[0] == '+' {
        s.drop_first()
    } else {
        s
    }
}

/// Every character is an ASCII digit.
pub open spec fn all_digit_chars(d: Seq<char>) -> bool {
    forall|i: int| 0 <= i < d.len() ==> is_digit_char(#[trigger] d[i])
}

/// `u32::from_str`: an optional `+`, then one or more ASCII digits whose
/// value fits in 32 bits.
pub open spec fn parse_u32(s: Seq<char>) -> Option<u32> {
    let d = unsigned_digits(s);
    if d.len() > 0 && all_digit_chars(d) && digits_value(d) <= u32::MAX {
        Some(digits_value(d) as u32)
    } else {
        None
    }
}

/// A longer run of digits is worth at least as much as its prefix.
proof fn lemma_digits_value_prefix(s: Seq<char>, i: int)
    requires
        0 <= i <= s.len(),
    ensures
        digits_value(s.subrange(0, i)) <= digits_value(s),
    decreases s.len() - i,
{
    if i < s.len() {
        lemma_digits_value_prefix(s, i + 1);
        let t = s.subrange(0, i + 1);
        assert(t.drop_last() =~= s.subrange(0, i));
        assert(digits_value(t) >= digits_value(t.drop_last())) by (nonlinear_arith)
            requires
                digits_value(t) == digits_value(t.drop_last()) * 10 + ((t.last() as u32) - 48) as nat,
        ;
    } else {
        assert(s.subrange(0, i) =~= s);
    }
}

/// Executable [`parse_u32`].
pub fn parse_u32_chars(s: &Vec<char>) -> (r: Option<u32>)
    ensures
        r == parse_u32(s@),
{
    let n = s.len();
    let mut i: usize = 0;
    if n > 0 && s[0] == '+' {
        i = 1;
    }
    let ghost d = unsigned_digits(s@);
    let start = i;
    assert(d =~= s@.subrange(start as int, n as int));
    if i == n {
        return None;
    }
    let mut v: u64 = 0;
    while i < n
        invariant
            n == s@.len(),
            start <= i <= n,
            start < n,
            d == s@.subrange(start as int, n as int),
            d == unsigned_digits(s@),
            forall|j: int| start <= j < i ==> is_digit_char(#[trigger] s@[j]),
            v == digits_value(s@.subrange(start as int, i as int)),
            v <= u32::MAX,
        decreases n - i,
    {
        let c = s[i];
        if !('0' <= c && c <= '9') {
            assert(d[i - start] == s@[i as int]);
            assert(!is_digit_char(d[i - start]));
            assert(!all_digit_chars(d));
            return None;
        }
        let dv: u64 = (c as u32 - 48) as u64;
        let next: u64 = v * 10 + dv;
        proof {
            let t = s@.subrange(start as int, i + 1);
            assert(t.drop_last() =~= s@.subrange(start as int, i as int));
            assert(t.last() == c);
            assert(digits_value(t) == next);
        }
        if next > 4294967295 {
            proof {
                assert forall|j: int| 0 <= j < i + 1 - start implies is_digit_char(#[trigger] d.subrange(0, i + 1 - start)[j]) by {
                    assert(d.subrange(0, i + 1 - start)[j] == s@[start + j]);
                }
                assert(d.subrange(0, i + 1 - start) =~= s@.subrange(start as int, i + 1));
                lemma_digits_value_prefix(d, i + 1 - start);
                assert(digits_value(d) > u32::MAX);
            }
            return None;
        }
        v = next;
        i = i + 1;
    }
    proof {
        assert(s@.subrange(start as int, n as int) =~= d);
        assert forall|j: int| 0 <= j < d.len() implies is_digit_char(#[trigger] d[j]) by {
            assert(d[j] == s@[start + j]);
        }
    }
    Some(v as u32)
}

/// `str::trim`: the slice without leading and trailing whitespace.
pub fn trim_str(s: &str) -> (r: &str)
    ensures
        r@ == trim_white_space(s@),
{
    let v = chars_of(s);
    let n = v.len();
    let mut a: usize = 0;
    assert(v@.subrange(0, n as int) =~= v@);
    while a < n && white_space(v[a])
        invariant
            n == v@.len(),
            v@ == s@,
            a <= n,
            skip_white_space(v@) == skip_white_space(v@.subrange(a as int, n as int)),
        decreases n - a,
    {
        assert(v@.subrange(a as int, n as int).drop_first() =~= v@.subrange(a + 1, n as int));
        a = a + 1;
    }
    assert(skip_white_space(v@.subrange(a as int, n as int)) == v@.subrange(a as int, n as int));
    let mut b: usize = n;
    while b > a && white_space(v[b - 1])
        invariant
            n == v@.len(),
            v@ == s@,
            a <= b <= n,
            trim_white_space(v@) == trim_end_white_space(v@.subrange(a as int, b as int)),
        decreases b - a,
    {
        assert(v@.subrange(a as int, b as int).drop_last() =~= v@.subrange(a as int, b - 1));
        b = b - 1;
    }
    s.substring_char(a, b)
}

/// Full Unicode lower case of some text, as `str::to_lowercase` computes it.
pub uninterp spec fn unicode_lowercase(s: Seq<char>) -> Seq<char>;

/// `str::to_lowercase`. The mapping is Unicode's full lower-case mapping
/// (one character may become several, and a final sigma depends on its
/// neighbours), a function of the text alone; this contract names it
/// rather than restating the tables.
#[verifier::external_body]
pub(crate) fn to_lowercase(s: &str) -> (r: String)
    ensures
        r@ == unicode_lowercase(s@),
{
    s.to_lowercase()
}

/// Every character takes at least one byte.
pub proof fn lemma_encode_len(s: Seq<char>)
    ensures
        encode_utf8(s).len() >= s.len(),
    decreases s.len(),
{
    if s.len() > 0 {
        lemma_encode_len(s.drop_first());
        assert(encode_scalar(s[0] as u32).len() >= 1);
    }
}

} // verus!
