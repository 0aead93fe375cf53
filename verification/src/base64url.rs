//! RFC 4648 base64url codec and byte comparison.
//!
//! The alphabet is the URL-safe one (`-` and `_`). Padding is neither emitted
//! nor required; trailing `=` is tolerated on decode. Impossible lengths, with
//! padding and without, and non-zero trailing bits are rejected, so that two
//! texts of equal length never decode to the same bytes.
use crate::text::{decimal, hex_digit_of};
use vstd::prelude::*;

verus! {

/// Why a text is not base64url.
#[derive(Debug, Clone, Copy, PartialEq, Eq, Structural)]
pub enum Base64UrlDecodeError {
    /// The length in bytes is 1 modulo 4, with the padding or without it.
    InvalidLength,
    /// The byte at `index` is outside the alphabet.
    InvalidByte {
        /// Offset of the offending byte.
        index: usize,
        /// The offending byte.
        byte: u8,
    },
    /// The bits left over after the last whole byte are not all zero.
    NonCanonicalTrailingBits,
}

/// The alphabet: the byte that stands for a value below 64.
pub open spec fn symbol(v: int) -> int {
    if v < 26 {
        65 + v
    } else if v < 52 {
        97 + (v - 26)
    } else if v < 62 {
        48 + (v - 52)
    } else if v == 62 {
        45
    } else {
        95
    }
}

/// Whether a byte belongs to the alphabet.
pub open spec fn is_symbol(c: int) -> bool {
    65 <= c <= 90 || 97 <= c <= 122 || 48 <= c <= 57 || c == 45 || c == 95
}

/// The value that a byte of the alphabet stands for.
pub open spec fn symbol_value(c: int) -> int {
    if 65 <= c <= 90 {
        c - 65
    } else if 97 <= c <= 122 {
        c - 97 + 26
    } else if 48 <= c <= 57 {
        c - 48 + 52
    } else if c == 45 {
        62
    } else {
        63
    }
}

/// The byte at `i`, or zero past the end.
pub open spec fn byte_or_zero(bytes: Seq<u8>, i: int) -> int {
    if 0 <= i < bytes.len() {
        bytes[i] as int
    } else {
        0
    }
}

/// The value of the symbol at `i`, or zero past the end.
pub open spec fn value_or_zero(text: Seq<u8>, i: int) -> int {
    if 0 <= i < text.len() {
        symbol_value(text[i] as int)
    } else {
        0
    }
}

/// The `i`-th run of six bits of a byte string, zero bits being added at the end.
pub open spec fn sextet(bytes: Seq<u8>, i: int) -> int {
    let q = i / 4;
    let b0 = byte_or_zero(bytes, 3 * q);
    let b1 = byte_or_zero(bytes, 3 * q + 1);
    let b2 = byte_or_zero(bytes, 3 * q + 2);
    if i % 4 == 0 {
        b0 / 4
    } else if i % 4 == 1 {
        (b0 % 4) * 16 + b1 / 16
    } else if i % 4 == 2 {
        (b1 % 16) * 4 + b2 / 64
    } else {
        b2 % 64
    }
}

/// The `k`-th run of eight bits of a symbol string.
pub open spec fn octet(text: Seq<u8>, k: int) -> int {
    let q = k / 3;
    let v0 = value_or_zero(text, 4 * q);
    let v1 = value_or_zero(text, 4 * q + 1);
    let v2 = value_or_zero(text, 4 * q + 2);
    let v3 = value_or_zero(text, 4 * q + 3);
    if k % 3 == 0 {
        v0 * 4 + v1 / 16
    } else if k % 3 == 1 {
        (v1 % 16) * 16 + v2 / 4
    } else {
        (v2 % 4) * 64 + v3
    }
}

/// Number of symbols that `n` bytes take.
pub open spec fn encoded_len(n: int) -> int {
    (4 * n + 2) / 3
}

/// The unpadded base64url text of a byte string.
pub open spec fn encoded(bytes: Seq<u8>) -> Seq<char> {
    Seq::new(encoded_len(bytes.len() as int) as nat, |i: int| symbol(sextet(bytes, i)) as char)
}

/// The bytes that a symbol string stands for.
pub open spec fn decoded(text: Seq<u8>) -> Seq<u8> {
    Seq::new((3 * text.len() / 4) as nat, |k: int| octet(text, k) as u8)
}

/// The bits that remain after the last whole byte.
pub open spec fn trailing_bits(text: Seq<u8>) -> int {
    let n = text.len() as int;
    if n % 4 == 0 {
        0
    } else if n % 4 == 1 {
        value_or_zero(text, n - 1)
    } else if n % 4 == 2 {
        value_or_zero(text, n - 1) % 16
    } else {
        value_or_zero(text, n - 1) % 4
    }
}

/// A byte string without its trailing `=` signs.
pub open spec fn trimmed(text: Seq<u8>) -> Seq<u8>
    decreases text.len(),
{
    if text.len() > 0 && text.last() == 61 {
        trimmed(text.drop_last())
    } else {
        text
    }
}

/// The first position, from `from` on, that holds no symbol; the length if there is none.
pub open spec fn first_invalid(text: Seq<u8>, from: int) -> int
    decreases text.len() - from,
{
    if from >= text.len() || from < 0 {
        text.len() as int
    } else if !is_symbol(text[from] as int) {
        from
    } else {
        first_invalid(text, from + 1)
    }
}

/// What decoding a text, given by its bytes, comes to.
pub open spec fn decode_result(bytes: Seq<u8>) -> Result<Seq<u8>, Base64UrlDecodeError> {
    let text = trimmed(bytes);
    let bad = first_invalid(text, 0);
    if bytes.len() % 4 == 1 {
        Err(Base64UrlDecodeError::InvalidLength)
    } else if bad < text.len() {
        Err(Base64UrlDecodeError::InvalidByte { index: bad as usize, byte: text[bad] })
    } else if trailing_bits(text) != 0 {
        Err(Base64UrlDecodeError::NonCanonicalTrailingBits)
    } else if text.len() % 4 == 1 {
        Err(Base64UrlDecodeError::InvalidLength)
    } else {
        Ok(decoded(text))
    }
}

/// The character that stands for a value below 64.
fn symbol_char(v: u8) -> (c: char)
    requires
        v < 64,
    ensures
        c == symbol(v as int) as char,
{
    let b: u8 = if v < 26 {
        65 + v
    } else if v < 52 {
        97 + (v - 26)
    } else if v < 62 {
        48 + (v - 52)
    } else if v == 62 {
        45
    } else {
        95
    };
    b as char
}

/// The value that a byte of the alphabet stands for.
fn value_of(c: u8) -> (r: Option<u8>)
    ensures
        r == (if is_symbol(c as int) { Some(symbol_value(c as int) as u8) } else { None }),
        r matches Some(v) ==> v < 64,
{
    if 65 <= c && c <= 90 {
        Some(c - 65)
    } else if 97 <= c && c <= 122 {
        Some(c - 97 + 26)
    } else if 48 <= c && c <= 57 {
        Some(c - 48 + 52)
    } else if c == 45 {
        Some(62)
    } else if c == 95 {
        Some(63)
    } else {
        None
    }
}

/// Encodes bytes as unpadded base64url.
#[must_use]
pub fn encode(bytes: &[u8]) -> (out: String)
    ensures
        out@ == encoded(bytes@),
{
    let mut out = String::new();
    let mut rest: u8 = 0;
    let mut i: usize = 0;
    while i < bytes.len()
        invariant
            i <= bytes@.len(),
            out@.len() == i + i / 3,
            forall|k: int| 0 <= k < out@.len() ==> out@[k] == symbol(sextet(bytes@, k)) as char,
            rest == (if i % 3 == 0 { 0 } else if i % 3 == 1 { (bytes@[i - 1] % 4) * 16 } else { (bytes@[i - 1] % 16) * 4 }),
        decreases bytes.len() - i,
    {
        let b: u8 = bytes[i];
        let ghost n = i + i / 3;
        if i % 3 == 0 {
            out.push(symbol_char(b / 4));
            assert(b / 4 == sextet(bytes@, n as int));
            rest = (b % 4) * 16;
        } else if i % 3 == 1 {
            out.push(symbol_char(rest + b / 16));
            assert(rest + b / 16 == sextet(bytes@, n as int));
            rest = (b % 16) * 4;
        } else {
            out.push(symbol_char(rest + b / 64));
            assert(rest + b / 64 == sextet(bytes@, n as int));
            out.push(symbol_char(b % 64));
            assert(b % 64 == sextet(bytes@, n + 1));
            rest = 0;
        }
        i = i + 1;
    }
    if i % 3 != 0 {
        assert(rest == sextet(bytes@, out@.len() as int));
        out.push(symbol_char(rest));
    }
    assert(out@ =~= encoded(bytes@));
    out
}

/// The part of a text before its trailing `=` signs.
fn trimmed_len(bytes: &[u8]) -> (n: usize)
    ensures
        n <= bytes@.len(),
        bytes@.subrange(0, n as int) == trimmed(bytes@),
{
    let mut n: usize = bytes.len();
    assert(bytes@.subrange(0, n as int) =~= bytes@);
    while n > 0 && bytes[n - 1] == 61
        invariant
            n <= bytes@.len(),
            trimmed(bytes@.subrange(0, n as int)) == trimmed(bytes@),
        decreases n,
    {
        let ghost now = bytes@.subrange(0, n as int);
        assert(now.drop_last() =~= bytes@.subrange(0, n - 1));
        n = n - 1;
    }
    n
}

proof fn lemma_first_invalid_skips(text: Seq<u8>, from: int, to: int)
    requires
        0 <= from <= to <= text.len(),
        forall|k: int| from <= k < to ==> is_symbol(#[trigger] text[k] as int),
    ensures
        first_invalid(text, from) == first_invalid(text, to),
    decreases to - from,
{
    if from < to {
        assert(is_symbol(text[from] as int));
        lemma_first_invalid_skips(text, from + 1, to);
    }
}

/// Decodes base64url; trailing `=` is tolerated but never required.
pub fn decode(s: &str) -> (r: Result<Vec<u8>, Base64UrlDecodeError>)
    ensures
        vstd::utf8::encode_utf8(s@).len() <= usize::MAX,
        match decode_result(vstd::utf8::encode_utf8(s@)) {
            Ok(bytes) => r matches Ok(out) && out@ == bytes,
            Err(e) => r matches Err(f) && f == e,
        },
{
    let bytes = s.as_bytes();
    if bytes.len() % 4 == 1 {
        return Err(Base64UrlDecodeError::InvalidLength);
    }
    let n: usize = trimmed_len(bytes);
    let ghost text = trimmed(bytes@);
    let mut out: Vec<u8> = Vec::new();
    let mut rest: u8 = 0;
    let mut i: usize = 0;
    while i < n
        invariant
            i <= n <= bytes@.len(),
            bytes@ == vstd::utf8::encode_utf8(s@),
            bytes@.len() % 4 != 1,
            text == trimmed(bytes@),
            text == bytes@.subrange(0, n as int),
            forall|k: int| 0 <= k < i ==> is_symbol(#[trigger] text[k] as int),
            out@.len() == 3 * i / 4,
            forall|k: int| 0 <= k < out@.len() ==> out@[k] == octet(text, k),
            rest == trailing_bits(text.subrange(0, i as int)),
            rest < 64,
        decreases n - i,
    {
        let c: u8 = bytes[i];
        assert(c == text[i as int]);
        let v: u8 = match value_of(c) {
            Some(v) => v,
            None => {
                proof {
                    lemma_first_invalid_skips(text, 0, i as int);
                }
                return Err(Base64UrlDecodeError::InvalidByte { index: i, byte: c });
            },
        };
        let ghost m = 3 * i / 4;
        let ghost before = text.subrange(0, i as int);
        let ghost after = text.subrange(0, i + 1);
        assert(v == value_or_zero(text, i as int));
        assert(v == value_or_zero(after, i as int));
        if i > 0 {
            assert(value_or_zero(before, i - 1) == value_or_zero(text, i - 1));
        }
        if i % 4 == 0 {
            rest = v;
        } else if i % 4 == 1 {
            assert(rest * 4 + v / 16 == octet(text, m as int));
            out.push(rest * 4 + v / 16);
            rest = v % 16;
        } else if i % 4 == 2 {
            assert(rest * 16 + v / 4 == octet(text, m as int));
            out.push(rest * 16 + v / 4);
            rest = v % 4;
        } else {
            assert(rest * 64 + v == octet(text, m as int));
            out.push(rest * 64 + v);
            rest = 0;
        }
        i = i + 1;
    }
    proof {
        lemma_first_invalid_skips(text, 0, n as int);
        assert(text.subrange(0, n as int) =~= text);
    }
    if rest != 0 {
        return Err(Base64UrlDecodeError::NonCanonicalTrailingBits);
    }
    if n % 4 == 1 {
        return Err(Base64UrlDecodeError::InvalidLength);
    }
    assert(out@ =~= decoded(text));
    Ok(out)
}

/// Whether two byte strings hold the same bytes.
///
/// Every position of the longer one is visited whatever the bytes are.
#[must_use]
pub fn constant_time_eq(a: &[u8], b: &[u8]) -> (r: bool)
    ensures
        r == (a@ == b@),
{
    let mut diff: u8 = if a.len() != b.len() {
        1
    } else {
        0
    };
    let longest: usize = if a.len() < b.len() {
        b.len()
    } else {
        a.len()
    };
    let mut i: usize = 0;
    while i < longest
        invariant
            i <= longest,
            longest == (if a@.len() < b@.len() { b@.len() } else { a@.len() }),
            diff == 0 ==> a@.len() == b@.len(),
            diff == 0 ==> (forall|k: int| 0 <= k < i ==> a@[k] == b@[k]),
            diff != 0 ==> a@ != b@,
        decreases longest - i,
    {
        let x: u8 = if i < a.len() {
            a[i]
        } else {
            0
        };
        let y: u8 = if i < b.len() {
            b[i]
        } else {
            0
        };
        let d: u8 = diff;
        assert((d | (x ^ y)) == 0 <==> (d == 0 && x == y)) by (bit_vector);
        diff = diff | (x ^ y);
        i = i + 1;
    }
    assert(diff == 0 ==> a@ =~= b@);
    diff == 0
}

/// The text of a byte in hexadecimal, two digits behind `0x`.
pub open spec fn hex_byte_text(b: u8) -> Seq<char> {
    "0x"@.push(crate::text::hex_digit((b / 16) as nat)).push(crate::text::hex_digit((b % 16) as nat))
}

impl Base64UrlDecodeError {
    /// The message of the failure.
    pub open spec fn message_text(self) -> Seq<char> {
        match self {
            Base64UrlDecodeError::InvalidLength => "invalid base64url length (len % 4 == 1)"@,
            Base64UrlDecodeError::InvalidByte { index, byte } => "invalid base64url byte "@
                + hex_byte_text(byte) + " at index "@ + crate::text::decimal_text(index as nat),
            Base64UrlDecodeError::NonCanonicalTrailingBits =>
                "non-canonical trailing bits in base64url input"@,
        }
    }

    /// The message of the failure.
    pub fn message(&self) -> (r: String)
        ensures
            r@ == self.message_text(),
    {
        match *self {
            Base64UrlDecodeError::InvalidLength => "invalid base64url length (len % 4 == 1)".to_owned(),
            Base64UrlDecodeError::InvalidByte { index, byte } => {
                let mut hex = "0x".to_owned();
                hex.push(hex_digit_of(byte / 16));
                hex.push(hex_digit_of(byte % 16));
                "invalid base64url byte ".to_owned().concat(hex.as_str()).concat(" at index ").concat(
                    decimal(index as u128).as_str(),
                )
            },
            Base64UrlDecodeError::NonCanonicalTrailingBits =>
                "non-canonical trailing bits in base64url input".to_owned(),
        }
    }
}

/// The bytes of a base64url text.
proof fn lemma_encoded_bytes(bytes: Seq<u8>)
    ensures
        vstd::utf8::encode_utf8(encoded(bytes)) == Seq::new(
            encoded(bytes).len(),
            |i: int| symbol(sextet(bytes, i)) as u8,
        ),
{
    let text = encoded(bytes);
    assert forall|i: int| 0 <= i < text.len() implies 0 <= #[trigger] text[i] as u32 <= 127 && text[i] as u8
        == symbol(sextet(bytes, i)) as u8 by {
        let v = sextet(bytes, i);
        assert(0 <= v < 64);
        assert(0 <= symbol(v) < 128);
    }
    vstd::utf8::is_ascii_chars_encode_utf8(text);
    assert(vstd::utf8::encode_utf8(text) =~= Seq::new(
        text.len(),
        |i: int| symbol(sextet(bytes, i)) as u8,
    ));
}

/// An encoded text never carries padding: every character belongs to the alphabet,
/// and `=` does not.
pub proof fn law_encoding_is_unpadded(bytes: Seq<u8>)
    ensures
        forall|i: int|
            0 <= i < encoded(bytes).len() ==> is_symbol(#[trigger] encoded(bytes)[i] as int)
                && encoded(bytes)[i] != '=',
{
    assert forall|i: int| 0 <= i < encoded(bytes).len() implies is_symbol(
        #[trigger] encoded(bytes)[i] as int,
    ) && encoded(bytes)[i] != '=' by {
        let v = sextet(bytes, i);
        assert(0 <= v < 64);
    }
}

/// The symbols of an encoded text give each byte back.
proof fn lemma_octet_of_sextets(bytes: Seq<u8>, text: Seq<u8>, k: int)
    requires
        text.len() == encoded_len(bytes.len() as int),
        forall|i: int| 0 <= i < text.len() ==> #[trigger] value_or_zero(text, i) == sextet(bytes, i),
        0 <= k < bytes.len(),
    ensures
        octet(text, k) == bytes[k],
{
    let q = k / 3;
    assert((4 * q) / 4 == q && (4 * q + 1) / 4 == q && (4 * q + 2) / 4 == q && (4 * q + 3) / 4 == q);
    assert(value_or_zero(text, 4 * q + 1) == sextet(bytes, 4 * q + 1));
    if k % 3 == 0 {
        assert(value_or_zero(text, 4 * q) == sextet(bytes, 4 * q));
    } else if k % 3 == 1 {
        assert(value_or_zero(text, 4 * q + 2) == sextet(bytes, 4 * q + 2));
    } else {
        assert(value_or_zero(text, 4 * q + 2) == sextet(bytes, 4 * q + 2));
        assert(value_or_zero(text, 4 * q + 3) == sextet(bytes, 4 * q + 3));
    }
}

/// The bits that encoding adds at the end are zero.
proof fn lemma_no_trailing_bits(bytes: Seq<u8>, text: Seq<u8>)
    requires
        text.len() == encoded_len(bytes.len() as int),
        forall|i: int| 0 <= i < text.len() ==> #[trigger] value_or_zero(text, i) == sextet(bytes, i),
    ensures
        trailing_bits(text) == 0,
{
    let n = text.len() as int;
    let m = bytes.len() as int;
    if n % 4 != 0 {
        let q = m / 3;
        assert(n == 4 * q + m % 3 + 1);
        assert(value_or_zero(text, n - 1) == sextet(bytes, n - 1));
    }
}

/// Each byte of an encoded text is the symbol of its six bits.
proof fn lemma_encoded_symbols(bytes: Seq<u8>)
    ensures
        ({
            let text = vstd::utf8::encode_utf8(encoded(bytes));
            &&& text.len() == encoded_len(bytes.len() as int)
            &&& forall|i: int| 0 <= i < text.len() ==> is_symbol(#[trigger] text[i] as int)
            &&& forall|i: int|
                0 <= i < text.len() ==> #[trigger] value_or_zero(text, i) == sextet(bytes, i)
        }),
{
    let text = vstd::utf8::encode_utf8(encoded(bytes));
    lemma_encoded_bytes(bytes);
    assert forall|i: int| 0 <= i < text.len() implies is_symbol(#[trigger] text[i] as int) by {
        assert(0 <= sextet(bytes, i) < 64);
    }
    assert forall|i: int| 0 <= i < text.len() implies #[trigger] value_or_zero(text, i) == sextet(bytes, i) by {
        assert(0 <= sextet(bytes, i) < 64);
    }
}

/// A text that holds the symbols of a byte string decodes to that byte string.
proof fn lemma_decode_symbols(bytes: Seq<u8>, text: Seq<u8>)
    requires
        text.len() == encoded_len(bytes.len() as int),
        forall|i: int| 0 <= i < text.len() ==> is_symbol(#[trigger] text[i] as int),
        forall|i: int| 0 <= i < text.len() ==> #[trigger] value_or_zero(text, i) == sextet(bytes, i),
    ensures
        decode_result(text) == Ok::<Seq<u8>, Base64UrlDecodeError>(bytes),
{
    let n = bytes.len() as int;
    assert(text.len() % 4 != 1 && 3 * text.len() / 4 == n) by {
        let q = n / 3;
        assert(n == 3 * q || n == 3 * q + 1 || n == 3 * q + 2);
    }
    assert(trimmed(text) == text) by {
        if text.len() > 0 {
            assert(is_symbol(text[text.len() - 1] as int));
        }
    }
    assert(first_invalid(text, 0) >= text.len()) by {
        lemma_first_invalid_skips(text, 0, text.len() as int);
    }
    assert(trailing_bits(text) == 0) by {
        lemma_no_trailing_bits(bytes, text);
    }
    assert(decoded(text) =~= bytes) by {
        assert forall|k: int| 0 <= k < n implies #[trigger] decoded(text)[k] == bytes[k] by {
            lemma_octet_of_sextets(bytes, text, k);
        }
    }
}

/// A text with some `=` signs behind it.
pub open spec fn padded(text: Seq<char>, signs: nat) -> Seq<char> {
    text + Seq::new(signs, |i: int| '=')
}

/// Decoding what was encoded gives the same bytes back, and so does decoding it with padding, unless
/// the length with the padding is 1 modulo 4: such a text is refused.
pub proof fn law_decode_inverts_encode(bytes: Seq<u8>, signs: nat)
    ensures
        decode_result(vstd::utf8::encode_utf8(encoded(bytes))) == Ok::<Seq<u8>, Base64UrlDecodeError>(bytes),
        (encoded(bytes).len() + signs) % 4 != 1 ==> decode_result(
            vstd::utf8::encode_utf8(padded(encoded(bytes), signs)),
        ) == Ok::<Seq<u8>, Base64UrlDecodeError>(bytes),
        (encoded(bytes).len() + signs) % 4 == 1 ==> decode_result(
            vstd::utf8::encode_utf8(padded(encoded(bytes), signs)),
        ) == Err::<Seq<u8>, Base64UrlDecodeError>(Base64UrlDecodeError::InvalidLength),
{
    let text = vstd::utf8::encode_utf8(encoded(bytes));
    lemma_encoded_symbols(bytes);
    lemma_decode_symbols(bytes, text);
    let signed = padded(encoded(bytes), signs);
    let pads = Seq::new(signs, |i: int| 61u8);
    lemma_encoded_bytes(bytes);
    law_encoding_is_unpadded(bytes);
    assert forall|i: int| 0 <= i < signed.len() implies 0 <= #[trigger] signed[i] as u32 <= 127 && signed[i] as u8 == (
    text + pads)[i] by {
        if i < encoded(bytes).len() {
            assert(signed[i] == encoded(bytes)[i]);
            assert(0 <= sextet(bytes, i) < 64);
        }
    }
    vstd::utf8::is_ascii_chars_encode_utf8(signed);
    assert(vstd::utf8::encode_utf8(signed) =~= text + pads);
    assert(trimmed(text) == text) by {
        if text.len() > 0 {
            assert(is_symbol(text[text.len() - 1] as int));
        }
    }
    lemma_trimmed_padding(text, signs);
}

/// Trimming takes padding away that was put behind a text.
proof fn lemma_trimmed_padding(text: Seq<u8>, signs: nat)
    ensures
        trimmed(text + Seq::new(signs, |i: int| 61u8)) == trimmed(text),
    decreases signs,
{
    let pads = Seq::new(signs, |i: int| 61u8);
    if signs == 0 {
        assert(text + pads =~= text);
    } else {
        let fewer = Seq::new((signs - 1) as nat, |i: int| 61u8);
        assert((text + pads).drop_last() =~= text + fewer);
        lemma_trimmed_padding(text, (signs - 1) as nat);
    }
}

/// Among texts of equal length no two decode to the same bytes.
pub proof fn law_canonical_text_is_unique(a: Seq<u8>, b: Seq<u8>)
    requires
        decode_result(a) is Ok,
        decode_result(a) == decode_result(b),
        a.len() == b.len(),
    ensures
        a == b,
{
    let s = trimmed(a);
    let t = trimmed(b);
    lemma_all_symbols(s);
    lemma_all_symbols(t);
    assert(decoded(s) == decoded(t));
    assert(s.len() == t.len()) by {
        assert(decoded(s).len() == 3 * s.len() / 4 && decoded(t).len() == 3 * t.len() / 4);
    }
    assert forall|k: int| 0 <= k < 3 * s.len() / 4 implies octet(s, k) == octet(t, k) by {
        lemma_octet_is_byte(s, k);
        lemma_octet_is_byte(t, k);
        assert(decoded(s)[k] == decoded(t)[k]);
    }
    assert forall|i: int| 0 <= i < s.len() implies s[i] == t[i] by {
        lemma_symbols_from_octets(s, t, i);
    }
    assert(s =~= t);
    lemma_padding_only(a);
    lemma_padding_only(b);
    assert forall|i: int| 0 <= i < a.len() implies a[i] == b[i] by {
        if i < s.len() {
            assert(a[i] == s[i] && b[i] == t[i]);
        }
    }
    assert(a =~= b);
}

/// What trimming takes away is padding.
proof fn lemma_padding_only(text: Seq<u8>)
    ensures
        trimmed(text).len() <= text.len(),
        forall|i: int| 0 <= i < trimmed(text).len() ==> #[trigger] text[i] == trimmed(text)[i],
        forall|i: int| trimmed(text).len() <= i < text.len() ==> #[trigger] text[i] == 61,
    decreases text.len(),
{
    if text.len() > 0 && text.last() == 61 {
        lemma_padding_only(text.drop_last());
        assert forall|i: int| 0 <= i < trimmed(text).len() implies #[trigger] text[i] == trimmed(text)[i] by {
            assert(text.drop_last()[i] == text[i]);
        }
        assert forall|i: int| trimmed(text).len() <= i < text.len() implies #[trigger] text[i] == 61 by {
            if i < text.len() - 1 {
                assert(text.drop_last()[i] == text[i]);
            }
        }
    }
}

proof fn lemma_all_symbols(text: Seq<u8>)
    requires
        first_invalid(text, 0) >= text.len(),
    ensures
        forall|k: int| 0 <= k < text.len() ==> is_symbol(#[trigger] text[k] as int),
{
    assert forall|k: int| 0 <= k < text.len() implies is_symbol(#[trigger] text[k] as int) by {
        lemma_symbol_before_first_invalid(text, 0, k);
    }
}

proof fn lemma_symbol_before_first_invalid(text: Seq<u8>, from: int, k: int)
    requires
        0 <= from <= k < text.len(),
        first_invalid(text, from) >= text.len(),
    ensures
        is_symbol(text[k] as int),
    decreases k - from,
{
    if from < k {
        lemma_symbol_before_first_invalid(text, from + 1, k);
    }
}

proof fn lemma_octet_is_byte(text: Seq<u8>, k: int)
    requires
        0 <= k,
        forall|i: int| 0 <= i < text.len() ==> is_symbol(#[trigger] text[i] as int),
    ensures
        0 <= octet(text, k) < 256,
{
    let q = k / 3;
    assert(0 <= value_or_zero(text, 4 * q) < 64);
    assert(0 <= value_or_zero(text, 4 * q + 1) < 64);
    assert(0 <= value_or_zero(text, 4 * q + 2) < 64);
    assert(0 <= value_or_zero(text, 4 * q + 3) < 64);
}

proof fn lemma_symbols_from_octets(s: Seq<u8>, t: Seq<u8>, i: int)
    requires
        0 <= i < s.len(),
        s.len() == t.len(),
        forall|k: int| 0 <= k < s.len() ==> is_symbol(#[trigger] s[k] as int),
        forall|k: int| 0 <= k < t.len() ==> is_symbol(#[trigger] t[k] as int),
        forall|k: int| 0 <= k < 3 * s.len() / 4 ==> octet(s, k) == octet(t, k),
        trailing_bits(s) == 0,
        trailing_bits(t) == 0,
    ensures
        s[i] == t[i],
{
    let q = i / 4;
    let n = s.len() as int;
    assert(value_or_zero(s, i) == symbol_value(s[i] as int));
    assert(value_or_zero(t, i) == symbol_value(t[i] as int));
    assert((3 * q) / 3 == q && (3 * q + 1) / 3 == q && (3 * q + 2) / 3 == q);
    assert((3 * q) % 3 == 0 && (3 * q + 1) % 3 == 1 && (3 * q + 2) % 3 == 2);
    assert(value_or_zero(s, i) == value_or_zero(t, i)) by {
        if 4 * q + 1 < n {
            assert(octet(s, 3 * q) == octet(t, 3 * q));
        }
        if 4 * q + 2 < n {
            assert(octet(s, 3 * q + 1) == octet(t, 3 * q + 1));
        }
        if 4 * q + 3 < n {
            assert(octet(s, 3 * q + 2) == octet(t, 3 * q + 2));
        }
    }
}

/// Whether a character stands for a number: the capital letters for the first 26, the small ones for the
/// next, the digits for the next ten, and then the hyphen and the underscore.
pub open spec fn stands_for(c: char, v: int) -> bool {
    ||| 0 <= v < 26 && c as int == 0x41 + v
    ||| 26 <= v < 52 && c as int == 0x61 + (v - 26)
    ||| 52 <= v < 62 && c as int == 0x30 + (v - 52)
    ||| v == 62 && c == '-'
    ||| v == 63 && c == '_'
}

/// Four numbers of six bits as one.
pub open spec fn four(a: int, b: int, c: int, d: int) -> int {
    a * 262144 + b * 4096 + c * 64 + d
}

/// Every three bytes are written as four characters that stand for the same number; of one byte at the
/// end two are written and of two three, as if zeros followed, and no more.
pub proof fn law_encoded_text(bytes: &[u8], out: String, q: int)
    requires
        call_ensures(encode, (bytes,), out),
        0 <= q && 3 * q < bytes@.len(),
    ensures
        out@.len() == (4 * bytes@.len() + 2) / 3,
        ({
            let n = bytes@.len();
            let b0 = bytes@[3 * q] as int;
            let b1 = if 3 * q + 1 < n {
                bytes@[3 * q + 1] as int
            } else {
                0
            };
            let b2 = if 3 * q + 2 < n {
                bytes@[3 * q + 2] as int
            } else {
                0
            };
            exists|v0: int, v1: int, v2: int, v3: int|
                {
                    &&& #[trigger] four(v0, v1, v2, v3) == b0 * 65536 + b1 * 256 + b2
                    &&& stands_for(out@[4 * q], v0) && stands_for(out@[4 * q + 1], v1)
                    &&& if 3 * q + 1 < n {
                        stands_for(out@[4 * q + 2], v2)
                    } else {
                        v2 == 0
                    }
                    &&& if 3 * q + 2 < n {
                        stands_for(out@[4 * q + 3], v3)
                    } else {
                        v3 == 0
                    }
                }
        }),
{
    let n = bytes@.len();
    let b0 = byte_or_zero(bytes@, 3 * q);
    let b1 = byte_or_zero(bytes@, 3 * q + 1);
    let b2 = byte_or_zero(bytes@, 3 * q + 2);
    let v0 = sextet(bytes@, 4 * q);
    let v1 = sextet(bytes@, 4 * q + 1);
    let v2 = sextet(bytes@, 4 * q + 2);
    let v3 = sextet(bytes@, 4 * q + 3);
    assert((4 * q) / 4 == q && (4 * q + 1) / 4 == q && (4 * q + 2) / 4 == q && (4 * q + 3) / 4 == q);
    assert((4 * q) % 4 == 0 && (4 * q + 1) % 4 == 1 && (4 * q + 2) % 4 == 2 && (4 * q + 3) % 4 == 3);
    assert(four(v0, v1, v2, v3) == b0 * 65536 + b1 * 256 + b2);
    assert(out@[4 * q] == symbol(v0) as char && out@[4 * q + 1] == symbol(v1) as char);
    if 3 * q + 1 < n {
        assert(out@[4 * q + 2] == symbol(v2) as char);
    }
    if 3 * q + 2 < n {
        assert(out@[4 * q + 3] == symbol(v3) as char);
    }
}

proof fn lemma_padded_bytes(bytes: Seq<u8>, signs: nat)
    ensures
        vstd::utf8::encode_utf8(padded(encoded(bytes), signs)).len() == encoded(bytes).len() + signs,
{
    let text = padded(encoded(bytes), signs);
    law_encoding_is_unpadded(bytes);
    assert forall|i: int| 0 <= i < text.len() implies 0 <= #[trigger] text[i] as u32 <= 127 by {
        if i < encoded(bytes).len() {
            assert(text[i] == encoded(bytes)[i]);
            assert(is_symbol(encoded(bytes)[i] as int));
        }
    }
    vstd::utf8::is_ascii_chars_encode_utf8(text);
}

proof fn lemma_trimmed_len(text: Seq<u8>)
    ensures
        trimmed(text).len() <= text.len(),
    decreases text.len(),
{
    if text.len() > 0 && text.last() == 61 {
        lemma_trimmed_len(text.drop_last());
    }
}

/// What was encoded is decoded to the same bytes, with any padding that does not leave one character
/// over; and a text is decoded to some bytes only if it is their encoding, with padding or without.
pub proof fn law_decoded_text(bytes: &[u8], out: String, s: &str, r: Result<Vec<u8>, Base64UrlDecodeError>)
    requires
        call_ensures(encode, (bytes,), out),
        call_ensures(decode, (s,), r),
    ensures
        forall|signs: nat|
            s@ == #[trigger] padded(out@, signs) ==> (r is Ok <==> s@.len() % 4 != 1) && (r matches Ok(read) ==> read@
                == bytes@),
        r matches Ok(read) ==> read@ == bytes@ ==> exists|signs: nat| s@ == #[trigger] padded(out@, signs),
{
    assert forall|signs: nat| s@ == #[trigger] padded(out@, signs) implies (r is Ok <==> s@.len() % 4 != 1) && (
    r matches Ok(read) ==> read@ == bytes@) by {
        law_decode_inverts_encode(bytes@, signs);
    }
    if let Ok(read) = r {
        if read@ == bytes@ {
            let a = vstd::utf8::encode_utf8(s@);
            let text = trimmed(a);
            lemma_trimmed_len(a);
            let signs = (a.len() - text.len()) as nat;
            let b = vstd::utf8::encode_utf8(padded(out@, signs));
            assert(decoded(text) == bytes@);
            assert(bytes@.len() == 3 * text.len() / 4);
            assert(out@.len() == text.len());
            lemma_padded_bytes(bytes@, signs);
            law_decode_inverts_encode(bytes@, signs);
            law_canonical_text_is_unique(a, b);
            vstd::utf8::encode_utf8_decode_utf8(s@);
            vstd::utf8::encode_utf8_decode_utf8(padded(out@, signs));
            assert(s@ == padded(out@, signs));
        }
    }
}

/// A byte that is refused is the first that is no letter or digit of ASCII, hyphen or underscore; a text
/// whose length leaves one byte over is refused for that.
pub proof fn law_refused_text(s: &str, e: Base64UrlDecodeError)
    requires
        call_ensures(decode, (s,), Err(e)),
    ensures
        ({
            let text = vstd::utf8::encode_utf8(s@);
            &&& text.len() % 4 == 1 ==> e is InvalidLength
            &&& e matches Base64UrlDecodeError::InvalidByte { index, byte } ==> {
                &&& index < text.len() && text[index as int] == byte && text.len() % 4 != 1
                &&& !is_plain(byte)
                &&& forall|i: int| 0 <= i < index ==> is_plain(#[trigger] text[i])
            }
        }),
{
    let text = vstd::utf8::encode_utf8(s@);
    if text.len() % 4 != 1 {
        let kept = trimmed(text);
        let bad = first_invalid(kept, 0);
        lemma_trimmed_front(text);
        if bad < kept.len() {
            lemma_first_invalid_stops(kept, 0);
            assert forall|i: int| 0 <= i < bad implies is_plain(#[trigger] text[i]) by {
                assert(is_symbol(kept[i] as int));
            }
        }
    }
}

/// Whether a byte is a letter or a digit of ASCII, a hyphen or an underscore.
pub open spec fn is_plain(b: u8) -> bool {
    0x41 <= b <= 0x5a || 0x61 <= b <= 0x7a || 0x30 <= b <= 0x39 || b == 0x2d || b == 0x5f
}

proof fn lemma_trimmed_front(text: Seq<u8>)
    ensures
        trimmed(text).len() <= text.len(),
        forall|i: int| 0 <= i < trimmed(text).len() ==> #[trigger] trimmed(text)[i] == text[i],
    decreases text.len(),
{
    if text.len() > 0 && text.last() == 61 {
        lemma_trimmed_front(text.drop_last());
    }
}

proof fn lemma_first_invalid_stops(text: Seq<u8>, from: int)
    requires
        0 <= from <= text.len(),
    ensures
        from <= first_invalid(text, from) <= text.len(),
        first_invalid(text, from) < text.len() ==> !is_symbol(text[first_invalid(text, from)] as int),
        forall|i: int| from <= i < first_invalid(text, from) ==> is_symbol(#[trigger] text[i] as int),
    decreases text.len() - from,
{
    if from < text.len() && is_symbol(text[from] as int) {
        lemma_first_invalid_stops(text, from + 1);
    }
}

/// Two byte strings are the same exactly if they are as long and agree everywhere.
pub proof fn law_same_bytes(a: &[u8], b: &[u8], r: bool)
    requires
        call_ensures(constant_time_eq, (a, b), r),
    ensures
        r <==> a@.len() == b@.len() && forall|i: int| 0 <= i < a@.len() ==> #[trigger] a@[i] == b@[i],
{
    if a@.len() == b@.len() && forall|i: int| 0 <= i < a@.len() ==> #[trigger] a@[i] == b@[i] {
        assert(a@ =~= b@);
    }
}

/// A failure names the byte in hexadecimal and where it is, or says what is wrong with the text.
pub proof fn law_decoding_failures_speak(e: &Base64UrlDecodeError, r: String)
    requires
        call_ensures(Base64UrlDecodeError::message, (e,), r),
    ensures
        match *e {
            Base64UrlDecodeError::InvalidLength => r@ == "invalid base64url length (len % 4 == 1)"@,
            Base64UrlDecodeError::NonCanonicalTrailingBits => r@ == "non-canonical trailing bits in base64url input"@,
            Base64UrlDecodeError::InvalidByte { index, byte } => r@ == "invalid base64url byte "@ + ("0x"@
                + crate::text::hex_text(byte as nat, 2)) + " at index "@ + crate::text::decimal_text(index as nat),
        },
{
    if let Base64UrlDecodeError::InvalidByte { index, byte } = *e {
        reveal_with_fuel(crate::text::hex_text, 3);
        assert(hex_byte_text(byte) =~= "0x"@ + crate::text::hex_text(byte as nat, 2));
    }
}

} // verus!
