//! The text encoding of radar payloads: base64 over a custom alphabet.
//!
//! The alphabet puts the lower-case letters first. Padding is optional: any
//! run of `=` at the end of a text is ignored, and bits left over after the
//! last whole byte are dropped.

use vstd::prelude::*;
use vstd::string::*;
use vstd::utf8::*;
use crate::radarview::DecodeError;

verus! {

/// The 64 symbols, in the order of the values they stand for.
pub const ALPHABET: [char; 64] = [
    'a', 'b', 'c', 'd', 'e', 'f', 'g', 'h', 'i', 'j', 'k', 'l', 'm',
    'n', 'o', 'p', 'q', 'r', 's', 't', 'u', 'v', 'w', 'x', 'y', 'z',
    'A', 'B', 'C', 'D', 'E', 'F', 'G', 'H', 'I', 'J', 'K', 'L', 'M',
    'N', 'O', 'P', 'Q', 'R', 'S', 'T', 'U', 'V', 'W', 'X', 'Y', 'Z',
    '0', '1', '2', '3', '4', '5', '6', '7', '8', '9', '+', '/',
];

/// The padding byte `=`.
pub const PAD: u8 = 61;

/// The byte that stands for the 6-bit value `v` in a text.
pub open spec fn symbol(v: int) -> u8 {
    ALPHABET@[v] as u8
}

/// The 6-bit value a byte of text stands for, if it is a symbol.
pub open spec fn sextet(b: u8) -> Option<u8> {
    let c = b as char;
    if 'a' <= c <= 'z' {
        Some((b - 'a' as u8) as u8)
    } else if 'A' <= c <= 'Z' {
        Some((b - 'A' as u8 + 26) as u8)
    } else if '0' <= c <= '9' {
        Some((b - '0' as u8 + 52) as u8)
    } else if c == '+' {
        Some(62u8)
    } else if c == '/' {
        Some(63u8)
    } else {
        None
    }
}

/// `sextet` is the inverse of the alphabet table.
pub proof fn lemma_alphabet()
    ensures
        forall|v: int| 0 <= v < 64 ==> sextet(#[trigger] symbol(v)) == Some(v as u8),
        forall|v: int| 0 <= v < 64 ==> #[trigger] symbol(v) < 128 && symbol(v) != PAD,
        forall|b: u8| #[trigger] sextet(b) is Some ==> sextet(b)->0 < 64 && symbol(sextet(b)->0 as int) == b,
        forall|v: int| 0 <= v < 64 ==> #[trigger] ALPHABET@[v] <= '\u{7f}',
{
    assert forall|v: int| 0 <= v < 64 implies #[trigger] ALPHABET@[v] <= '\u{7f}' by {
        lemma_alphabet_entry(v);
    }
    assert forall|v: int| 0 <= v < 64 implies sextet(#[trigger] symbol(v)) == Some(v as u8)
        && symbol(v) < 128 && symbol(v) != PAD by {
        lemma_alphabet_entry(v);
    }
    assert forall|b: u8| #[trigger] sextet(b) is Some implies sextet(b)->0 < 64 && symbol(
        sextet(b)->0 as int,
    ) == b by {
        let v = sextet(b)->0 as int;
        lemma_alphabet_entry(v);
    }
}

proof fn lemma_alphabet_entry(v: int)
    requires
        0 <= v < 64,
    ensures
        symbol(v) == (if v < 26 {
            'a' as u8 + v
        } else if v < 52 {
            'A' as u8 + v - 26
        } else if v < 62 {
            '0' as u8 + v - 52
        } else if v == 62 {
            '+' as u8 as int
        } else {
            '/' as u8 as int
        }),
        ALPHABET@[v] <= '\u{7f}',
{
}

/// How many leading bytes of a text remain once the padding at its end is
/// dropped.
pub open spec fn payload_len(s: Seq<u8>) -> nat
    decreases s.len(),
{
    if s.len() > 0 && s.last() == PAD {
        payload_len(s.drop_last())
    } else {
        s.len()
    }
}

/// The text without the padding at its end.
pub open spec fn payload(s: Seq<u8>) -> Seq<u8> {
    s.take(payload_len(s) as int)
}

/// Whether every byte is a symbol of the alphabet.
pub open spec fn all_symbols(s: Seq<u8>) -> bool {
    forall|i: int| 0 <= i < s.len() ==> (#[trigger] sextet(s[i])) is Some
}

/// The value of the symbol at position `j`, and 0 past the end.
pub open spec fn sextet_at(s: Seq<u8>, j: int) -> u8 {
    if 0 <= j < s.len() && sextet(s[j]) is Some {
        sextet(s[j])->0
    } else {
        0
    }
}

/// How many bytes `n` symbols decode to. Each whole group of four gives
/// three bytes; a last group of one or two symbols gives one byte, one of
/// three symbols gives two.
pub open spec fn decoded_len(n: nat) -> nat {
    let r = n % 4;
    3 * (n / 4) + (if r == 0 {
        0nat
    } else if r == 3 {
        2nat
    } else {
        1nat
    })
}

/// Byte `k` of what the symbols `s` decode to: bits `8k .. 8k + 8` of the
/// concatenated 6-bit values, most significant bit first.
pub open spec fn decoded_byte(s: Seq<u8>, k: int) -> u8 {
    let g = 4 * (k / 3);
    let a = sextet_at(s, g);
    let b = sextet_at(s, g + 1);
    let c = sextet_at(s, g + 2);
    let d = sextet_at(s, g + 3);
    if k % 3 == 0 {
        a << 2 | b >> 4
    } else if k % 3 == 1 {
        b << 4 | c >> 2
    } else {
        c << 6 | d
    }
}

/// What a run of symbols decodes to.
pub open spec fn decoded(s: Seq<u8>) -> Seq<u8> {
    Seq::new(decoded_len(s.len()), |k: int| decoded_byte(s, k))
}

/// What a text decodes to: the bytes of its payload, or `InvalidByte` when
/// the payload holds a byte outside the alphabet.
pub open spec fn decode_spec(s: Seq<u8>) -> Result<Seq<u8>, DecodeError> {
    if all_symbols(payload(s)) {
        Ok(decoded(payload(s)))
    } else {
        Err(DecodeError::InvalidByte)
    }
}

/// Byte `j` of the data, and 0 past the end.
pub open spec fn byte_at(d: Seq<u8>, j: int) -> u8 {
    if 0 <= j < d.len() {
        d[j]
    } else {
        0
    }
}

/// How many symbols `n` bytes encode to, without padding.
pub open spec fn encoded_len(n: nat) -> nat {
    let r = n % 3;
    4 * (n / 3) + (if r == 0 {
        0nat
    } else if r == 1 {
        2nat
    } else {
        3nat
    })
}

/// The 6-bit value at position `j` of the encoding of `d`: bits
/// `6j .. 6j + 6` of the data, most significant bit first.
pub open spec fn encoded_sextet(d: Seq<u8>, j: int) -> u8 {
    let g = 3 * (j / 4);
    let a = byte_at(d, g);
    let b = byte_at(d, g + 1);
    let c = byte_at(d, g + 2);
    if j % 4 == 0 {
        a >> 2
    } else if j % 4 == 1 {
        (a & 0x03) << 4 | b >> 4
    } else if j % 4 == 2 {
        (b & 0x0F) << 2 | c >> 6
    } else {
        c & 0x3F
    }
}

/// The text that `d` encodes to.
pub open spec fn encoded_text(d: Seq<u8>) -> Seq<char> {
    Seq::new(encoded_len(d.len()), |j: int| ALPHABET@[encoded_sextet(d, j) as int])
}

proof fn lemma_sextets_fit(a: u8, b: u8, c: u8)
    by (bit_vector)
    ensures
        a >> 2 < 64,
        ((a & 0x03) << 4 | b >> 4) < 64,
        ((b & 0x0F) << 2 | c >> 6) < 64,
        c & 0x3F < 64,
{
}

/// `String::push` of std: the character is appended at the end of the text.
#[verifier::external_body]
pub(crate) fn push_char(text: &mut String, c: char)
    ensures
        final(text)@ == old(text)@.push(c),
{
    text.push(c);
}

/// Encodes bytes as text over the alphabet, without padding.
pub fn encode(data: &[u8]) -> (r: String)
    ensures
        r@ == encoded_text(data@),
{
    let mut text = String::new();
    let n = data.len();
    let mut i: usize = 0;
    while n - i >= 3
        invariant
            i <= n,
            n == data@.len(),
            i % 3 == 0,
            text@.len() == 4 * (i / 3),
            forall|j: int| 0 <= j < text@.len() ==> text@[j] == encoded_text(data@)[j],
        decreases n - i,
    {
        let a = data[i];
        let b = data[i + 1];
        let c = data[i + 2];
        proof {
            lemma_sextets_fit(a, b, c);
        }
        push_char(&mut text, ALPHABET[(a >> 2) as usize]);
        push_char(&mut text, ALPHABET[((a & 0x03) << 4 | b >> 4) as usize]);
        push_char(&mut text, ALPHABET[((b & 0x0F) << 2 | c >> 6) as usize]);
        push_char(&mut text, ALPHABET[(c & 0x3F) as usize]);
        i += 3;
    }
    let rest = n - i;
    if rest >= 1 {
        let a = data[i];
        let b = if rest >= 2 {
            data[i + 1]
        } else {
            0
        };
        proof {
            lemma_sextets_fit(a, b, 0);
        }
        push_char(&mut text, ALPHABET[(a >> 2) as usize]);
        push_char(&mut text, ALPHABET[((a & 0x03) << 4 | b >> 4) as usize]);
        if rest >= 2 {
            push_char(&mut text, ALPHABET[((b & 0x0F) << 2 | 0u8 >> 6) as usize]);
        }
    }
    assert(text@ =~= encoded_text(data@));
    text
}

fn symbol_value(b: u8) -> (r: Option<u8>)
    ensures
        r == sextet(b),
{
    if b >= 97 && b <= 122 {
        Some(b - 97)
    } else if b >= 65 && b <= 90 {
        Some(b - 65 + 26)
    } else if b >= 48 && b <= 57 {
        Some(b - 48 + 52)
    } else if b == 43 {
        Some(62)
    } else if b == 47 {
        Some(63)
    } else {
        None
    }
}

fn payload_length(bytes: &[u8]) -> (n: usize)
    ensures
        n == payload_len(bytes@),
        n <= bytes@.len(),
{
    let mut n = bytes.len();
    assert(bytes@.take(n as int) =~= bytes@);
    while n > 0 && bytes[n - 1] == PAD
        invariant
            n <= bytes@.len(),
            payload_len(bytes@) == payload_len(bytes@.take(n as int)),
        decreases n,
    {
        assert(bytes@.take(n as int).drop_last() =~= bytes@.take(n - 1));
        n -= 1;
    }
    n
}

/// Decodes the bytes of a text.
pub fn decode_bytes(bytes: &[u8]) -> (r: Result<Vec<u8>, DecodeError>)
    ensures
        match decode_spec(bytes@) {
            Ok(d) => r is Ok && r->Ok_0@ == d,
            Err(e) => r is Err && r->Err_0 == e,
        },
{
    let n = payload_length(bytes);
    let ghost p = payload(bytes@);
    let mut out: Vec<u8> = Vec::new();
    let mut i: usize = 0;
    while n - i >= 4
        invariant
            i <= n <= bytes@.len(),
            n == payload_len(bytes@),
            p == payload(bytes@),
            i % 4 == 0,
            forall|k: int| 0 <= k < i ==> (#[trigger] sextet(p[k])) is Some,
            out@.len() == 3 * (i / 4),
            forall|k: int| 0 <= k < out@.len() ==> out@[k] == decoded_byte(p, k),
        decreases n - i,
    {
        let a = match symbol_value(bytes[i]) {
            Some(v) => v,
            None => {
                assert(sextet(p[i as int]) is None);
                return Err(DecodeError::InvalidByte);
            },
        };
        let b = match symbol_value(bytes[i + 1]) {
            Some(v) => v,
            None => {
                assert(sextet(p[i + 1]) is None);
                return Err(DecodeError::InvalidByte);
            },
        };
        let c = match symbol_value(bytes[i + 2]) {
            Some(v) => v,
            None => {
                assert(sextet(p[i + 2]) is None);
                return Err(DecodeError::InvalidByte);
            },
        };
        let d = match symbol_value(bytes[i + 3]) {
            Some(v) => v,
            None => {
                assert(sextet(p[i + 3]) is None);
                return Err(DecodeError::InvalidByte);
            },
        };
        out.push(a << 2 | b >> 4);
        out.push(b << 4 | c >> 2);
        out.push(c << 6 | d);
        i += 4;
    }
    let rest = n - i;
    if rest >= 1 {
        let a = match symbol_value(bytes[i]) {
            Some(v) => v,
            None => {
                assert(sextet(p[i as int]) is None);
                return Err(DecodeError::InvalidByte);
            },
        };
        let b = if rest >= 2 {
            match symbol_value(bytes[i + 1]) {
                Some(v) => v,
                None => {
                    assert(sextet(p[i + 1]) is None);
                    return Err(DecodeError::InvalidByte);
                },
            }
        } else {
            0
        };
        let c = if rest >= 3 {
            match symbol_value(bytes[i + 2]) {
                Some(v) => v,
                None => {
                    assert(sextet(p[i + 2]) is None);
                    return Err(DecodeError::InvalidByte);
                },
            }
        } else {
            0
        };
        out.push(a << 2 | b >> 4);
        if rest >= 3 {
            out.push(b << 4 | c >> 2);
        }
    }
    assert(all_symbols(p));
    assert(out@ =~= decoded(p));
    Ok(out)
}

/// Decodes a text into bytes.
pub fn decode(encoded: String) -> (r: Result<Vec<u8>, DecodeError>)
    ensures
        match decode_spec(encode_utf8(encoded@)) {
            Ok(d) => r is Ok && r->Ok_0@ == d,
            Err(e) => r is Err && r->Err_0 == e,
        },
{
    decode_bytes(encoded.as_str().as_bytes())
}

proof fn lemma_regroup(a: u8, b: u8, c: u8)
    by (bit_vector)
    ensures
        ((a >> 2) << 2 | ((a & 0x03) << 4 | b >> 4) >> 4) == a,
        (((a & 0x03) << 4 | b >> 4) << 4 | ((b & 0x0F) << 2 | c >> 6) >> 2) == b,
        (((b & 0x0F) << 2 | c >> 6) << 6 | (c & 0x3F)) == c,
{
}

/// The bytes of an encoded text are the symbols of its 6-bit values.
proof fn lemma_encoded_bytes(d: Seq<u8>)
    ensures
        encode_utf8(encoded_text(d)).len() == encoded_len(d.len()),
        forall|j: int|
            0 <= j < encoded_len(d.len()) ==> #[trigger] encode_utf8(encoded_text(d))[j] == symbol(
                encoded_sextet(d, j) as int,
            ),
        forall|j: int| #[trigger] encoded_sextet(d, j) < 64,
{
    let t = encoded_text(d);
    assert forall|j: int| #[trigger] encoded_sextet(d, j) < 64 by {
        let g = 3 * (j / 4);
        lemma_sextets_fit(byte_at(d, g), byte_at(d, g + 1), byte_at(d, g + 2));
    }
    lemma_alphabet();
    assert(is_ascii_chars(t));
    is_ascii_chars_encode_utf8(t);
}

/// Decoding the encoding of any bytes gives the bytes back.
pub proof fn lemma_decode_encode(d: Seq<u8>)
    ensures
        decode_spec(encode_utf8(encoded_text(d))) == Ok::<Seq<u8>, DecodeError>(d),
{
    let e = encode_utf8(encoded_text(d));
    lemma_encoded_bytes(d);
    lemma_alphabet();
    assert(payload(e) =~= e);
    assert(all_symbols(e)) by {
        assert forall|j: int| 0 <= j < e.len() implies (#[trigger] sextet(e[j])) is Some by {
            assert(e[j] == symbol(encoded_sextet(d, j) as int));
        }
    }
    assert(decoded(e).len() == d.len());
    assert forall|k: int| 0 <= k < d.len() implies decoded(e)[k] == d[k] by {
        let g = 4 * (k / 3);
        let base = 3 * (k / 3);
        let a = byte_at(d, base);
        let b = byte_at(d, base + 1);
        let c = byte_at(d, base + 2);
        lemma_regroup(a, b, c);
        assert(e[g] == symbol(encoded_sextet(d, g) as int));
        assert(e[g + 1] == symbol(encoded_sextet(d, g + 1) as int));
        assert(sextet_at(e, g) == encoded_sextet(d, g));
        assert(sextet_at(e, g + 1) == encoded_sextet(d, g + 1));
        if k % 3 >= 1 {
            assert(e[g + 2] == symbol(encoded_sextet(d, g + 2) as int));
            assert(sextet_at(e, g + 2) == encoded_sextet(d, g + 2));
        }
        if k % 3 == 2 {
            assert(e[g + 3] == symbol(encoded_sextet(d, g + 3) as int));
            assert(sextet_at(e, g + 3) == encoded_sextet(d, g + 3));
        }
    }
    assert(decoded(e) =~= d);
}

} // verus!
