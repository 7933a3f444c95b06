//! Base64 in the alphabet for URLs, without padding.
use crate::decoding;
use vstd::prelude::*;
use vstd::utf8::*;

verus! {

/// The character of a six-bit value.
pub open spec fn symbol(v: int) -> char {
    if v < 26 {
        ('A' as int + v) as char
    } else if v < 52 {
        ('a' as int + v - 26) as char
    } else if v < 62 {
        ('0' as int + v - 52) as char
    } else if v == 62 {
        '-'
    } else {
        '_'
    }
}

/// The six-bit value of a character of the alphabet.
pub open spec fn symbol_value(c: char) -> Option<int> {
    if 'A' <= c <= 'Z' {
        Some(c as int - 'A' as int)
    } else if 'a' <= c <= 'z' {
        Some(c as int - 'a' as int + 26)
    } else if '0' <= c <= '9' {
        Some(c as int - '0' as int + 52)
    } else if c == '-' {
        Some(62)
    } else if c == '_' {
        Some(63)
    } else {
        None
    }
}

proof fn lemma_symbol(v: int)
    requires
        0 <= v < 64,
    ensures
        symbol_value(symbol(v)) == Some(v),
        (symbol(v) as u32) < 128,
{
}

/// The encoding: four characters for three bytes, and two or three characters
/// for a rest of one or two bytes.
pub open spec fn encoded(bytes: Seq<u8>) -> Seq<char>
    decreases bytes.len(),
{
    if bytes.len() == 0 {
        Seq::empty()
    } else if bytes.len() == 1 {
        seq![symbol(bytes[0] as int / 4), symbol(bytes[0] as int % 4 * 16)]
    } else if bytes.len() == 2 {
        seq![
            symbol(bytes[0] as int / 4),
            symbol(bytes[0] as int % 4 * 16 + bytes[1] as int / 16),
            symbol(bytes[1] as int % 16 * 4),
        ]
    } else {
        seq![
            symbol(bytes[0] as int / 4),
            symbol(bytes[0] as int % 4 * 16 + bytes[1] as int / 16),
            symbol(bytes[1] as int % 16 * 4 + bytes[2] as int / 64),
            symbol(bytes[2] as int % 64),
        ] + encoded(bytes.skip(3))
    }
}

/// The second byte of a last group of three characters. The third character is
/// not looked up strictly: one outside the alphabet sets the low six bits.
pub open spec fn loose_byte(v1: int, c2: char) -> u8 {
    match symbol_value(c2) {
        Some(v2) => (v1 % 16 * 16 + v2 / 4) as u8,
        None => (v1 % 16 / 4 * 64 + 63) as u8,
    }
}

/// The decoding: three bytes for four characters of the alphabet, and one, one
/// or two bytes for a rest of one, two or three characters.
pub open spec fn decoded(s: Seq<char>) -> Option<Seq<u8>>
    decreases s.len(),
{
    if s.len() == 0 {
        Some(Seq::empty())
    } else if s.len() == 1 {
        match symbol_value(s[0]) {
            Some(v0) => Some(seq![(v0 * 4) as u8]),
            None => None,
        }
    } else if s.len() == 2 {
        match (symbol_value(s[0]), symbol_value(s[1])) {
            (Some(v0), Some(v1)) => Some(seq![(v0 * 4 + v1 / 16) as u8]),
            _ => None,
        }
    } else if s.len() == 3 {
        match (symbol_value(s[0]), symbol_value(s[1])) {
            (Some(v0), Some(v1)) => Some(seq![(v0 * 4 + v1 / 16) as u8, loose_byte(v1, s[2])]),
            _ => None,
        }
    } else {
        match (symbol_value(s[0]), symbol_value(s[1]), symbol_value(s[2]), symbol_value(s[3])) {
            (Some(v0), Some(v1), Some(v2), Some(v3)) => match decoded(s.skip(4)) {
                Some(rest) => Some(
                    seq![
                        (v0 * 4 + v1 / 16) as u8,
                        (v1 % 16 * 16 + v2 / 4) as u8,
                        (v2 % 4 * 64 + v3) as u8,
                    ] + rest,
                ),
                None => None,
            },
            _ => None,
        }
    }
}

/// What was encoded is decoded again.
pub proof fn lemma_round_trip(bytes: Seq<u8>)
    ensures
        decoded(encoded(bytes)) == Some(bytes),
        is_ascii_chars(encoded(bytes)),
    decreases bytes.len(),
{
    let s = encoded(bytes);
    if bytes.len() == 0 {
        assert(bytes =~= Seq::empty());
    } else if bytes.len() == 1 {
        lemma_symbol(bytes[0] as int / 4);
        lemma_symbol(bytes[0] as int % 4 * 16);
        assert(decoded(s)->0 =~= bytes);
    } else if bytes.len() == 2 {
        lemma_symbol(bytes[0] as int / 4);
        lemma_symbol(bytes[0] as int % 4 * 16 + bytes[1] as int / 16);
        lemma_symbol(bytes[1] as int % 16 * 4);
        assert(decoded(s)->0 =~= bytes);
    } else {
        lemma_symbol(bytes[0] as int / 4);
        lemma_symbol(bytes[0] as int % 4 * 16 + bytes[1] as int / 16);
        lemma_symbol(bytes[1] as int % 16 * 4 + bytes[2] as int / 64);
        lemma_symbol(bytes[2] as int % 64);
        lemma_round_trip(bytes.skip(3));
        assert(s.skip(4) =~= encoded(bytes.skip(3)));
        assert(decoded(s)->0 =~= bytes);
    }
}

fn symbol_of(v: u8) -> (c: char)
    requires
        v < 64,
    ensures
        c == symbol(v as int),
{
    if v < 26 {
        (65 + v) as char
    } else if v < 52 {
        (97 + (v - 26)) as char
    } else if v < 62 {
        (48 + (v - 52)) as char
    } else if v == 62 {
        '-'
    } else {
        '_'
    }
}

fn value_of(c: u8) -> (r: Option<u8>)
    requires
        c < 128,
    ensures
        r matches Some(v) ==> symbol_value(c as char) == Some(v as int) && v < 64,
        r is None ==> symbol_value(c as char) is None,
{
    if 65 <= c && c <= 90 {
        Some(c - 65)
    } else if 97 <= c && c <= 122 {
        Some(c - 97 + 26)
    } else if 48 <= c && c <= 57 {
        Some(c - 48 + 52)
    } else if c == 45 {
        Some(62)
    } else if c == 95 {
        Some(63)
    } else {
        None
    }
}

/// The characters of the encoding.
fn symbols(bytes: &[u8]) -> (r: Vec<char>)
    ensures
        r@ == encoded(bytes@),
{
    let mut out: Vec<char> = Vec::new();
    let mut i: usize = 0;
    assert(bytes@.skip(0) =~= bytes@);
    while bytes.len() - i >= 3
        invariant
            0 <= i <= bytes@.len(),
            out@ + encoded(bytes@.skip(i as int)) == encoded(bytes@),
        decreases bytes@.len() - i,
    {
        let ghost rest = bytes@.skip(i as int);
        let ghost before = out@;
        let b0 = bytes[i];
        let b1 = bytes[i + 1];
        let b2 = bytes[i + 2];
        out.push(symbol_of(b0 / 4));
        out.push(symbol_of(b0 % 4 * 16 + b1 / 16));
        out.push(symbol_of(b1 % 16 * 4 + b2 / 64));
        out.push(symbol_of(b2 % 64));
        i += 3;
        proof {
            assert(rest.skip(3) =~= bytes@.skip(i as int));
            assert(out@ + encoded(bytes@.skip(i as int)) =~= before + encoded(rest));
        }
    }
    let ghost rest = bytes@.skip(i as int);
    let ghost before = out@;
    if bytes.len() - i >= 2 {
        let b0 = bytes[i];
        let b1 = bytes[i + 1];
        out.push(symbol_of(b0 / 4));
        out.push(symbol_of(b0 % 4 * 16 + b1 / 16));
        out.push(symbol_of(b1 % 16 * 4));
    } else if i < bytes.len() {
        let b0 = bytes[i];
        out.push(symbol_of(b0 / 4));
        out.push(symbol_of(b0 % 4 * 16));
    }
    assert(out@ =~= before + encoded(rest));
    out
}

/// Characters as a text.
fn text_of(symbols: &Vec<char>) -> (r: String)
    ensures
        r@ == symbols@,
{
    let mut text = String::new();
    for i in 0..symbols.len()
        invariant
            text@ == symbols@.take(i as int),
    {
        text.push(symbols[i]);
        assert(symbols@.take(i + 1) =~= symbols@.take(i as int).push(symbols@[i as int]));
    }
    assert(symbols@.take(symbols@.len() as int) =~= symbols@);
    text
}

/// Encodes bytes.
pub fn base64url_encode(bytes: &[u8]) -> (r: String)
    ensures
        r@ == encoded(bytes@),
{
    text_of(&symbols(bytes))
}

/// A text without the characters `A` at its end.
pub open spec fn trimmed(s: Seq<char>) -> Seq<char>
    decreases s.len(),
{
    if s.len() > 0 && s.last() == 'A' {
        trimmed(s.drop_last())
    } else {
        s
    }
}

/// Encodes bytes and drops every `A` at the end, the trailing zero bits.
pub fn encode(bytes: &[u8]) -> (r: String)
    ensures
        r@ == trimmed(encoded(bytes@)),
{
    let mut out = symbols(bytes);
    while out.len() > 0 && out[out.len() - 1] == 'A'
        invariant
            trimmed(out@) == trimmed(encoded(bytes@)),
        decreases out@.len(),
    {
        let ghost before = out@;
        out.pop();
        assert(out@ =~= before.drop_last());
    }
    text_of(&out)
}

/// Whether every character of a group of four is in the alphabet.
pub open spec fn is_group(s: Seq<char>) -> bool {
    &&& symbol_value(s[0]) is Some
    &&& symbol_value(s[1]) is Some
    &&& symbol_value(s[2]) is Some
    &&& symbol_value(s[3]) is Some
}

/// Whether decoding comes only to ASCII characters: all groups of four are in
/// ASCII up to the first that is refused or, if none is, up to the end.
pub open spec fn reads_ascii(s: Seq<char>) -> bool
    decreases s.len(),
{
    if s.len() < 4 {
        is_ascii_chars(s)
    } else {
        is_ascii_chars(s.take(4)) && (is_group(s) ==> reads_ascii(s.skip(4)))
    }
}

/// Decoding an ASCII text comes only to ASCII characters.
pub proof fn lemma_ascii_read(s: Seq<char>)
    requires
        is_ascii_chars(s),
    ensures
        reads_ascii(s),
    decreases s.len(),
{
    if s.len() >= 4 {
        lemma_ascii_read(s.skip(4));
    }
}

/// An ASCII character takes one byte, and any other begins with a byte that is
/// none.
proof fn lemma_first_byte(s: Seq<char>)
    requires
        s.len() > 0,
    ensures
        encode_utf8(s).len() > 0,
        s[0] <= '\u{7f}' ==> encode_utf8(s)[0] == s[0] as u8 && encode_utf8(s).skip(1)
            == encode_utf8(s.skip(1)),
        s[0] > '\u{7f}' ==> encode_utf8(s)[0] >= 128,
{
    let c = s[0] as u32;
    assert(s.drop_first() =~= s.skip(1));
    char_is_scalar(s[0]);
    char_u32_cast(s[0], c);
    if c <= 0x7f {
        let one = seq![s[0]];
        is_ascii_chars_encode_utf8(one);
        assert(one.drop_first() =~= Seq::empty());
        assert(encode_utf8(one) =~= encode_scalar(c));
        assert(encode_utf8(s).skip(1) =~= encode_utf8(s.skip(1)));
    } else {
        assert(leading_byte_width_2(c) >= 128) by {
            assert(0xc0u8 | ((c >> 6) & 0x1f) as u8 >= 128u8) by (bit_vector);
        }
        assert(leading_byte_width_3(c) >= 128) by {
            assert(0xe0u8 | ((c >> 12) & 0x0f) as u8 >= 128u8) by (bit_vector);
        }
        assert(leading_byte_width_4(c) >= 128) by {
            assert(0xf0u8 | ((c >> 18) & 0x7) as u8 >= 128u8) by (bit_vector);
        }
        assert(encode_utf8(s)[0] == encode_scalar(c)[0]);
    }
}

proof fn lemma_least_char(c: char)
    ensures
        '\0' <= c,
{
}

/// The bytes of a text and its characters, as far as they are in ASCII.
proof fn lemma_ascii_prefix(s: Seq<char>, n: nat)
    ensures
        n <= s.len() && is_ascii_chars(s.take(n as int)) ==> {
            &&& n <= encode_utf8(s).len()
            &&& encode_utf8(s).skip(n as int) == encode_utf8(s.skip(n as int))
            &&& forall|k: int|
                0 <= k < n ==> #[trigger] encode_utf8(s)[k] < 128 && encode_utf8(s)[k] as char
                    == s[k]
        },
        n <= encode_utf8(s).len() && (forall|k: int|
            0 <= k < n ==> #[trigger] encode_utf8(s)[k] < 128) ==> n <= s.len() && is_ascii_chars(
            s.take(n as int),
        ),
    decreases n,
{
    if n > 0 && s.len() > 0 {
        let bytes = encode_utf8(s);
        let rest = s.skip(1);
        let m = (n - 1) as nat;
        lemma_first_byte(s);
        lemma_ascii_prefix(rest, m);
        if n <= s.len() && is_ascii_chars(s.take(n as int)) {
            assert(s.take(n as int)[0] == s[0]);
            assert(rest.take(m as int) =~= s.take(n as int).skip(1));
            assert(is_ascii_chars(rest.take(m as int))) by {
                assert forall|i: int| 0 <= i < m implies '\0' <= #[trigger] rest.take(
                    m as int,
                )[i] <= '\u{7f}' by {
                    assert(s.take(n as int)[i + 1] == rest.take(m as int)[i]);
                }
            }
            assert(bytes.skip(n as int) =~= bytes.skip(1).skip(m as int));
            assert(s.skip(n as int) =~= rest.skip(m as int));
            assert forall|k: int| 0 <= k < n implies #[trigger] bytes[k] < 128 && bytes[k] as char
                == s[k] by {
                if k > 0 {
                    assert(bytes[k] == bytes.skip(1)[k - 1]);
                }
            }
        }
        if n <= bytes.len() && (forall|k: int| 0 <= k < n ==> #[trigger] bytes[k] < 128) {
            assert(bytes[0] < 128);
            assert forall|k: int| 0 <= k < m implies #[trigger] encode_utf8(rest)[k] < 128 by {
                assert(bytes[k + 1] == bytes.skip(1)[k]);
            }
            assert(bytes.skip(1).len() == bytes.len() - 1);
            assert(m <= rest.len() && is_ascii_chars(rest.take(m as int)));
            assert forall|i: int| 0 <= i < n implies '\0' <= #[trigger] s.take(n as int)[i]
                <= '\u{7f}' by {
                if i > 0 {
                    assert(rest.take(m as int)[i - 1] == s.take(n as int)[i]);
                } else {
                    lemma_least_char(s[0]);
                    assert(s.take(n as int)[0] == s[0]);
                }
            }
        }
    } else if n == 0 {
        assert(encode_utf8(s).skip(0) =~= encode_utf8(s));
        assert(s.skip(0) =~= s);
    }
}

/// The next group of a text that decoding comes to, in bytes and in characters.
proof fn lemma_next_group(s: Seq<char>)
    requires
        reads_ascii(s),
    ensures
        s.len() >= 4 <==> encode_utf8(s).len() >= 4,
        s.len() < 4 ==> encode_utf8(s).len() == s.len(),
        s.len() >= 4 ==> encode_utf8(s).skip(4) == encode_utf8(s.skip(4)),
        forall|k: int|
            0 <= k < s.len() && k < 4 ==> #[trigger] encode_utf8(s)[k] < 128 && encode_utf8(
                s,
            )[k] as char == s[k],
{
    if s.len() < 4 {
        assert(s.take(s.len() as int) =~= s);
        lemma_ascii_prefix(s, s.len());
        assert(s.skip(s.len() as int) =~= Seq::empty());
        assert(encode_utf8(s).skip(s.len() as int).len() == 0);
    } else {
        lemma_ascii_prefix(s, 4);
    }
}

/// Decodes text. Characters outside the alphabet are refused, except for the
/// third of a last group of three. No character beyond ASCII may stand in a group
/// that decoding comes to.
pub fn base64url_decode(s: &str) -> (r: Option<Vec<u8>>)
    requires
        reads_ascii(s@),
    ensures
        r matches Some(bytes) ==> decoded(s@) == Some(bytes@),
        r is None ==> decoded(s@) is None,
{
    let bytes = s.as_bytes();
    let ghost chars = s@;
    let mut result: Vec<u8> = Vec::new();
    let mut i: usize = 0;
    assert(chars.skip(0) =~= chars);
    assert(bytes@.skip(0) =~= encode_utf8(chars));
    assert(decoded(chars) is Some ==> decoded(chars)->0 =~= result@ + decoded(chars)->0);
    while bytes.len() - i >= 4
        invariant
            0 <= i <= bytes@.len(),
            i <= chars.len(),
            bytes@.skip(i as int) == encode_utf8(chars.skip(i as int)),
            reads_ascii(chars.skip(i as int)),
            decoded(chars.skip(i as int)) is None <==> decoded(chars) is None,
            decoded(chars) is Some ==> decoded(chars)->0 == result@ + decoded(
                chars.skip(i as int),
            )->0,
            chars == s@,
        decreases bytes@.len() - i,
    {
        let ghost rest = chars.skip(i as int);
        let ghost before = result@;
        proof {
            lemma_next_group(rest);
            let group = encode_utf8(rest);
            assert(bytes@[i as int] == group[0]);
            assert(bytes@[i + 1] == group[1]);
            assert(bytes@[i + 2] == group[2]);
            assert(bytes@[i + 3] == group[3]);
        }
        match (
            value_of(bytes[i]),
            value_of(bytes[i + 1]),
            value_of(bytes[i + 2]),
            value_of(bytes[i + 3]),
        ) {
            (Some(v0), Some(v1), Some(v2), Some(v3)) => {
                result.push(v0 * 4 + v1 / 16);
                result.push(v1 % 16 * 16 + v2 / 4);
                result.push(v2 % 4 * 64 + v3);
            },
            _ => {
                return None;
            },
        }
        i += 4;
        proof {
            assert(rest.skip(4) =~= chars.skip(i as int));
            assert(bytes@.skip(i as int) =~= encode_utf8(rest).skip(4));
            if decoded(chars) is Some {
                assert(result@ + decoded(rest.skip(4))->0 =~= before + decoded(rest)->0);
            }
        }
    }
    let ghost rest = chars.skip(i as int);
    let ghost before = result@;
    let ghost group = encode_utf8(rest);
    proof {
        lemma_next_group(rest);
    }
    if i < bytes.len() {
        assert(bytes@[i as int] == group[0]);
        let v0 = match value_of(bytes[i]) {
            Some(v) => v,
            None => {
                return None;
            },
        };
        if bytes.len() - i >= 2 {
            assert(bytes@[i + 1] == group[1]);
            let v1 = match value_of(bytes[i + 1]) {
                Some(v) => v,
                None => {
                    return None;
                },
            };
            result.push(v0 * 4 + v1 / 16);
            if bytes.len() - i >= 3 {
                assert(bytes@[i + 2] == group[2]);
                match value_of(bytes[i + 2]) {
                    Some(v2) => {
                        result.push(v1 % 16 * 16 + v2 / 4);
                    },
                    None => {
                        result.push(v1 % 16 / 4 * 64 + 63);
                    },
                }
            }
        } else {
            result.push(v0 * 4);
        }
    }
    assert(result@ =~= before + decoded(rest)->0);
    Some(result)
}

/// Whether decoding a text comes only to ASCII characters.
pub fn is_ascii_read(s: &str) -> (r: bool)
    ensures
        r == reads_ascii(s@),
{
    let bytes = s.as_bytes();
    let ghost chars = s@;
    let mut i: usize = 0;
    assert(chars.skip(0) =~= chars);
    assert(bytes@.skip(0) =~= encode_utf8(chars));
    while bytes.len() - i >= 4
        invariant
            0 <= i <= bytes@.len(),
            i <= chars.len(),
            bytes@.skip(i as int) == encode_utf8(chars.skip(i as int)),
            reads_ascii(chars.skip(i as int)) == reads_ascii(chars),
            chars == s@,
        decreases bytes@.len() - i,
    {
        let ghost rest = chars.skip(i as int);
        let (b0, b1, b2, b3) = (bytes[i], bytes[i + 1], bytes[i + 2], bytes[i + 3]);
        proof {
            lemma_ascii_prefix(rest, 4);
            let group = encode_utf8(rest);
            assert(b0 == group[0] && b1 == group[1] && b2 == group[2] && b3 == group[3]);
            if reads_ascii(rest) {
                lemma_next_group(rest);
            }
        }
        if b0 >= 128 || b1 >= 128 || b2 >= 128 || b3 >= 128 {
            return false;
        }
        if value_of(b0).is_none() || value_of(b1).is_none() || value_of(b2).is_none()
            || value_of(b3).is_none() {
            return true;
        }
        i += 4;
        proof {
            assert(rest.skip(4) =~= chars.skip(i as int));
            assert(bytes@.skip(i as int) =~= encode_utf8(rest).skip(4));
        }
    }
    let ghost rest = chars.skip(i as int);
    let ghost group = encode_utf8(rest);
    proof {
        if reads_ascii(rest) {
            lemma_next_group(rest);
        }
    }
    for k in 0..bytes.len() - i
        invariant
            i <= bytes@.len(),
            group == bytes@.skip(i as int),
            forall|j: int| 0 <= j < k ==> #[trigger] group[j] < 128,
            reads_ascii(rest) == reads_ascii(chars),
            chars == s@,
            group == encode_utf8(rest),
            reads_ascii(rest) ==> forall|j: int|
                0 <= j < group.len() ==> #[trigger] group[j] < 128,
    {
        assert(bytes@[i + k] == group[k as int]);
        if bytes[i + k] >= 128 {
            return false;
        }
    }
    proof {
        let n = group.len();
        lemma_ascii_prefix(rest, n);
        if rest.len() > n {
            lemma_first_byte(rest.skip(n as int));
        }
        assert(rest.take(n as int) =~= rest);
    }
    true
}

/// What the strict decoding of a text gives: the bytes, or the error in words.
pub uninterp spec fn strictly_decoded(s: Seq<char>) -> Result<Seq<u8>, Seq<char>>;

/// Whether a text is the encoding of some bytes.
pub open spec fn is_encoding(s: Seq<char>) -> bool {
    exists|bytes: Seq<u8>| #[trigger] encoded(bytes) == s
}

/// `base64_url::encode`: the encoding without padding, from which
/// `base64_url::decode` gives the bytes again.
#[verifier::external_body]
pub(crate) fn strict_encode(bytes: &[u8]) -> (r: String)
    ensures
        r@ == encoded(bytes@),
        decoding::gives(strictly_decoded(r@), bytes@),
{
    base64_url::encode(bytes)
}

/// `base64_url::decode`, with its error in words. It takes the encodings without
/// padding and no other text.
#[verifier::external_body]
pub(crate) fn strict_decode(s: &str) -> (r: Result<Vec<u8>, String>)
    ensures
        r matches Ok(bytes) ==> decoding::gives(strictly_decoded(s@), bytes@),
        r matches Ok(bytes) ==> s@ == encoded(bytes@),
        r matches Err(e) ==> decoding::fails(strictly_decoded(s@), e@),
        r is Err ==> forall|bytes: Seq<u8>| #[trigger] encoded(bytes) != s@,
{
    base64_url::decode(s).map_err(|e| e.to_string())
}

/// The alphabet, and that a character stands for its place in it and no other character
/// for anything.
pub proof fn lemma_alphabet(v: int, c: char)
    ensures
        0 <= v < 64 ==> symbol(v)
            == "ABCDEFGHIJKLMNOPQRSTUVWXYZabcdefghijklmnopqrstuvwxyz0123456789-_"@[v],
        symbol_value(c) == Some(v) <==> 0 <= v < 64
            && "ABCDEFGHIJKLMNOPQRSTUVWXYZabcdefghijklmnopqrstuvwxyz0123456789-_"@[v] == c,
{
    reveal_strlit("ABCDEFGHIJKLMNOPQRSTUVWXYZabcdefghijklmnopqrstuvwxyz0123456789-_");
}

/// What the encoding says: four characters are the digits in base 64 of the number that
/// three bytes are in base 256; two and three characters are those of a last byte or of
/// two last bytes, with zero bits behind them.
pub proof fn lemma_encoded(a: u8, b: u8, c: u8, rest: Seq<u8>)
    ensures
        encoded(Seq::empty()).len() == 0,
        ({
            let s = encoded(seq![a]);
            &&& s.len() == 2
            &&& symbol_value(s[0])->0 * 64 + symbol_value(s[1])->0 == a * 16
        }),
        ({
            let s = encoded(seq![a, b]);
            &&& s.len() == 3
            &&& symbol_value(s[0])->0 * 4096 + symbol_value(s[1])->0 * 64 + symbol_value(s[2])->0
                == (a * 256 + b) * 4
        }),
        ({
            let s = encoded(seq![a, b, c] + rest);
            &&& s.len() >= 4
            &&& s.skip(4) == encoded(rest)
            &&& symbol_value(s[0])->0 * 262144 + symbol_value(s[1])->0 * 4096 + symbol_value(
                s[2],
            )->0 * 64 + symbol_value(s[3])->0 == a * 65536 + b * 256 + c
        }),
{
    let all = seq![a, b, c] + rest;
    assert(all.skip(3) =~= rest);
    assert(encoded(all).skip(4) =~= encoded(rest));
    lemma_symbol(a as int / 4);
    lemma_symbol(a as int % 4 * 16);
    lemma_symbol(a as int % 4 * 16 + b as int / 16);
    lemma_symbol(b as int % 16 * 4);
    lemma_symbol(b as int % 16 * 4 + c as int / 64);
    lemma_symbol(c as int % 64);
}

/// What the decoding says: of a group of four characters of the alphabet three bytes
/// that are the same number, and nothing of a text with a group that has another
/// character; of one or two last characters the first eight bits, and of three the first
/// sixteen.
pub proof fn lemma_decoded(a: char, b: char, c: char, d: char, rest: Seq<char>)
    ensures
        ({
            let s = seq![a, b, c, d] + rest;
            let v = |x: char| symbol_value(x)->0;
            let known = symbol_value(a) is Some && symbol_value(b) is Some && symbol_value(
                c,
            ) is Some && symbol_value(d) is Some;
            &&& decoded(s) is Some <==> known && decoded(rest) is Some
            &&& decoded(s) matches Some(bytes) ==> {
                &&& bytes.len() >= 3
                &&& bytes.skip(3) == decoded(rest)->0
                &&& bytes[0] * 65536 + bytes[1] * 256 + bytes[2] == v(a) * 262144 + v(b) * 4096 + v(
                    c,
                ) * 64 + v(d)
            }
        }),
        decoded(seq![a]) is Some <==> symbol_value(a) is Some,
        decoded(seq![a]) matches Some(bytes) ==> bytes.len() == 1 && bytes[0] == symbol_value(a)->0
            * 4,
        decoded(seq![a, b]) is Some <==> symbol_value(a) is Some && symbol_value(b) is Some,
        decoded(seq![a, b]) matches Some(bytes) ==> bytes.len() == 1 && bytes[0] == (symbol_value(
            a,
        )->0 * 64 + symbol_value(b)->0) / 16,
        decoded(seq![a, b, c]) is Some <==> symbol_value(a) is Some && symbol_value(b) is Some,
        decoded(seq![a, b, c]) is Some && symbol_value(c) is Some ==> {
            let bytes = decoded(seq![a, b, c])->0;
            bytes.len() == 2 && bytes[0] * 256 + bytes[1] == (symbol_value(a)->0 * 4096
                + symbol_value(b)->0 * 64 + symbol_value(c)->0) / 4
        },
{
    let s = seq![a, b, c, d] + rest;
    assert(s.skip(4) =~= rest);
    if decoded(s) is Some {
        assert((decoded(s)->0).skip(3) =~= decoded(rest)->0);
    }
}

/// A trimmed text is a beginning of the text that does not end in `A`, and all that was
/// behind it is `A`.
pub proof fn lemma_trimmed(s: Seq<char>)
    ensures
        trimmed(s).len() <= s.len(),
        trimmed(s) == s.take(trimmed(s).len() as int),
        trimmed(s).len() > 0 ==> trimmed(s).last() != 'A',
        forall|i: int| trimmed(s).len() <= i < s.len() ==> #[trigger] s[i] == 'A',
    decreases s.len(),
{
    if s.len() > 0 && s.last() == 'A' {
        lemma_trimmed(s.drop_last());
        let t = trimmed(s);
        assert(s.drop_last().take(t.len() as int) =~= s.take(t.len() as int));
        assert forall|i: int| t.len() <= i < s.len() implies #[trigger] s[i] == 'A' by {
            if i < s.len() - 1 {
                assert(s[i] == s.drop_last()[i]);
            }
        }
    } else {
        assert(s.take(s.len() as int) =~= s);
    }
}

/// The length of an encoding: four characters for three bytes, and one more than the
/// bytes that are left.
pub proof fn lemma_length(bytes: Seq<u8>)
    ensures
        encoded(bytes).len() == bytes.len() / 3 * 4 + if bytes.len() % 3 == 0 {
            0
        } else {
            bytes.len() % 3 + 1
        },
    decreases bytes.len(),
{
    if bytes.len() >= 3 {
        lemma_length(bytes.skip(3));
    }
}

/// Every character of an encoding is in the alphabet.
pub proof fn lemma_in_alphabet(bytes: Seq<u8>)
    ensures
        forall|i: int|
            0 <= i < encoded(bytes).len() ==> symbol_value(#[trigger] encoded(bytes)[i]) is Some,
    decreases bytes.len(),
{
    if bytes.len() >= 3 {
        lemma_in_alphabet(bytes.skip(3));
        lemma_symbol(bytes[2] as int % 64);
        lemma_symbol(bytes[1] as int % 16 * 4 + bytes[2] as int / 64);
    }
    if bytes.len() == 2 {
        lemma_symbol(bytes[1] as int % 16 * 4);
    }
    if bytes.len() >= 2 {
        lemma_symbol(bytes[0] as int % 4 * 16 + bytes[1] as int / 16);
    }
    if bytes.len() >= 1 {
        lemma_symbol(bytes[0] as int / 4);
        lemma_symbol(bytes[0] as int % 4 * 16);
    }
    let s = encoded(bytes);
    if bytes.len() >= 3 {
        let rest = encoded(bytes.skip(3));
        assert forall|i: int| 0 <= i < s.len() implies symbol_value(#[trigger] s[i]) is Some by {
            if i >= 4 {
                assert(s[i] == rest[i - 4]);
            }
        }
    }
}

} // verus!
