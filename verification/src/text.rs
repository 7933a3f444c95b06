//! Decimal and hexadecimal text.
use vstd::prelude::*;

verus! {

/// The decimal digit of a value below ten.
pub open spec fn digit_char(d: nat) -> char {
    (('0' as nat + d) as char)
}

pub open spec fn is_digit(c: char) -> bool {
    '0' <= c <= '9'
}

/// A number written in decimal without leading zeros; zero is "0".
pub open spec fn decimal(n: nat) -> Seq<char>
    decreases n,
{
    if n < 10 {
        seq![digit_char(n)]
    } else {
        decimal(n / 10).push(digit_char(n % 10))
    }
}

/// The number that a sequence of decimal digits writes.
pub open spec fn digits_value(s: Seq<char>) -> nat
    decreases s.len(),
{
    if s.len() == 0 {
        0
    } else {
        digits_value(s.drop_last()) * 10 + (s.last() as nat - '0' as nat) as nat
    }
}

pub open spec fn all_digits(s: Seq<char>) -> bool {
    forall|i: int| 0 <= i < s.len() ==> is_digit(#[trigger] s[i])
}

/// Decimal text consists of digits, has no leading zero unless it is "0", and
/// reads back as the number it was written from.
pub proof fn lemma_decimal(n: nat)
    ensures
        decimal(n).len() > 0,
        all_digits(decimal(n)),
        digits_value(decimal(n)) == n,
        n > 0 ==> decimal(n)[0] != '0',
    decreases n,
{
    if n < 10 {
        let s = decimal(n);
        assert(s.drop_last() =~= Seq::<char>::empty());
        assert(digits_value(s.drop_last()) == 0);
    } else {
        lemma_decimal(n / 10);
        let s = decimal(n);
        assert(s.drop_last() =~= decimal(n / 10));
        assert(s[0] == decimal(n / 10)[0]);
    }
}

/// What `str::parse::<u64>` reads: an optional plus sign and then decimal
/// digits, at least one, whose value fits in 64 bits.
pub open spec fn parsed_u64(s: Seq<char>) -> Option<nat> {
    let digits = if s.len() > 0 && s[0] == '+' {
        s.drop_first()
    } else {
        s
    };
    if digits.len() > 0 && all_digits(digits) && digits_value(digits) <= u64::MAX {
        Some(digits_value(digits))
    } else {
        None
    }
}

/// `u64`'s `to_string`: the number in decimal.
#[verifier::external_body]
pub(crate) fn decimal_text(n: u64) -> (r: String)
    ensures
        r@ == decimal(n as nat),
{
    n.to_string()
}

/// `str::parse::<u64>`: an optional plus sign followed by digits, and an error
/// for anything else and for a number beyond 64 bits.
#[verifier::external_body]
pub(crate) fn parse_u64(s: &str) -> (r: Option<u64>)
    ensures
        r matches Some(n) ==> parsed_u64(s@) == Some(n as nat),
        r is None ==> parsed_u64(s@) is None,
{
    s.parse::<u64>().ok()
}

/// `String::push` puts one character behind the text.
pub assume_specification[ String::push ](s: &mut String, c: char)
    ensures
        final(s)@ == old(s)@.push(c),
;

/// `String::push_str` puts a text behind the text.
pub assume_specification[ String::push_str ](s: &mut String, t: &str)
    ensures
        final(s)@ == old(s)@ + t@,
;

/// A number below sixteen as a lower-case hexadecimal digit.
pub open spec fn hex_digit(d: int) -> char {
    if d < 10 {
        (('0' as int + d) as char)
    } else {
        (('a' as int + d - 10) as char)
    }
}

/// Bytes as two lower-case hexadecimal digits each.
pub open spec fn hex(bytes: Seq<u8>) -> Seq<char>
    decreases bytes.len(),
{
    if bytes.len() == 0 {
        Seq::empty()
    } else {
        hex(bytes.drop_last()) + seq![
            hex_digit(bytes.last() as int / 16),
            hex_digit(bytes.last() as int % 16),
        ]
    }
}

fn hex_char(d: u8) -> (c: char)
    requires
        d < 16,
    ensures
        c == hex_digit(d as int),
{
    if d < 10 {
        (48 + d) as char
    } else {
        (97 + (d - 10)) as char
    }
}

proof fn lemma_hex_one(byte: u8)
    ensures
        hex(seq![byte]) == seq![hex_digit(byte as int / 16), hex_digit(byte as int % 16)],
{
    let one = seq![byte];
    assert(one.drop_last() =~= Seq::<u8>::empty());
    assert(hex(one.drop_last()) =~= Seq::<char>::empty());
    assert(one.last() == byte);
    assert(hex(one) =~= seq![hex_digit(byte as int / 16), hex_digit(byte as int % 16)]);
}

/// Appends one byte as two hexadecimal digits.
pub(crate) fn push_hex(out: &mut String, byte: u8)
    ensures
        final(out)@ == old(out)@ + hex(seq![byte]),
{
    proof {
        lemma_hex_one(byte);
    }
    out.push(hex_char(byte / 16));
    out.push(hex_char(byte % 16));
    assert(out@ =~= old(out)@ + hex(seq![byte]));
}

/// Bytes in hexadecimal.
pub fn hex_text(bytes: &[u8]) -> (r: String)
    ensures
        r@ == hex(bytes@),
{
    let mut out = String::new();
    for i in 0..bytes.len()
        invariant
            out@ == hex(bytes@.take(i as int)),
    {
        push_hex(&mut out, bytes[i]);
        proof {
            let next = bytes@.take(i + 1);
            assert(next.drop_last() =~= bytes@.take(i as int));
            lemma_hex_one(bytes@[i as int]);
        }
    }
    assert(bytes@.take(bytes@.len() as int) =~= bytes@);
    out
}

/// Texts as sequences of characters.
pub open spec fn texts(v: Seq<String>) -> Seq<Seq<char>> {
    Seq::new(v.len(), |i: int| v[i]@)
}

/// Copies texts.
pub(crate) fn copied(v: &Vec<String>) -> (r: Vec<String>)
    ensures
        texts(r@) == texts(v@),
{
    let mut out: Vec<String> = Vec::new();
    for i in 0..v.len()
        invariant
            texts(out@) == texts(v@.take(i as int)),
    {
        let ghost before = out@;
        out.push(v[i].clone());
        assert(texts(out@) =~= texts(before).push(v@[i as int]@));
        assert(texts(v@.take(i + 1)) =~= texts(v@.take(i as int)).push(v@[i as int]@));
    }
    assert(v@.take(v@.len() as int) =~= v@);
    out
}

/// What `{:?}` writes for a text: in quotes, with some characters escaped.
pub uninterp spec fn quoted(s: Seq<char>) -> Seq<char>;

/// Whether a text has only printable ASCII characters, and neither quotes nor
/// backslashes.
pub open spec fn is_plain(s: Seq<char>) -> bool {
    forall|i: int|
        0 <= i < s.len() ==> ' ' <= #[trigger] s[i] <= '~' && s[i] != '"' && s[i] != '\'' && s[i]
            != '\\'
}

/// A text in quotes: as it is where it is plain, and with what is not plain
/// escaped.
pub open spec fn in_quotes(s: Seq<char>) -> Seq<char> {
    if is_plain(s) {
        seq!['"'] + s + seq!['"']
    } else {
        quoted(s)
    }
}

/// `str`'s `Debug`, by `format!`. A plain text comes unchanged between quotes.
/// What is escaped in another text, and how, is left unsaid.
#[verifier::external_body]
pub(crate) fn quoted_text(s: &str) -> (r: String)
    ensures
        r@ == quoted(s@),
        is_plain(s@) ==> r@ == seq!['"'] + s@ + seq!['"'],
{
    format!("{:?}", s)
}

/// Texts one behind the other with a separator between them.
pub open spec fn joined(s: Seq<Seq<char>>, separator: Seq<char>) -> Seq<char>
    decreases s.len(),
{
    if s.len() == 0 {
        Seq::empty()
    } else if s.len() == 1 {
        s[0]
    } else {
        joined(s.drop_last(), separator) + separator + s.last()
    }
}

/// Joins texts.
pub(crate) fn join(v: &Vec<String>, separator: &str) -> (r: String)
    ensures
        r@ == joined(texts(v@), separator@),
{
    let mut out = String::new();
    let ghost all = texts(v@);
    for i in 0..v.len()
        invariant
            all == texts(v@),
            out@ == joined(all.take(i as int), separator@),
    {
        proof {
            let s = all.take(i + 1);
            assert(s.drop_last() =~= all.take(i as int));
            assert(s.last() == v@[i as int]@);
        }
        if i > 0 {
            out.push_str(separator);
        }
        let ghost before = out@;
        out.push_str(v[i].as_str());
        if i == 0 {
            assert(before =~= Seq::empty());
            assert(out@ =~= v@[0]@);
        }
    }
    assert(all.take(all.len() as int) =~= all);
    out
}

/// Hexadecimal text has two of the characters from `0` to `9` and from `a` to `f` for
/// every byte, of which the first counts sixteen times.
pub proof fn lemma_hex(bytes: Seq<u8>, i: int)
    requires
        0 <= i < bytes.len(),
    ensures
        hex(bytes).len() == 2 * bytes.len(),
        hex(bytes)[2 * i] == "0123456789abcdef"@[bytes[i] as int / 16],
        hex(bytes)[2 * i + 1] == "0123456789abcdef"@[bytes[i] as int % 16],
    decreases bytes.len(),
{
    let front = bytes.drop_last();
    lemma_hex_length(front);
    lemma_hex_digit(bytes[i] as int / 16);
    lemma_hex_digit(bytes[i] as int % 16);
    if i < front.len() {
        lemma_hex(front, i);
    }
}

proof fn lemma_hex_length(bytes: Seq<u8>)
    ensures
        hex(bytes).len() == 2 * bytes.len(),
    decreases bytes.len(),
{
    if bytes.len() > 0 {
        lemma_hex_length(bytes.drop_last());
    }
}

proof fn lemma_hex_digit(d: int)
    requires
        0 <= d < 16,
    ensures
        hex_digit(d) == "0123456789abcdef"@[d],
{
    reveal_strlit("0123456789abcdef");
}

/// Joining texts in two parts puts the separator between the two; one text is joined
/// as it is, and none to nothing.
pub proof fn lemma_joined(first: Seq<Seq<char>>, rest: Seq<Seq<char>>, one: Seq<char>, separator: Seq<char>)
    requires
        first.len() > 0,
        rest.len() > 0,
    ensures
        joined(first + rest, separator) == joined(first, separator) + separator + joined(
            rest,
            separator,
        ),
        joined(seq![one], separator) == one,
        joined(Seq::empty(), separator) == Seq::<char>::empty(),
    decreases rest.len(),
{
    let all = first + rest;
    assert(all.last() == rest.last());
    if rest.len() == 1 {
        assert(all.drop_last() =~= first);
    } else {
        lemma_joined(first, rest.drop_last(), one, separator);
        assert(all.drop_last() =~= first + rest.drop_last());
        let a = joined(first, separator);
        let b = joined(rest.drop_last(), separator);
        assert(a + separator + b + separator + rest.last() =~= a + separator + (b + separator
            + rest.last()));
    }
}

// Taking texts apart from their ends.

pub(crate) proof fn lemma_same_end(a: Seq<char>, b: Seq<char>, end: Seq<char>)
    requires
        a + end == b + end,
    ensures
        a == b,
{
    let s = a + end;
    let t = b + end;
    assert(s.len() == a.len() + end.len());
    assert(t.len() == b.len() + end.len());
    assert(s.take(a.len() as int) =~= a);
    assert(t.take(a.len() as int) =~= b);
}

pub(crate) proof fn lemma_same_start(start: Seq<char>, a: Seq<char>, b: Seq<char>)
    requires
        start + a == start + b,
    ensures
        a == b,
{
    let s = start + a;
    let t = start + b;
    assert(s.skip(start.len() as int) =~= a);
    assert(t.skip(start.len() as int) =~= b);
}

/// Where two texts end in characters of a kind, behind one that is not of it, the
/// ends are the same.
pub(crate) proof fn lemma_same_run(
    a: Seq<char>,
    x: Seq<char>,
    b: Seq<char>,
    y: Seq<char>,
    kind: spec_fn(char) -> bool,
)
    requires
        a + x == b + y,
        a.len() > 0,
        b.len() > 0,
        !kind(a.last()),
        !kind(b.last()),
        forall|i: int| 0 <= i < x.len() ==> kind(#[trigger] x[i]),
        forall|i: int| 0 <= i < y.len() ==> kind(#[trigger] y[i]),
    ensures
        a == b,
        x == y,
{
    let s = a + x;
    let t = b + y;
    assert(s.len() == t.len());
    if a.len() < b.len() {
        assert(t[b.len() - 1] == b.last());
        assert(s[b.len() - 1] == x[b.len() - 1 - a.len()]);
    } else if b.len() < a.len() {
        assert(s[a.len() - 1] == a.last());
        assert(t[a.len() - 1] == y[a.len() - 1 - b.len()]);
    }
    assert(a =~= b) by {
        assert forall|i: int| 0 <= i < a.len() implies a[i] == b[i] by {
            assert(s[i] == t[i]);
        }
    }
    assert(x =~= y) by {
        assert forall|i: int| 0 <= i < x.len() implies x[i] == y[i] by {
            assert(s[a.len() + i] == t[a.len() + i]);
        }
    }
}

/// A text has another in it.
#[verifier::opaque]
pub open spec fn holds(s: Seq<char>, part: Seq<char>) -> bool {
    exists|before: Seq<char>, after: Seq<char>| s == #[trigger] (before + part + after)
}

pub(crate) proof fn lemma_holds(s: Seq<char>, before: Seq<char>, part: Seq<char>, after: Seq<char>)
    requires
        s =~= before + part + after,
    ensures
        holds(s, part),
{
    reveal(holds);
}

/// What is in a part is in the whole.
pub(crate) proof fn lemma_holds_within(s: Seq<char>, whole: Seq<char>, part: Seq<char>)
    requires
        holds(s, whole),
        holds(whole, part),
    ensures
        holds(s, part),
{
    reveal(holds);
    let (b1, a1) = choose|before: Seq<char>, after: Seq<char>| s == #[trigger] (before + whole
        + after);
    let (b2, a2) = choose|before: Seq<char>, after: Seq<char>| whole == #[trigger] (before + part
        + after);
    lemma_holds(s, b1 + b2, part, a2 + a1);
}

} // verus!
