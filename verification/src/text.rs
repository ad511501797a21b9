//! Bytes as text: hexadecimal, decimal numbers, lines and prefixes.
use vstd::prelude::*;
use vstd::utf8::{encode_utf8, valid_utf8};

verus! {

/// The lower-case hexadecimal digit of a value below 16.
pub open spec fn hex_digit(n: u8) -> u8 {
    if n < 10 {
        (48 + n) as u8
    } else {
        (87 + n) as u8
    }
}

/// Two lower-case hexadecimal digits for each byte, the high half first.
pub open spec fn hex_encode(data: Seq<u8>) -> Seq<u8> {
    Seq::new(
        2 * data.len(),
        |i: int|
            hex_digit(
                if i % 2 == 0 {
                    data[i / 2] / 16
                } else {
                    data[i / 2] % 16
                },
            ),
    )
}

/// The value of a hexadecimal digit of either case.
pub open spec fn hex_value(c: u8) -> Option<u8> {
    if 48 <= c <= 57 {
        Some((c - 48) as u8)
    } else if 97 <= c <= 102 {
        Some((c - 87) as u8)
    } else if 65 <= c <= 70 {
        Some((c - 55) as u8)
    } else {
        None
    }
}

/// An even number of hexadecimal digits.
pub open spec fn is_hex_text(text: Seq<u8>) -> bool {
    text.len() % 2 == 0 && forall|i: int| 0 <= i < text.len() ==> hex_value(#[trigger] text[i]).is_some()
}

/// The bytes that hexadecimal text stands for.
pub open spec fn hex_decode(text: Seq<u8>) -> Seq<u8> {
    Seq::new(
        text.len() / 2,
        |i: int| (hex_value(text[2 * i]).unwrap() * 16 + hex_value(text[2 * i + 1]).unwrap()) as u8,
    )
}

/// The decimal digits of a number, without leading zeros.
pub open spec fn decimal(n: nat) -> Seq<u8>
    decreases n,
{
    if n < 10 {
        seq![(48 + n) as u8]
    } else {
        decimal(n / 10).push((48 + n % 10) as u8)
    }
}

/// The decimal digits of a number, with zeros in front up to a width of 8.
pub open spec fn decimal_padded(n: nat) -> Seq<u8> {
    let d = decimal(n);
    if d.len() >= 8 {
        d
    } else {
        Seq::new((8 - d.len()) as nat, |i: int| 48u8) + d
    }
}

/// The number that a string of decimal digits stands for; `None` where a
/// byte is no digit. The empty string stands for 0.
pub open spec fn digits_value(s: Seq<u8>) -> Option<nat>
    decreases s.len(),
{
    if s.len() == 0 {
        Some(0)
    } else {
        match digits_value(s.drop_last()) {
            Some(v) => if 48 <= s.last() <= 57 {
                Some(v * 10 + (s.last() - 48) as nat)
            } else {
                None
            },
            None => None,
        }
    }
}

/// The digits of a number text once a leading `+` is taken off.
pub open spec fn unsigned_digits(s: Seq<u8>) -> Seq<u8> {
    if s.len() > 0 && s[0] == 43 {
        s.drop_first()
    } else {
        s
    }
}

/// Reads a `u64` as std's `parse` does: an optional `+`, then at least one
/// decimal digit and nothing else, and a value that fits.
pub open spec fn spec_parse_u64(s: Seq<u8>) -> Option<u64> {
    let d = unsigned_digits(s);
    if d.len() == 0 {
        None
    } else {
        match digits_value(d) {
            Some(v) => if v <= u64::MAX {
                Some(v as u64)
            } else {
                None
            },
            None => None,
        }
    }
}

/// Whether `line` begins with `prefix`.
pub open spec fn has_prefix(line: Seq<u8>, prefix: Seq<u8>) -> bool {
    prefix.len() <= line.len() && line.subrange(0, prefix.len() as int) == prefix
}

/// Where the line that begins at `i` ends: at the next line feed, or at the
/// end of the text.
pub open spec fn line_end(text: Seq<u8>, i: int) -> int
    decreases text.len() - i,
{
    if i < 0 || i >= text.len() || text[i] == 10 {
        i
    } else {
        line_end(text, i + 1)
    }
}

/// A line without the carriage return that stood before its line feed.
pub open spec fn strip_return(line: Seq<u8>, terminated: bool) -> Seq<u8> {
    if terminated && line.len() > 0 && line.last() == 13 {
        line.drop_last()
    } else {
        line
    }
}

/// The lines of the text from `start` on. A line ends at a line feed or at
/// the end of the text; the line feed, and a carriage return just before it,
/// are no part of the line.
pub open spec fn lines_from(text: Seq<u8>, start: int) -> Seq<Seq<u8>>
    decreases text.len() - start,
{
    let e = line_end(text, start);
    if start < 0 || start >= text.len() || e < start || e > text.len() {
        Seq::empty()
    } else {
        seq![strip_return(text.subrange(start, e), e < text.len())] + (if e < text.len() {
            lines_from(text, e + 1)
        } else {
            Seq::empty()
        })
    }
}

/// The lines of a text.
pub open spec fn split_lines(text: Seq<u8>) -> Seq<Seq<u8>> {
    lines_from(text, 0)
}

/// The byte strings that a vector of vectors holds.
pub open spec fn byte_strings(lines: Seq<Vec<u8>>) -> Seq<Seq<u8>> {
    lines.map_values(|l: Vec<u8>| l@)
}

/// Calls `hex::encode`, which writes each byte as two lower-case
/// hexadecimal digits, the high half first.
#[verifier::external_body]
pub(crate) fn hex_encode_bytes(data: &[u8]) -> (out: Vec<u8>)
    ensures
        out@ == hex_encode(data@),
{
    hex::encode(data).into_bytes()
}

/// Calls `hex::decode`, which accepts an even number of hexadecimal digits
/// of either case and nothing else, and gives one byte for each pair.
#[verifier::external_body]
pub(crate) fn hex_decode_bytes(text: &[u8]) -> (out: Option<Vec<u8>>)
    ensures
        out.is_some() == is_hex_text(text@),
        out.is_some() ==> out.unwrap()@ == hex_decode(text@),
{
    hex::decode(text).ok()
}

/// The decimal digits of a number.
pub fn decimal_bytes(n: u64) -> (out: Vec<u8>)
    ensures
        out@ == decimal(n as nat),
    decreases n,
{
    if n < 10 {
        let mut out: Vec<u8> = Vec::new();
        out.push(48 + n as u8);
        assert(out@ =~= decimal(n as nat));
        out
    } else {
        let mut out = decimal_bytes(n / 10);
        out.push(48 + (n % 10) as u8);
        out
    }
}

/// The decimal digits of a number, with zeros in front up to a width of 8.
pub fn decimal_padded_bytes(n: usize) -> (out: Vec<u8>)
    ensures
        out@ == decimal_padded(n as nat),
{
    let digits = decimal_bytes(n as u64);
    if digits.len() >= 8 {
        return digits;
    }
    let pad: usize = 8 - digits.len();
    let mut out: Vec<u8> = Vec::with_capacity(8);
    let mut i: usize = 0;
    while i < pad
        invariant
            i <= pad,
            out@ == Seq::new(i as nat, |k: int| 48u8),
        decreases pad - i,
    {
        out.push(48u8);
        assert(out@ =~= Seq::new((i + 1) as nat, |k: int| 48u8));
        i += 1;
    }
    out.extend_from_slice(digits.as_slice());
    out
}

/// Calls `String::from_utf8` of std, which accepts exactly the byte
/// strings that are valid UTF-8 and keeps the bytes.
#[verifier::external_body]
pub(crate) fn string_from_utf8(bytes: Vec<u8>) -> (out: Option<String>)
    ensures
        out.is_some() == valid_utf8(bytes@),
        out.is_some() ==> encode_utf8(out.unwrap()@) == bytes@,
{
    String::from_utf8(bytes).ok()
}

/// Whether two byte strings are equal.
pub fn bytes_eq(a: &[u8], b: &[u8]) -> (same: bool)
    ensures
        same == (a@ == b@),
{
    if a.len() != b.len() {
        return false;
    }
    let mut i: usize = 0;
    while i < a.len()
        invariant
            a@.len() == b@.len(),
            i <= a@.len(),
            forall|k: int| 0 <= k < i ==> a@[k] == b@[k],
        decreases a@.len() - i,
    {
        if a[i] != b[i] {
            return false;
        }
        i += 1;
    }
    assert(a@ =~= b@);
    true
}

/// The bytes of `line` from `from` on.
pub fn tail_bytes(line: &[u8], from: usize) -> (out: Vec<u8>)
    requires
        from <= line@.len(),
    ensures
        out@ == line@.subrange(from as int, line@.len() as int),
{
    let mut out: Vec<u8> = Vec::new();
    let mut i: usize = from;
    while i < line.len()
        invariant
            from <= i <= line@.len(),
            out@ == line@.subrange(from as int, i as int),
        decreases line@.len() - i,
    {
        out.push(line[i]);
        assert(out@ =~= line@.subrange(from as int, i + 1));
        i += 1;
    }
    out
}

/// What follows `prefix` in `line`, where `line` begins with it.
pub fn strip_prefix(line: &[u8], prefix: &[u8]) -> (rest: Option<Vec<u8>>)
    ensures
        rest.is_some() == has_prefix(line@, prefix@),
        rest.is_some() ==> rest.unwrap()@ == line@.subrange(
            prefix@.len() as int,
            line@.len() as int,
        ),
{
    if prefix.len() > line.len() {
        return None;
    }
    let mut i: usize = 0;
    while i < prefix.len()
        invariant
            prefix@.len() <= line@.len(),
            i <= prefix@.len(),
            forall|k: int| 0 <= k < i ==> line@[k] == prefix@[k],
        decreases prefix@.len() - i,
    {
        if line[i] != prefix[i] {
            assert(line@.subrange(0, prefix@.len() as int)[i as int] != prefix@[i as int]);
            return None;
        }
        i += 1;
    }
    assert(line@.subrange(0, prefix@.len() as int) =~= prefix@);
    Some(tail_bytes(line, prefix.len()))
}

/// A value read from digits is at least the value read from fewer of them.
pub proof fn lemma_digits_value_grows(s: Seq<u8>, k: int)
    requires
        0 <= k <= s.len(),
        digits_value(s).is_some(),
    ensures
        digits_value(s.subrange(0, k)).is_some(),
        digits_value(s.subrange(0, k)).unwrap() <= digits_value(s).unwrap(),
    decreases s.len(),
{
    if k == s.len() {
        assert(s.subrange(0, k) =~= s);
    } else {
        assert(s.drop_last().subrange(0, k) =~= s.subrange(0, k));
        lemma_digits_value_grows(s.drop_last(), k);
    }
}

/// A text with a byte that is no digit stands for no number.
pub proof fn lemma_digits_value_none(s: Seq<u8>, k: int)
    requires
        0 <= k < s.len(),
        !(48 <= s[k] <= 57),
    ensures
        digits_value(s).is_none(),
    decreases s.len(),
{
    if k < s.len() - 1 {
        lemma_digits_value_none(s.drop_last(), k);
    }
}

/// Reads a `u64` from decimal text.
pub fn parse_u64(s: &[u8]) -> (out: Option<u64>)
    ensures
        out == spec_parse_u64(s@),
{
    let start: usize = if s.len() > 0 && s[0] == 43 {
        1
    } else {
        0
    };
    let ghost d = unsigned_digits(s@);
    assert(d =~= s@.subrange(start as int, s@.len() as int));
    if start == s.len() {
        return None;
    }
    let mut acc: u64 = 0;
    let mut i: usize = start;
    while i < s.len()
        invariant
            start <= i <= s@.len(),
            d == s@.subrange(start as int, s@.len() as int),
            d == unsigned_digits(s@),
            digits_value(d.subrange(0, i - start)) == Some(acc as nat),
        decreases s@.len() - i,
    {
        let c = s[i];
        let ghost upto = d.subrange(0, i - start + 1);
        proof {
            assert(upto.drop_last() =~= d.subrange(0, i - start));
            assert(upto.last() == c);
        }
        if c < 48 || c > 57 {
            proof {
                lemma_digits_value_none(d, i - start);
            }
            return None;
        }
        let digit: u64 = (c - 48) as u64;
        if acc > (u64::MAX - digit) / 10 {
            proof {
                assert(digits_value(upto) == Some(acc as nat * 10 + digit as nat));
                assert(acc as nat * 10 + digit as nat > u64::MAX) by (nonlinear_arith)
                    requires
                        acc > (u64::MAX - digit) / 10,
                        digit < 10,
                ;
                if digits_value(d).is_some() {
                    lemma_digits_value_grows(d, i - start + 1);
                }
            }
            return None;
        }
        assert(acc * 10 + digit <= u64::MAX) by (nonlinear_arith)
            requires
                acc <= (u64::MAX - digit) / 10,
        ;
        acc = acc * 10 + digit;
        i += 1;
    }
    assert(d.subrange(0, i - start) =~= d);
    Some(acc)
}

/// Splits a text into its lines.
pub fn split_lines_bytes(text: &[u8]) -> (lines: Vec<Vec<u8>>)
    ensures
        byte_strings(lines@) == split_lines(text@),
{
    let mut lines: Vec<Vec<u8>> = Vec::new();
    let mut pos: usize = 0;
    assert(byte_strings(lines@) =~= Seq::<Seq<u8>>::empty());
    while pos < text.len()
        invariant
            pos <= text@.len(),
            split_lines(text@) == byte_strings(lines@) + lines_from(text@, pos as int),
        decreases text@.len() - pos,
    {
        let mut e: usize = pos;
        while e < text.len() && text[e] != 10
            invariant
                pos <= e <= text@.len(),
                line_end(text@, pos as int) == line_end(text@, e as int),
            decreases text@.len() - e,
        {
            e += 1;
        }
        let mut line: Vec<u8> = Vec::new();
        let mut k: usize = pos;
        while k < e
            invariant
                pos <= k <= e <= text@.len(),
                line@ == text@.subrange(pos as int, k as int),
            decreases e - k,
        {
            line.push(text[k]);
            assert(line@ =~= text@.subrange(pos as int, k + 1));
            k += 1;
        }
        if e < text.len() && line.len() > 0 && line[line.len() - 1] == 13 {
            line.pop();
            assert(line@ =~= text@.subrange(pos as int, e as int).drop_last());
        }
        assert(line@ == strip_return(text@.subrange(pos as int, e as int), e < text@.len()));
        let ghost before = byte_strings(lines@);
        lines.push(line);
        proof {
            assert(byte_strings(lines@) =~= before.push(line@));
            let next: int = if e < text@.len() {
                e + 1
            } else {
                e as int
            };
            assert(lines_from(text@, pos as int) =~= seq![line@] + lines_from(text@, next));
        }
        pos = if e < text.len() {
            e + 1
        } else {
            e
        };
    }
    assert(lines_from(text@, pos as int) =~= Seq::<Seq<u8>>::empty());
    lines
}

/// The array that holds the bytes of a slice of the same length.
pub fn array_from_slice<const N: usize>(bytes: &[u8]) -> (out: Option<[u8; N]>)
    ensures
        out.is_some() == (bytes@.len() == N),
        out.is_some() ==> out.unwrap()@ == bytes@,
{
    if bytes.len() != N {
        return None;
    }
    let mut out = [0u8; N];
    let mut i: usize = 0;
    while i < N
        invariant
            bytes@.len() == N,
            i <= N,
            forall|k: int| 0 <= k < i ==> out@[k] == bytes@[k],
        decreases N - i,
    {
        out[i] = bytes[i];
        i += 1;
    }
    assert(out@ =~= bytes@);
    Some(out)
}

} // verus!
