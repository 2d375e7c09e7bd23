//! The text form of the Ethereum KZG trusted setup (`trusted_setup.txt`).
//!
//! The text starts with two counts: `n`, the number of G1 points in each G1
//! basis, and `m`, the number of G2 monomial points. The remaining lines hold
//! compressed points in hex: `n` G1 lagrange-basis points, `m` G2 monomial
//! powers, then `n` G1 monomial powers.
use vstd::prelude::*;
use vstd::std_specs::iter::IteratorSpec;
use vstd::string::StringSliceAdditionalSpecFns;

use super::error::SetupFileError;
use crate::containers::data_availability::{spec_trim, trim_whitespace};
use crate::crypto::bls::{g1_decodes, g2_decodes, spec_g1_decodes, spec_g2_decodes};
use vstd::utf8::{encode_utf8, valid_utf8};

verus! {

/// Number of count lines at the start of the setup text.
pub const TEXT_HEADER_LINES: usize = 2;

/// A non-empty setup text line, trimmed, with its one-based line number.
#[derive(Debug, Clone, PartialEq, Eq)]
pub struct SetupTextLine {
    /// One-based source line number.
    pub line: usize,
    /// Trimmed setup text.
    pub text: String,
}

impl SetupTextLine {
    /// The line number and the characters of the text.
    pub open spec fn view_line(self) -> (nat, Seq<char>) {
        (self.line as nat, self.text@)
    }
}

/// The pieces of `s` between newline characters, in order: a text with `k`
/// newlines has `k + 1` pieces, the last of which may be empty.
pub open spec fn spec_split_newlines(s: Seq<char>) -> Seq<Seq<char>>
    decreases s.len(),
{
    if s.len() == 0 {
        seq![Seq::<char>::empty()]
    } else {
        let prev = spec_split_newlines(s.drop_last());
        if s.last() == '\n' {
            prev.push(Seq::<char>::empty())
        } else {
            prev.update(prev.len() - 1, prev.last().push(s.last()))
        }
    }
}

/// The pieces of `pieces` that are not blank once trimmed, each trimmed and
/// numbered by its one-based position.
pub open spec fn spec_numbered_lines(pieces: Seq<Seq<char>>) -> Seq<(nat, Seq<char>)>
    decreases pieces.len(),
{
    if pieces.len() == 0 {
        Seq::empty()
    } else {
        let prev = spec_numbered_lines(pieces.drop_last());
        let t = spec_trim(pieces.last());
        if t.len() == 0 {
            prev
        } else {
            prev.push((pieces.len(), t))
        }
    }
}

/// The numbered non-blank lines of a text. A line ends at `\n`; the `\r` of
/// a `\r\n` ending and a missing final line ending make no difference here,
/// since trimming removes the former and the latter only drops a blank line.
pub open spec fn spec_setup_text_lines(s: Seq<char>) -> Seq<(nat, Seq<char>)> {
    spec_numbered_lines(spec_split_newlines(s))
}

/// The numbered lines are in ascending line order, each numbered within the
/// pieces, and none of them is blank.
pub proof fn lemma_numbered_lines_ordered(pieces: Seq<Seq<char>>)
    ensures
        forall|i: int|
            0 <= i < spec_numbered_lines(pieces).len() ==> 1 <= (#[trigger] spec_numbered_lines(pieces)[i]).0
                <= pieces.len() && spec_numbered_lines(pieces)[i].1.len() > 0,
        forall|i: int, j: int|
            0 <= i < j < spec_numbered_lines(pieces).len() ==> (#[trigger] spec_numbered_lines(pieces)[i]).0
                < (#[trigger] spec_numbered_lines(pieces)[j]).0,
    decreases pieces.len(),
{
    if pieces.len() > 0 {
        lemma_numbered_lines_ordered(pieces.drop_last());
        let prev = spec_numbered_lines(pieces.drop_last());
        let t = spec_trim(pieces.last());
        let r = spec_numbered_lines(pieces);
        if t.len() > 0 {
            assert(r == prev.push((pieces.len(), t)));
            assert forall|i: int| 0 <= i < r.len() implies 1 <= (#[trigger] r[i]).0 <= pieces.len() && r[i].1.len()
                > 0 by {
                if i < prev.len() {
                    assert(r[i] == prev[i]);
                }
            }
            assert forall|i: int, j: int| 0 <= i < j < r.len() implies (#[trigger] r[i]).0 < (#[trigger] r[j]).0 by {
                assert(r[i] == prev[i]);
                if j < prev.len() {
                    assert(r[j] == prev[j]);
                }
            }
        }
    }
}

proof fn lemma_split_newlines_len(s: Seq<char>)
    ensures
        1 <= spec_split_newlines(s).len() <= s.len() + 1,
    decreases s.len(),
{
    if s.len() > 0 {
        lemma_split_newlines_len(s.drop_last());
    }
}

/// `String::from_iter` over `char`s: the documentation describes collecting
/// the characters, in order, into the `String` that holds them.
#[verifier::external_body]
fn string_from_chars(chars: Vec<char>) -> (r: String)
    ensures
        r@ == chars@,
{
    String::from_iter(chars)
}

/// Append the trimmed `piece`, numbered `number`, unless it is blank.
fn push_numbered_line(out: &mut Vec<SetupTextLine>, piece: Vec<char>, number: usize)
    ensures
        final(out)@.map_values(|l: SetupTextLine| l.view_line()) == (if spec_trim(piece@).len() == 0 {
            old(out)@.map_values(|l: SetupTextLine| l.view_line())
        } else {
            old(out)@.map_values(|l: SetupTextLine| l.view_line()).push((number as nat, spec_trim(piece@)))
        }),
{
    let ghost before = old(out)@.map_values(|l: SetupTextLine| l.view_line());
    let s = string_from_chars(piece);
    let t = trim_whitespace(s.as_str());
    if !t.is_empty() {
        let line = SetupTextLine { line: number, text: t.to_owned() };
        out.push(line);
        assert(out@.map_values(|l: SetupTextLine| l.view_line()) =~= before.push(
            (number as nat, spec_trim(piece@)),
        ));
    } else {
        assert(out@.map_values(|l: SetupTextLine| l.view_line()) =~= before);
    }
}

/// Normalise setup text into its trimmed non-blank lines with one-based
/// line numbers.
pub fn setup_text_lines(text: &str) -> (r: Vec<SetupTextLine>)
    ensures
        r@.map_values(|l: SetupTextLine| l.view_line()) == spec_setup_text_lines(text@),
{
    let n = text.unicode_len();
    let mut it = text.chars();
    let mut out: Vec<SetupTextLine> = Vec::new();
    let mut current: Vec<char> = Vec::new();
    let mut completed: usize = 0;
    let mut pos: usize = 0;
    let ghost mut done: Seq<Seq<char>> = Seq::empty();
    proof {
        assert(it.remaining() == text@);
        assert(text@.subrange(0, 0) =~= Seq::<char>::empty());
        assert(text@.subrange(0, n as int) =~= text@);
        assert(out@.map_values(|l: SetupTextLine| l.view_line()) =~= Seq::<(nat, Seq<char>)>::empty());
    }
    while pos < n
        invariant
            n == text@.len(),
            pos <= n,
            it.obeys_prophetic_iter_laws(),
            it.remaining() == text@.subrange(pos as int, n as int),
            spec_split_newlines(text@.subrange(0, pos as int)) == done.push(current@),
            completed == done.len(),
            completed <= pos,
            current@.len() > 0 ==> completed < pos,
            out@.map_values(|l: SetupTextLine| l.view_line()) == spec_numbered_lines(done),
        decreases n - pos,
    {
        let ghost prefix = text@.subrange(0, pos as int);
        let ghost next_prefix = text@.subrange(0, pos + 1);
        let next = it.next();
        assert(next == Some(text@[pos as int]));
        if let Some(c) = next {
            proof {
                assert(next_prefix.drop_last() =~= prefix);
                assert(next_prefix.last() == c);
            }
            if c == '\n' {
                let piece = current;
                current = Vec::new();
                completed = completed + 1;
                push_numbered_line(&mut out, piece, completed);
                proof {
                    let pieces = done.push(piece@);
                    assert(pieces.drop_last() =~= done);
                    done = pieces;
                    assert(spec_split_newlines(next_prefix) =~= done.push(current@));
                }
            } else {
                current.push(c);
                proof {
                    assert(spec_split_newlines(next_prefix) =~= done.push(current@));
                }
            }
            pos = pos + 1;
            proof {
                assert(it.remaining() =~= text@.subrange(pos as int, n as int));
            }
        }
    }
    proof {
        assert(text@.subrange(0, n as int) =~= text@);
        lemma_split_newlines_len(text@);
    }
    let ghost all = done.push(current@);
    if current.len() > 0 {
        let number = completed + 1;
        push_numbered_line(&mut out, current, number);
        assert(all.drop_last() =~= done);
    } else {
        assert(all.drop_last() =~= done);
        assert(spec_trim(Seq::<char>::empty()) =~= Seq::<char>::empty());
    }
    out
}

/// What reading the decimal digits `digits` gives, digit by digit from the
/// left: the first byte that is not a digit makes the count invalid, and the
/// first digit that takes the value past `usize::MAX` makes it overflow.
pub open spec fn spec_count_digits(digits: Seq<u8>, line: usize) -> Result<usize, SetupFileError>
    decreases digits.len(),
{
    if digits.len() == 0 {
        Ok(0)
    } else {
        match spec_count_digits(digits.drop_last(), line) {
            Err(e) => Err(e),
            Ok(v) => {
                let b = digits.last();
                if !(0x30 <= b <= 0x39) {
                    Err(SetupFileError::InvalidTextCount { line })
                } else if v * 10 + (b - 0x30) > usize::MAX {
                    Err(SetupFileError::TextCountOverflow { line })
                } else {
                    Ok((v * 10 + (b - 0x30)) as usize)
                }
            },
        }
    }
}

/// What parsing the bytes of a count line as a `usize` gives: an optional
/// leading `+`, then at least one decimal digit.
pub open spec fn spec_parse_text_count(bytes: Seq<u8>, line: usize) -> Result<usize, SetupFileError> {
    let digits = if bytes.len() > 0 && bytes[0] == 0x2bu8 {
        bytes.subrange(1, bytes.len() as int)
    } else {
        bytes
    };
    if digits.len() == 0 {
        Err(SetupFileError::InvalidTextCount { line })
    } else {
        spec_count_digits(digits, line)
    }
}

/// Parse a setup count line.
pub fn parse_text_count(text: &str, line: usize) -> (r: Result<usize, SetupFileError>)
    ensures
        r == spec_parse_text_count(text.spec_bytes(), line),
{
    let bytes = text.as_bytes();
    let n = bytes.len();
    let start: usize = if n > 0 && bytes[0] == 0x2bu8 {
        1
    } else {
        0
    };
    let ghost digits = bytes@.subrange(start as int, n as int);
    proof {
        assert(start == 0 ==> digits =~= bytes@);
    }
    if start == n {
        return Err(SetupFileError::InvalidTextCount { line });
    }
    let mut value: usize = 0;
    let mut i: usize = start;
    proof {
        assert(digits.subrange(0, 0) =~= Seq::<u8>::empty());
    }
    while i < n
        invariant
            start <= i <= n,
            n == bytes@.len(),
            digits == bytes@.subrange(start as int, n as int),
            spec_parse_text_count(text.spec_bytes(), line) == spec_count_digits(digits, line),
            spec_count_digits(digits.subrange(0, i - start), line) == Ok::<usize, SetupFileError>(value),
        decreases n - i,
    {
        let b = bytes[i];
        let ghost next = digits.subrange(0, i + 1 - start);
        proof {
            assert(next.drop_last() =~= digits.subrange(0, i - start));
            assert(next.last() == b);
        }
        if !(0x30u8 <= b && b <= 0x39u8) {
            proof {
                assert(spec_count_digits(next, line) == Err::<usize, SetupFileError>(
                    SetupFileError::InvalidTextCount { line },
                ));
                lemma_count_digits_error_sticks(digits, (i + 1 - start) as nat, line);
            }
            assert(digits.subrange(0, digits.len() as int) =~= digits);
            return Err(SetupFileError::InvalidTextCount { line });
        }
        let d = (b - 0x30u8) as usize;
        match value.checked_mul(10) {
            None => {
                proof {
                    assert(spec_count_digits(next, line) == Err::<usize, SetupFileError>(
                        SetupFileError::TextCountOverflow { line },
                    ));
                    lemma_count_digits_error_sticks(digits, (i + 1 - start) as nat, line);
                }
                assert(digits.subrange(0, digits.len() as int) =~= digits);
                return Err(SetupFileError::TextCountOverflow { line });
            },
            Some(m) => match m.checked_add(d) {
                None => {
                    proof {
                        assert(spec_count_digits(next, line) == Err::<usize, SetupFileError>(
                            SetupFileError::TextCountOverflow { line },
                        ));
                        lemma_count_digits_error_sticks(digits, (i + 1 - start) as nat, line);
                    }
                    assert(digits.subrange(0, digits.len() as int) =~= digits);
                    return Err(SetupFileError::TextCountOverflow { line });
                },
                Some(v) => {
                    value = v;
                },
            },
        }
        i = i + 1;
    }
    assert(digits.subrange(0, n - start) =~= digits);
    Ok(value)
}

/// Once a prefix of the digits fails, the whole fails the same way.
proof fn lemma_count_digits_error_sticks(digits: Seq<u8>, k: nat, line: usize)
    requires
        k <= digits.len(),
        spec_count_digits(digits.subrange(0, k as int), line) is Err,
    ensures
        spec_count_digits(digits, line) == spec_count_digits(digits.subrange(0, k as int), line),
    decreases digits.len() - k,
{
    if k < digits.len() {
        let next = digits.subrange(0, k + 1 as int);
        assert(next.drop_last() =~= digits.subrange(0, k as int));
        lemma_count_digits_error_sticks(digits, k + 1, line);
    } else {
        assert(digits.subrange(0, k as int) =~= digits);
    }
}

/// The value of one ASCII hex digit, if `b` is one.
pub open spec fn spec_hex_nibble(b: u8) -> Option<u8> {
    if 0x30 <= b <= 0x39 {
        Some((b - 0x30) as u8)
    } else if 0x61 <= b <= 0x66 {
        Some((b - 0x61 + 10) as u8)
    } else if 0x41 <= b <= 0x46 {
        Some((b - 0x41 + 10) as u8)
    } else {
        None
    }
}

/// Convert one ASCII hex byte to its nibble value.
pub fn hex_value(byte: u8, line: usize) -> (r: Result<u8, SetupFileError>)
    ensures
        r == (match spec_hex_nibble(byte) {
            Some(v) => Ok::<u8, SetupFileError>(v),
            None => Err(SetupFileError::InvalidHexCharacter { line, value: byte as char }),
        }),
{
    if 0x30u8 <= byte && byte <= 0x39u8 {
        Ok(byte - 0x30u8)
    } else if 0x61u8 <= byte && byte <= 0x66u8 {
        Ok(byte - 0x61u8 + 10)
    } else if 0x41u8 <= byte && byte <= 0x46u8 {
        Ok(byte - 0x41u8 + 10)
    } else {
        Err(SetupFileError::InvalidHexCharacter { line, value: byte as char })
    }
}

/// The bytes of a hex line without a leading `0x`.
pub open spec fn spec_strip_hex_prefix(bytes: Seq<u8>) -> Seq<u8> {
    if bytes.len() >= 2 && bytes[0] == 0x30u8 && bytes[1] == 0x78u8 {
        bytes.subrange(2, bytes.len() as int)
    } else {
        bytes
    }
}

/// Decode the first `k` digit pairs of `digits`, reading left to right and
/// stopping at the first byte that is not a hex digit.
pub open spec fn spec_decode_hex_pairs(digits: Seq<u8>, k: nat, line: usize) -> Result<Seq<u8>, SetupFileError>
    decreases k,
{
    if k == 0 {
        Ok(Seq::empty())
    } else {
        match spec_decode_hex_pairs(digits, (k - 1) as nat, line) {
            Err(e) => Err(e),
            Ok(v) => {
                let hi = digits[2 * k - 2];
                let lo = digits[2 * k - 1];
                match (spec_hex_nibble(hi), spec_hex_nibble(lo)) {
                    (None, _) => Err(SetupFileError::InvalidHexCharacter { line, value: hi as char }),
                    (Some(_), None) => Err(SetupFileError::InvalidHexCharacter { line, value: lo as char }),
                    (Some(h), Some(l)) => Ok(v.push((h * 16 + l) as u8)),
                }
            },
        }
    }
}

/// What decoding a compressed point line of `expected_bytes` bytes gives.
pub open spec fn spec_parse_hex_line(bytes: Seq<u8>, line: usize, expected_bytes: usize) -> Result<Seq<u8>, SetupFileError> {
    let digits = spec_strip_hex_prefix(bytes);
    if expected_bytes * 2 > usize::MAX {
        Err(SetupFileError::SizeOverflow)
    } else if digits.len() != expected_bytes * 2 {
        Err(SetupFileError::InvalidHexLength {
            line,
            expected: (expected_bytes * 2) as usize,
            got: digits.len() as usize,
        })
    } else {
        spec_decode_hex_pairs(digits, expected_bytes as nat, line)
    }
}

/// Decode one compressed point line from hex.
pub fn parse_hex_line(text: &str, line: usize, expected_bytes: usize) -> (r: Result<Vec<u8>, SetupFileError>)
    ensures
        match spec_parse_hex_line(text.spec_bytes(), line, expected_bytes) {
            Ok(v) => r matches Ok(w) && w@ == v,
            Err(e) => r == Err::<Vec<u8>, SetupFileError>(e),
        },
{
    let bytes = text.as_bytes();
    let n = bytes.len();
    let start: usize = if n >= 2 && bytes[0] == 0x30u8 && bytes[1] == 0x78u8 {
        2
    } else {
        0
    };
    let ghost digits = spec_strip_hex_prefix(bytes@);
    proof {
        assert(digits =~= bytes@.subrange(start as int, n as int));
    }
    let expected = match expected_bytes.checked_mul(2) {
        Some(e) => e,
        None => {
            return Err(SetupFileError::SizeOverflow);
        },
    };
    if n - start != expected {
        return Err(SetupFileError::InvalidHexLength { line, expected, got: n - start });
    }
    let mut out: Vec<u8> = Vec::new();
    let mut k: usize = 0;
    while k < expected_bytes
        invariant
            k <= expected_bytes,
            expected == expected_bytes * 2,
            n - start == expected,
            n == bytes@.len(),
            digits == bytes@.subrange(start as int, n as int),
            spec_parse_hex_line(text.spec_bytes(), line, expected_bytes) == spec_decode_hex_pairs(
                digits,
                expected_bytes as nat,
                line,
            ),
            spec_decode_hex_pairs(digits, k as nat, line) == Ok::<Seq<u8>, SetupFileError>(out@),
        decreases expected_bytes - k,
    {
        let hi_byte = bytes[start + 2 * k];
        let lo_byte = bytes[start + 2 * k + 1];
        assert(hi_byte == digits[2 * (k + 1) - 2]);
        assert(lo_byte == digits[2 * (k + 1) - 1]);
        let high = match hex_value(hi_byte, line) {
            Ok(h) => h,
            Err(e) => {
                proof {
                    assert(spec_decode_hex_pairs(digits, (k + 1) as nat, line) == Err::<Seq<u8>, SetupFileError>(e));
                    lemma_decode_hex_error_sticks(digits, (k + 1) as nat, expected_bytes as nat, line);
                }
                return Err(e);
            },
        };
        let low = match hex_value(lo_byte, line) {
            Ok(l) => l,
            Err(e) => {
                proof {
                    assert(spec_decode_hex_pairs(digits, (k + 1) as nat, line) == Err::<Seq<u8>, SetupFileError>(e));
                    lemma_decode_hex_error_sticks(digits, (k + 1) as nat, expected_bytes as nat, line);
                }
                return Err(e);
            },
        };
        assert((high << 4u8) | low == high * 16 + low) by (bit_vector)
            requires
                high < 16,
                low < 16,
        ;
        out.push((high << 4u8) | low);
        k = k + 1;
    }
    Ok(out)
}

/// Decoding `k` pairs gives `k` bytes.
proof fn lemma_decode_hex_pairs_len(digits: Seq<u8>, k: nat, line: usize)
    ensures
        spec_decode_hex_pairs(digits, k, line) matches Ok(v) ==> v.len() == k,
    decreases k,
{
    if k > 0 {
        lemma_decode_hex_pairs_len(digits, (k - 1) as nat, line);
    }
}

/// A decoded hex line has the expected number of bytes.
pub proof fn lemma_parse_hex_line_len(bytes: Seq<u8>, line: usize, size: usize)
    ensures
        spec_parse_hex_line(bytes, line, size) matches Ok(v) ==> v.len() == size,
{
    lemma_decode_hex_pairs_len(spec_strip_hex_prefix(bytes), size as nat, line);
}

/// Once the first `k` pairs fail to decode, so do the first `m >= k`.
proof fn lemma_decode_hex_error_sticks(digits: Seq<u8>, k: nat, m: nat, line: usize)
    requires
        k <= m,
        spec_decode_hex_pairs(digits, k, line) is Err,
    ensures
        spec_decode_hex_pairs(digits, m, line) == spec_decode_hex_pairs(digits, k, line),
    decreases m - k,
{
    if k < m {
        lemma_decode_hex_error_sticks(digits, k, (m - 1) as nat, line);
    }
}


/// Bytes of a compressed G1 point.
pub const G1_COMPRESSED_BYTES: usize = 48;

/// Bytes of a compressed G2 point.
pub const G2_COMPRESSED_BYTES: usize = 96;

/// The powers of tau of the trusted setup, each a compressed point that the
/// curve library decodes.
#[derive(Debug, Clone, Default, PartialEq, Eq)]
pub struct EthereumTrustedSetup {
    /// G1 lagrange-basis points `[ell_i(tau)]_1`.
    pub g1_lagrange: Vec<[u8; 48]>,
    /// G2 monomial powers `[tau^i]_2`.
    pub g2_monomial: Vec<[u8; 96]>,
    /// G1 monomial powers `[tau^i]_1`.
    pub g1_monomial: Vec<[u8; 48]>,
}

/// Compressed points as byte sequences.
pub open spec fn spec_points48(points: Seq<[u8; 48]>) -> Seq<Seq<u8>> {
    points.map_values(|p: [u8; 48]| p@)
}

/// Compressed points as byte sequences.
pub open spec fn spec_points96(points: Seq<[u8; 96]>) -> Seq<Seq<u8>> {
    points.map_values(|p: [u8; 96]| p@)
}

/// Decoding the points on lines `start..start + n`: each line is a hex
/// encoding of a compressed point of `size` bytes that must decode in G1
/// (`g1`) or G2.
pub open spec fn spec_parse_points(
    lines: Seq<(nat, Seq<char>)>,
    start: nat,
    n: nat,
    size: usize,
    g1: bool,
) -> Result<Seq<Seq<u8>>, SetupFileError>
    decreases n,
{
    if n == 0 {
        Ok(Seq::empty())
    } else {
        match spec_parse_points(lines, start, (n - 1) as nat, size, g1) {
            Err(e) => Err(e),
            Ok(points) => {
                let (line, text) = lines[start + n - 1];
                match spec_parse_hex_line(encode_utf8(text), line as usize, size) {
                    Err(e) => Err(e),
                    Ok(bytes) => if g1 && !spec_g1_decodes(bytes) {
                        Err(SetupFileError::InvalidG1Point { line: line as usize })
                    } else if !g1 && !spec_g2_decodes(bytes) {
                        Err(SetupFileError::InvalidG2Point { line: line as usize })
                    } else {
                        Ok(points.push(bytes))
                    },
                }
            },
        }
    }
}

/// What parsing setup text gives: two count lines `n` and `m`, then exactly
/// `n` G1 lagrange points, `m` G2 monomial points and `n` G1 monomial
/// points.
pub open spec fn spec_parse_setup(text: Seq<char>) -> Result<
    (Seq<Seq<u8>>, Seq<Seq<u8>>, Seq<Seq<u8>>),
    SetupFileError,
> {
    let lines = spec_setup_text_lines(text);
    if lines.len() < TEXT_HEADER_LINES {
        Err(SetupFileError::InvalidTextLineCount { expected: TEXT_HEADER_LINES, got: lines.len() as usize })
    } else {
        match spec_parse_text_count(encode_utf8(lines[0].1), lines[0].0 as usize) {
            Err(e) => Err(e),
            Ok(g1_count) => match spec_parse_text_count(encode_utf8(lines[1].1), lines[1].0 as usize) {
                Err(e) => Err(e),
                Ok(g2_count) => {
                    let expected = g1_count * 2 + g2_count + TEXT_HEADER_LINES;
                    if expected > usize::MAX {
                        Err(SetupFileError::SizeOverflow)
                    } else if lines.len() != expected {
                        Err(SetupFileError::InvalidTextLineCount { expected: expected as usize, got: lines.len() as usize })
                    } else {
                        let g2_start = TEXT_HEADER_LINES + g1_count;
                        let g1m_start = g2_start + g2_count;
                        match spec_parse_points(lines, TEXT_HEADER_LINES as nat, g1_count as nat, G1_COMPRESSED_BYTES, true) {
                            Err(e) => Err(e),
                            Ok(g1_lagrange) => match spec_parse_points(
                                lines,
                                g2_start as nat,
                                g2_count as nat,
                                G2_COMPRESSED_BYTES,
                                false,
                            ) {
                                Err(e) => Err(e),
                                Ok(g2_monomial) => match spec_parse_points(
                                    lines,
                                    g1m_start as nat,
                                    g1_count as nat,
                                    G1_COMPRESSED_BYTES,
                                    true,
                                ) {
                                    Err(e) => Err(e),
                                    Ok(g1_monomial) => Ok((g1_lagrange, g2_monomial, g1_monomial)),
                                },
                            },
                        }
                    }
                },
            },
        }
    }
}

/// Once decoding a prefix of the lines fails, decoding more fails the same way.
proof fn lemma_parse_points_error_sticks(
    lines: Seq<(nat, Seq<char>)>,
    start: nat,
    k: nat,
    m: nat,
    size: usize,
    g1: bool,
)
    requires
        k <= m,
        spec_parse_points(lines, start, k, size, g1) is Err,
    ensures
        spec_parse_points(lines, start, m, size, g1) == spec_parse_points(lines, start, k, size, g1),
    decreases m - k,
{
    if k < m {
        lemma_parse_points_error_sticks(lines, start, k, (m - 1) as nat, size, g1);
    }
}

/// Parse the compressed G1 points on lines `start..end`.
pub fn parse_g1_range(lines: &[SetupTextLine], start: usize, end: usize) -> (r: Result<Vec<[u8; 48]>, SetupFileError>)
    requires
        start <= end <= lines@.len(),
    ensures
        match spec_parse_points(
            lines@.map_values(|l: SetupTextLine| l.view_line()),
            start as nat,
            (end - start) as nat,
            G1_COMPRESSED_BYTES,
            true,
        ) {
            Ok(points) => r matches Ok(v) && spec_points48(v@) == points,
            Err(e) => r == Err::<Vec<[u8; 48]>, SetupFileError>(e),
        },
{
    let ghost view = lines@.map_values(|l: SetupTextLine| l.view_line());
    let mut powers: Vec<[u8; 48]> = Vec::new();
    let mut index = start;
    proof {
        assert(spec_points48(powers@) =~= Seq::<Seq<u8>>::empty());
    }
    while index < end
        invariant
            start <= index <= end <= lines@.len(),
            view == lines@.map_values(|l: SetupTextLine| l.view_line()),
            spec_parse_points(view, start as nat, (index - start) as nat, G1_COMPRESSED_BYTES, true) == Ok::<
                Seq<Seq<u8>>,
                SetupFileError,
            >(spec_points48(powers@)),
        decreases end - index,
    {
        let line = lines[index].line;
        let ghost k = (index + 1 - start) as nat;
        assert(view[start + k - 1] == (line as nat, lines[index as int].text@));
        let text = lines[index].text.as_str();
        proof {
            lemma_parse_hex_line_len(text.spec_bytes(), line, G1_COMPRESSED_BYTES);
            assert(text.spec_bytes() == encode_utf8(view[index as int].1));
        }
        let bytes = match parse_hex_line(text, line, G1_COMPRESSED_BYTES) {
            Ok(b) => b,
            Err(e) => {
                proof {
                    lemma_parse_points_error_sticks(view, start as nat, k, (end - start) as nat, G1_COMPRESSED_BYTES, true);
                }
                return Err(e);
            },
        };
        let mut point = [0u8; 48];
        let mut t: usize = 0;
        while t < 48
            invariant
                t <= 48,
                bytes@.len() == 48,
                point@.len() == 48,
                forall|u: int| 0 <= u < t ==> point@[u] == bytes@[u],
            decreases 48 - t,
        {
            point[t] = bytes[t];
            t = t + 1;
        }
        assert(point@ =~= bytes@);
        if !g1_decodes(&point) {
            proof {
                lemma_parse_points_error_sticks(view, start as nat, k, (end - start) as nat, G1_COMPRESSED_BYTES, true);
            }
            return Err(SetupFileError::InvalidG1Point { line });
        }
        let ghost before = spec_points48(powers@);
        powers.push(point);
        proof {
            assert(spec_points48(powers@) =~= before.push(point@));
            assert(((k - 1) as nat) == (index - start) as nat);
            assert(spec_parse_points(view, start as nat, (k - 1) as nat, G1_COMPRESSED_BYTES, true) == Ok::<
                Seq<Seq<u8>>,
                SetupFileError,
            >(before));
            assert(view[start + k - 1] == view[index as int]);
            assert(spec_parse_points(view, start as nat, k, G1_COMPRESSED_BYTES, true) == Ok::<
                Seq<Seq<u8>>,
                SetupFileError,
            >(before.push(bytes@)));
        }
        index = index + 1;
    }
    Ok(powers)
}

/// Parse the compressed G2 points on lines `start..end`.
pub fn parse_g2_range(lines: &[SetupTextLine], start: usize, end: usize) -> (r: Result<Vec<[u8; 96]>, SetupFileError>)
    requires
        start <= end <= lines@.len(),
    ensures
        match spec_parse_points(
            lines@.map_values(|l: SetupTextLine| l.view_line()),
            start as nat,
            (end - start) as nat,
            G2_COMPRESSED_BYTES,
            false,
        ) {
            Ok(points) => r matches Ok(v) && spec_points96(v@) == points,
            Err(e) => r == Err::<Vec<[u8; 96]>, SetupFileError>(e),
        },
{
    let ghost view = lines@.map_values(|l: SetupTextLine| l.view_line());
    let mut powers: Vec<[u8; 96]> = Vec::new();
    let mut index = start;
    proof {
        assert(spec_points96(powers@) =~= Seq::<Seq<u8>>::empty());
    }
    while index < end
        invariant
            start <= index <= end <= lines@.len(),
            view == lines@.map_values(|l: SetupTextLine| l.view_line()),
            spec_parse_points(view, start as nat, (index - start) as nat, G2_COMPRESSED_BYTES, false) == Ok::<
                Seq<Seq<u8>>,
                SetupFileError,
            >(spec_points96(powers@)),
        decreases end - index,
    {
        let line = lines[index].line;
        let ghost k = (index + 1 - start) as nat;
        assert(view[start + k - 1] == (line as nat, lines[index as int].text@));
        let text = lines[index].text.as_str();
        proof {
            lemma_parse_hex_line_len(text.spec_bytes(), line, G2_COMPRESSED_BYTES);
            assert(text.spec_bytes() == encode_utf8(view[index as int].1));
        }
        let bytes = match parse_hex_line(text, line, G2_COMPRESSED_BYTES) {
            Ok(b) => b,
            Err(e) => {
                proof {
                    lemma_parse_points_error_sticks(view, start as nat, k, (end - start) as nat, G2_COMPRESSED_BYTES, false);
                }
                return Err(e);
            },
        };
        let mut point = [0u8; 96];
        let mut t: usize = 0;
        while t < 96
            invariant
                t <= 96,
                bytes@.len() == 96,
                point@.len() == 96,
                forall|u: int| 0 <= u < t ==> point@[u] == bytes@[u],
            decreases 96 - t,
        {
            point[t] = bytes[t];
            t = t + 1;
        }
        assert(point@ =~= bytes@);
        if !g2_decodes(&point) {
            proof {
                lemma_parse_points_error_sticks(view, start as nat, k, (end - start) as nat, G2_COMPRESSED_BYTES, false);
            }
            return Err(SetupFileError::InvalidG2Point { line });
        }
        let ghost before = spec_points96(powers@);
        powers.push(point);
        proof {
            assert(spec_points96(powers@) =~= before.push(point@));
            assert(((k - 1) as nat) == (index - start) as nat);
            assert(spec_parse_points(view, start as nat, (k - 1) as nat, G2_COMPRESSED_BYTES, false) == Ok::<
                Seq<Seq<u8>>,
                SetupFileError,
            >(before));
            assert(view[start + k - 1] == view[index as int]);
            assert(spec_parse_points(view, start as nat, k, G2_COMPRESSED_BYTES, false) == Ok::<
                Seq<Seq<u8>>,
                SetupFileError,
            >(before.push(bytes@)));
        }
        index = index + 1;
    }
    Ok(powers)
}

impl EthereumTrustedSetup {
    /// Parse the setup text: two counts `n` and `m`, then `n` G1 lagrange
    /// points, `m` G2 monomial points and `n` G1 monomial points, each a hex
    /// line of a compressed point.
    pub fn parse(text: &str) -> (r: Result<Self, SetupFileError>)
        ensures
            match spec_parse_setup(text@) {
                Ok((g1l, g2m, g1m)) => r matches Ok(s) && spec_points48(s.g1_lagrange@) == g1l && spec_points96(
                    s.g2_monomial@,
                ) == g2m && spec_points48(s.g1_monomial@) == g1m,
                Err(e) => r == Err::<Self, SetupFileError>(e),
            },
    {
        let lines = setup_text_lines(text);
        let ghost view = lines@.map_values(|l: SetupTextLine| l.view_line());
        assert(view == spec_setup_text_lines(text@));
        if lines.len() < TEXT_HEADER_LINES {
            return Err(SetupFileError::InvalidTextLineCount { expected: TEXT_HEADER_LINES, got: lines.len() });
        }
        assert(view[0] == (lines@[0].line as nat, lines@[0].text@));
        assert(view[1] == (lines@[1].line as nat, lines@[1].text@));
        let g1_count = parse_text_count(lines[0].text.as_str(), lines[0].line)?;
        let g2_count = parse_text_count(lines[1].text.as_str(), lines[1].line)?;
        let expected_lines = match g1_count.checked_mul(2) {
            Some(a) => match a.checked_add(g2_count) {
                Some(b) => match b.checked_add(TEXT_HEADER_LINES) {
                    Some(c) => c,
                    None => return Err(SetupFileError::SizeOverflow),
                },
                None => return Err(SetupFileError::SizeOverflow),
            },
            None => return Err(SetupFileError::SizeOverflow),
        };
        if lines.len() != expected_lines {
            return Err(SetupFileError::InvalidTextLineCount { expected: expected_lines, got: lines.len() });
        }
        let g1_lagrange_start = TEXT_HEADER_LINES;
        let g2_monomial_start = g1_lagrange_start + g1_count;
        let g1_monomial_start = g2_monomial_start + g2_count;
        let g1_monomial_end = g1_monomial_start + g1_count;
        let g1_lagrange = parse_g1_range(lines.as_slice(), g1_lagrange_start, g2_monomial_start)?;
        let g2_monomial = parse_g2_range(lines.as_slice(), g2_monomial_start, g1_monomial_start)?;
        let g1_monomial = parse_g1_range(lines.as_slice(), g1_monomial_start, g1_monomial_end)?;
        Ok(EthereumTrustedSetup { g1_lagrange, g2_monomial, g1_monomial })
    }

    /// G1 lagrange-basis powers.
    pub fn g1_lagrange_powers(&self) -> (r: &[[u8; 48]])
        ensures
            r@ == self.g1_lagrange@,
    {
        self.g1_lagrange.as_slice()
    }

    /// G1 monomial powers `[tau^i]_1`.
    pub fn g1_monomial_powers(&self) -> (r: &[[u8; 48]])
        ensures
            r@ == self.g1_monomial@,
    {
        self.g1_monomial.as_slice()
    }

    /// G2 monomial powers `[tau^i]_2`.
    pub fn g2_monomial_powers(&self) -> (r: &[[u8; 96]])
        ensures
            r@ == self.g2_monomial@,
    {
        self.g2_monomial.as_slice()
    }

    /// The monomial powers KZG commitments use.
    pub fn into_monomial_powers(self) -> (r: (Vec<[u8; 48]>, Vec<[u8; 96]>))
        ensures
            r.0@ == self.g1_monomial@,
            r.1@ == self.g2_monomial@,
    {
        (self.g1_monomial, self.g2_monomial)
    }
}

/// Parse G1 and G2 monomial powers from setup text.
pub fn get_powers_from_text(text: &str) -> (r: Result<(Vec<[u8; 48]>, Vec<[u8; 96]>), SetupFileError>)
    ensures
        match spec_parse_setup(text@) {
            Ok((_, g2m, g1m)) => r matches Ok(p) && spec_points48(p.0@) == g1m && spec_points96(p.1@) == g2m,
            Err(e) => r == Err::<(Vec<[u8; 48]>, Vec<[u8; 96]>), SetupFileError>(e),
        },
{
    Ok(EthereumTrustedSetup::parse(text)?.into_monomial_powers())
}

/// `std::str::from_utf8`: the documentation says it succeeds exactly on
/// valid UTF-8, giving the string of those bytes, and otherwise reports how
/// many leading bytes were valid and, when known, the length of the invalid
/// sequence.
#[verifier::external_body]
fn str_from_utf8(bytes: &[u8]) -> (r: Result<&str, (usize, Option<usize>)>)
    ensures
        r is Ok <==> valid_utf8(bytes@),
        r matches Ok(s) ==> s.spec_bytes() == bytes@,
        r matches Err(e) ==> e.0 <= bytes@.len(),
{
    std::str::from_utf8(bytes).map_err(|e| (e.valid_up_to(), e.error_len()))
}

/// Parse G1 and G2 monomial powers from the bytes of setup text, which must
/// be UTF-8.
pub fn get_powers_from_bytes(file_data: &[u8]) -> (r: Result<(Vec<[u8; 48]>, Vec<[u8; 96]>), SetupFileError>)
    ensures
        !valid_utf8(file_data@) ==> (r matches Err(SetupFileError::InvalidUtf8 { valid_up_to, .. })
            && valid_up_to <= file_data@.len()),
        valid_utf8(file_data@) ==> exists|text: Seq<char>|
            encode_utf8(text) == file_data@ && match spec_parse_setup(text) {
                Ok((_, g2m, g1m)) => r matches Ok(p) && spec_points48(p.0@) == g1m && spec_points96(p.1@) == g2m,
                Err(e) => r == Err::<(Vec<[u8; 48]>, Vec<[u8; 96]>), SetupFileError>(e),
            },
{
    let text = match str_from_utf8(file_data) {
        Ok(t) => t,
        Err((valid_up_to, error_len)) => return Err(SetupFileError::InvalidUtf8 { valid_up_to, error_len }),
    };
    get_powers_from_text(text)
}

} // verus!
