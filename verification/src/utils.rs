//! Small utilities: hexadecimal decoding and encoding of byte strings, and a
//! wrapper that orders arbitrary objects by a separate priority.

use core::num::ParseIntError;
use std::cmp::Ordering;
use vstd::prelude::*;
use vstd::std_specs::cmp::{OrdSpec, PartialEqSpec, PartialEqSpecImpl, PartialOrdSpecImpl};
use vstd::std_specs::convert::FromSpecImpl;
use vstd::string::{is_ascii, StrSliceExecFns, StringExecFns, StringSliceAdditionalSpecFns};
use vstd::utf8::{
    encode_utf8_valid_utf8, is_ascii_chars, is_ascii_chars_encode_utf8, is_char_boundary,
    is_char_boundary_iff_not_is_continuation_byte, is_char_boundary_start_end_of_seq, valid_utf8,
};

verus! {

/// The error that the standard integer parsers return. Nothing is known of
/// its contents here; it is only carried to the caller.
#[verifier::external_type_specification]
#[verifier::external_body]
pub struct ExParseIntError(ParseIntError);

/// `ParseIntError::clone` returns a copy of the error.
pub assume_specification[ <ParseIntError as Clone>::clone ](e: &ParseIntError) -> (r: ParseIntError)
    ensures
        r == *e,
;

/// Why a string is not the hexadecimal form of a byte string.
#[derive(Debug, Clone, PartialEq, Eq)]
pub enum DecodeHexError {
    /// The input has an odd number of bytes.
    OddLength,
    /// A pair of input bytes is not a hexadecimal number.
    ParseInt(ParseIntError),
}

impl From<ParseIntError> for DecodeHexError {
    fn from(e: ParseIntError) -> (r: DecodeHexError) {
        DecodeHexError::ParseInt(e)
    }
}

impl FromSpecImpl<ParseIntError> for DecodeHexError {
    open spec fn obeys_from_spec() -> bool {
        true
    }

    open spec fn from_spec(e: ParseIntError) -> DecodeHexError {
        DecodeHexError::ParseInt(e)
    }
}

/// The `Display` form of a `ParseIntError`: what the standard library says of
/// the error, of which nothing is promised here.
#[verifier::external_body]
fn describe_parse_error(e: &ParseIntError) -> String {
    format!("{}", e)
}

impl DecodeHexError {
    /// What the error says in words: of an odd length in the library's own
    /// words, of a pair that is no number in those of the parser.
    pub fn message(&self) -> (text: String)
        ensures
            self is OddLength ==> text@ == "input string has an odd number of bytes"@,
    {
        match self {
            DecodeHexError::OddLength => "input string has an odd number of bytes".to_owned(),
            DecodeHexError::ParseInt(e) => describe_parse_error(e),
        }
    }
}

/// The value of one hexadecimal digit given as an ASCII byte, in either case.
pub open spec fn hex_digit(b: u8) -> Option<u8> {
    if 0x30 <= b <= 0x39 {
        Some((b - 0x30) as u8)
    } else if 0x61 <= b <= 0x66 {
        Some((b - 0x61 + 10) as u8)
    } else if 0x41 <= b <= 0x46 {
        Some((b - 0x41 + 10) as u8)
    } else {
        None
    }
}

/// The byte that two input bytes denote: two hexadecimal digits, the more
/// significant first, or a plus sign followed by one digit.
pub open spec fn hex_pair(hi: u8, lo: u8) -> Option<u8> {
    if hi == 0x2b {
        hex_digit(lo)
    } else {
        match (hex_digit(hi), hex_digit(lo)) {
            (Some(h), Some(l)) => Some((16 * h + l) as u8),
            _ => None,
        }
    }
}

/// The number of the first pair at or after pair `from` that denotes no byte,
/// or the number of complete pairs if every pair from there on denotes one.
pub open spec fn first_bad_pair(bytes: Seq<u8>, from: int) -> int
    decreases bytes.len() - 2 * from,
{
    if from < 0 || 2 * from + 2 > bytes.len() {
        from
    } else if hex_pair(bytes[2 * from], bytes[2 * from + 1]) is None {
        from
    } else {
        first_bad_pair(bytes, from + 1)
    }
}

/// The bytes denoted by the first `n` pairs of `bytes`.
pub open spec fn decoded_pairs(bytes: Seq<u8>, n: int) -> Seq<u8> {
    Seq::new(n as nat, |i: int| hex_pair(bytes[2 * i], bytes[2 * i + 1]).unwrap())
}

/// Every pair that decoding looks at, up to and including the first one that
/// denotes no byte, starts and ends between two characters of the string.
pub open spec fn pairs_on_char_boundaries(bytes: Seq<u8>) -> bool {
    forall|c: int|
        0 <= c <= first_bad_pair(bytes, 0) && 2 * c + 2 <= bytes.len() ==> is_char_boundary(
            bytes,
            2 * c,
        ) && is_char_boundary(bytes, #[trigger] (2 * c + 2))
}

/// `u8::from_str_radix` with radix 16, on a string of two bytes. It accepts
/// two hexadecimal digits, or a plus sign and one digit, and returns the
/// number they denote; on any other string of two bytes it returns an error.
#[verifier::external_body]
fn parse_hex_pair(chunk: &str) -> (r: Result<u8, ParseIntError>)
    requires
        chunk.spec_bytes().len() == 2,
    ensures
        r is Ok <==> hex_pair(chunk.spec_bytes()[0], chunk.spec_bytes()[1]) is Some,
        r matches Ok(v) ==> hex_pair(chunk.spec_bytes()[0], chunk.spec_bytes()[1]) == Some(v),
{
    u8::from_str_radix(chunk, 16)
}

/// The first bad pair from `from` on lies at or after `from` and within the
/// bytes; the pairs before it denote bytes, and it denotes none.
proof fn lemma_first_bad_pair_bounds(bytes: Seq<u8>, from: int)
    requires
        0 <= 2 * from <= bytes.len(),
    ensures
        from <= first_bad_pair(bytes, from),
        2 * first_bad_pair(bytes, from) <= bytes.len(),
        forall|c: int|
            from <= c < first_bad_pair(bytes, from) ==> hex_pair(
                #[trigger] bytes[2 * c],
                bytes[2 * c + 1],
            ) is Some,
        2 * first_bad_pair(bytes, from) + 2 <= bytes.len() ==> hex_pair(
            bytes[2 * first_bad_pair(bytes, from)],
            bytes[2 * first_bad_pair(bytes, from) + 1],
        ) is None,
    decreases bytes.len() - 2 * from,
{
    if 2 * from + 2 > bytes.len() {
    } else if hex_pair(bytes[2 * from], bytes[2 * from + 1]) is None {
    } else {
        lemma_first_bad_pair_bounds(bytes, from + 1);
    }
}

/// A pair that denotes a byte is not the first bad pair.
proof fn lemma_first_bad_pair_step(bytes: Seq<u8>, from: int)
    requires
        0 <= from,
        2 * from + 2 <= bytes.len(),
        hex_pair(bytes[2 * from], bytes[2 * from + 1]) is Some,
        first_bad_pair(bytes, 0) >= from,
    ensures
        first_bad_pair(bytes, 0) >= from + 1,
{
    lemma_first_bad_pair_bounds(bytes, 0);
}

/// In a string of ASCII characters every byte stands between two characters,
/// so every pair does.
pub proof fn lemma_ascii_pairs_on_char_boundaries(s: &str)
    requires
        is_ascii(s),
    ensures
        pairs_on_char_boundaries(s.spec_bytes()),
{
    let chars = s@;
    let bytes = s.spec_bytes();
    is_ascii_chars_encode_utf8(chars);
    encode_utf8_valid_utf8(chars);
    is_char_boundary_start_end_of_seq(bytes);
    assert forall|c: int|
        0 <= c <= first_bad_pair(bytes, 0) && 2 * c + 2 <= bytes.len() implies is_char_boundary(
        bytes,
        2 * c,
    ) && is_char_boundary(bytes, #[trigger] (2 * c + 2)) by {
        assert(bytes[2 * c] == chars[2 * c] as u8);
        is_char_boundary_iff_not_is_continuation_byte(bytes, 2 * c);
        if 2 * c + 2 < bytes.len() {
            assert(bytes[2 * c + 2] == chars[2 * c + 2] as u8);
            is_char_boundary_iff_not_is_continuation_byte(bytes, 2 * c + 2);
        }
    }
}

/// Decodes a string of hexadecimal digit pairs into the bytes they denote.
///
/// The pairs are read from left to right. A string with an odd number of
/// bytes is refused before any pair is read; otherwise the first pair that
/// denotes no byte ends the decoding with the parser's error.
pub fn decode_hex(s: &str) -> (r: Result<Vec<u8>, DecodeHexError>)
    requires
        s.spec_bytes().len() % 2 == 0 ==> pairs_on_char_boundaries(s.spec_bytes()),
    ensures
        match r {
            Ok(v) => {
                &&& s.spec_bytes().len() % 2 == 0
                &&& 2 * first_bad_pair(s.spec_bytes(), 0) == s.spec_bytes().len()
                &&& v@ == decoded_pairs(s.spec_bytes(), s.spec_bytes().len() as int / 2)
            },
            Err(DecodeHexError::OddLength) => s.spec_bytes().len() % 2 == 1,
            Err(DecodeHexError::ParseInt(_)) => {
                &&& s.spec_bytes().len() % 2 == 0
                &&& 2 * first_bad_pair(s.spec_bytes(), 0) < s.spec_bytes().len()
            },
        },
{
    let len = s.as_bytes().len();
    if len % 2 != 0 {
        return Err(DecodeHexError::OddLength);
    }
    let ghost bytes = s.spec_bytes();
    proof {
        encode_utf8_valid_utf8(s@);
        lemma_first_bad_pair_bounds(bytes, 0);
    }
    let mut out: Vec<u8> = Vec::new();
    let mut i: usize = 0;
    while i < len
        invariant
            bytes == s.spec_bytes(),
            valid_utf8(bytes),
            len == bytes.len(),
            len % 2 == 0,
            i % 2 == 0,
            i <= len,
            pairs_on_char_boundaries(bytes),
            first_bad_pair(bytes, 0) >= i / 2,
            out@ == decoded_pairs(bytes, i as int / 2),
        decreases len - i,
    {
        assert(is_char_boundary(bytes, i as int) && is_char_boundary(bytes, i + 2)) by {
            let c = (i / 2) as int;
            assert(2 * c == i);
            assert(is_char_boundary(bytes, 2 * c) && is_char_boundary(bytes, 2 * c + 2));
        }
        let (_, tail) = s.split_at(i);
        proof {
            encode_utf8_valid_utf8(tail@);
            let tb = tail.spec_bytes();
            assert(tb =~= bytes.subrange(i as int, len as int));
            if tb.len() == 2 {
                is_char_boundary_start_end_of_seq(tb);
            } else {
                is_char_boundary_iff_not_is_continuation_byte(tb, 2);
                is_char_boundary_iff_not_is_continuation_byte(bytes, i + 2);
            }
        }
        let (chunk, _) = tail.split_at(2);
        proof {
            assert(chunk.spec_bytes() =~= bytes.subrange(i as int, i + 2));
        }
        match parse_hex_pair(chunk) {
            Ok(b) => {
                proof {
                    lemma_first_bad_pair_step(bytes, i as int / 2);
                }
                out.push(b);
                i = i + 2;
                assert(out@ =~= decoded_pairs(bytes, i as int / 2));
            },
            Err(e) => {
                proof {
                    lemma_first_bad_pair_bounds(bytes, 0);
                }
                return Err(DecodeHexError::from(e));
            },
        }
    }
    proof {
        lemma_first_bad_pair_bounds(bytes, 0);
        assert(out@ =~= decoded_pairs(bytes, len as int / 2));
    }
    Ok(out)
}

/// The lower-case hexadecimal digit for a number below 16.
pub open spec fn hex_char(d: int) -> char {
    if d < 10 {
        (0x30 + d) as char
    } else {
        (0x61 + d - 10) as char
    }
}

/// The hexadecimal form of a byte string: two lower-case digits for each
/// byte, the more significant first.
pub open spec fn hex_text(bytes: Seq<u8>) -> Seq<char> {
    Seq::new(
        2 * bytes.len(),
        |i: int|
            if i % 2 == 0 {
                hex_char(bytes[i / 2] as int / 16)
            } else {
                hex_char(bytes[i / 2] as int % 16)
            },
    )
}

/// The sixteen hexadecimal digits, each at the place of its value.
fn hex_digit_text(d: u8) -> (text: &'static str)
    requires
        d < 16,
    ensures
        text@ == seq![hex_char(d as int)],
{
    let digits = "0123456789abcdef";
    proof {
        reveal_strlit("0123456789abcdef");
        assert(digits.is_ascii());
    }
    let text = digits.substring_ascii(d as usize, d as usize + 1);
    assert(text@ =~= seq![hex_char(d as int)]);
    text
}

/// Writes a byte string as hexadecimal digits, two for each byte.
pub fn encode_hex(bytes: &[u8]) -> (text: String)
    ensures
        text@ == hex_text(bytes@),
{
    let mut text = String::new();
    let mut k: usize = 0;
    while k < bytes.len()
        invariant
            k <= bytes.len(),
            text@ == hex_text(bytes@.take(k as int)),
        decreases bytes.len() - k,
    {
        let b = bytes[k];
        let ghost before = text@;
        text.append(hex_digit_text(b / 16));
        text.append(hex_digit_text(b % 16));
        k += 1;
        assert(text@ =~= hex_text(bytes@.take(k as int))) by {
            let longer = hex_text(bytes@.take(k as int));
            assert(text@ == before + seq![hex_char(b as int / 16)] + seq![hex_char(b as int % 16)]);
            assert(text@.len() == longer.len());
            assert forall|i: int| 0 <= i < longer.len() implies text@[i] == longer[i] by {
                if i < 2 * (k - 1) {
                    assert(bytes@.take(k as int)[i / 2] == bytes@.take(k - 1)[i / 2]);
                }
            }
        }
    }
    assert(bytes@.take(k as int) =~= bytes@);
    text
}

/// From pair `from` on, every pair of `bytes` denotes a byte: then none is
/// the first bad pair.
proof fn lemma_no_bad_pair(bytes: Seq<u8>, from: int)
    requires
        bytes.len() % 2 == 0,
        0 <= 2 * from <= bytes.len(),
        forall|c: int|
            from <= c && 2 * c + 2 <= bytes.len() ==> hex_pair(
                #[trigger] bytes[2 * c],
                bytes[2 * c + 1],
            ) is Some,
    ensures
        2 * first_bad_pair(bytes, from) == bytes.len(),
    decreases bytes.len() - 2 * from,
{
    if 2 * from + 2 <= bytes.len() {
        assert(hex_pair(bytes[2 * from], bytes[2 * from + 1]) is Some);
        lemma_no_bad_pair(bytes, from + 1);
    }
}

/// The hexadecimal form of a byte string can be decoded, and decoding it
/// gives the byte string back.
pub proof fn lemma_decode_inverts_encode(bytes: Seq<u8>, text: &str)
    requires
        text@ == hex_text(bytes),
    ensures
        text.spec_bytes().len() == 2 * bytes.len(),
        pairs_on_char_boundaries(text.spec_bytes()),
        first_bad_pair(text.spec_bytes(), 0) == bytes.len(),
        decoded_pairs(text.spec_bytes(), bytes.len() as int) == bytes,
{
    let chars = text@;
    let encoded = text.spec_bytes();
    assert(is_ascii_chars(chars));
    is_ascii_chars_encode_utf8(chars);
    encode_utf8_valid_utf8(chars);
    assert forall|c: int| 0 <= c < bytes.len() implies hex_pair(
        #[trigger] encoded[2 * c],
        encoded[2 * c + 1],
    ) == Some(bytes[c]) by {
        let b = bytes[c] as int;
        assert(chars[2 * c] == hex_char(b / 16));
        assert(chars[2 * c + 1] == hex_char(b % 16));
        assert(encoded[2 * c] == chars[2 * c] as u8);
        assert(encoded[2 * c + 1] == chars[2 * c + 1] as u8);
        assert(hex_digit(hex_char(b / 16) as u8) == Some((b / 16) as u8));
        assert(hex_digit(hex_char(b % 16) as u8) == Some((b % 16) as u8));
    }
    lemma_no_bad_pair(encoded, 0);
    assert(decoded_pairs(encoded, bytes.len() as int) =~= bytes);
    assert forall|c: int|
        0 <= c <= first_bad_pair(encoded, 0) && 2 * c + 2 <= encoded.len() implies is_char_boundary(
        encoded,
        2 * c,
    ) && is_char_boundary(encoded, #[trigger] (2 * c + 2)) by {
        is_char_boundary_start_end_of_seq(encoded);
        assert(encoded[2 * c] == chars[2 * c] as u8);
        is_char_boundary_iff_not_is_continuation_byte(encoded, 2 * c);
        if 2 * c + 2 < encoded.len() {
            assert(encoded[2 * c + 2] == chars[2 * c + 2] as u8);
            is_char_boundary_iff_not_is_continuation_byte(encoded, 2 * c + 2);
        }
    }
}

/// The decimal form of a number: its digits, the most significant first,
/// with no leading zero, and the single digit 0 for zero.
pub open spec fn decimal_text(n: nat) -> Seq<char>
    decreases n,
{
    if n < 10 {
        seq![hex_char(n as int)]
    } else {
        decimal_text(n / 10).push(hex_char((n % 10) as int))
    }
}

/// The numbers in decimal, one after the other, with a comma and a space
/// between each two.
pub open spec fn listed_text(ids: Seq<usize>) -> Seq<char>
    decreases ids.len(),
{
    if ids.len() == 0 {
        Seq::empty()
    } else if ids.len() == 1 {
        decimal_text(ids[0] as nat)
    } else {
        listed_text(ids.drop_last()) + seq![',', ' '] + decimal_text(ids.last() as nat)
    }
}

/// A list of numbers as it is written in a series file: the numbers in
/// decimal, separated by a comma and a space, in square brackets.
pub open spec fn ids_text(ids: Seq<usize>) -> Seq<char> {
    seq!['['] + listed_text(ids) + seq![']']
}

/// `Debug` for a slice of `usize`: the `Debug` form of each number, which is
/// its decimal form, in the list form of the standard formatter, which puts
/// the items between square brackets and a comma and a space between each two.
#[verifier::external_body]
fn format_ids(ids: &[usize]) -> (text: String)
    ensures
        text@ == ids_text(ids@),
{
    format!("{:?}", ids)
}

/// The values of a series, each followed by a semicolon and a space.
pub open spec fn series_text(values: Seq<String>) -> Seq<char>
    decreases values.len(),
{
    if values.len() == 0 {
        Seq::empty()
    } else {
        series_text(values.drop_last()) + values.last()@ + "; "@
    }
}

/// One line of a series file: the identifiers of the series in square
/// brackets, then each value, every one of these followed by a semicolon and
/// a space, and a line feed at the end.
pub fn series_line(ids: &[usize], values: &Vec<String>) -> (line: String)
    ensures
        line@ == ids_text(ids@) + "; "@ + series_text(values@) + "\n"@,
{
    let mut line = format_ids(ids);
    line.append("; ");
    let ghost head = line@;
    let mut k: usize = 0;
    while k < values.len()
        invariant
            k <= values.len(),
            head == ids_text(ids@) + "; "@,
            line@ == head + series_text(values@.take(k as int)),
        decreases values.len() - k,
    {
        line.append(values[k].as_str());
        line.append("; ");
        k += 1;
        assert(values@.take(k as int).drop_last() =~= values@.take(k - 1));
        assert(line@ =~= head + series_text(values@.take(k as int)));
    }
    assert(values@.take(k as int) =~= values@);
    line.append("\n");
    line
}

/// An object together with the priority that it is ordered by. Two of them
/// compare as their priorities do, whatever the objects are.
pub struct HeapObject<U, T> where U: Ord {
    priority: U,
    obj: T,
}

impl<U, T> HeapObject<U, T> where U: Ord {
    /// The priority.
    pub closed spec fn priority(&self) -> U {
        self.priority
    }

    /// The object.
    pub closed spec fn object(&self) -> T {
        self.obj
    }
}

impl<U, T> HeapObject<U, T> where U: Ord + Copy, T: Clone {
    /// Pairs an object with its priority.
    pub fn new(priority: U, obj: T) -> (h: HeapObject<U, T>)
        ensures
            h.priority() == priority,
            h.object() == obj,
    {
        HeapObject { priority, obj }
    }

    /// The priority and a clone of the object.
    pub fn to_tuple(&self) -> (r: (U, T))
        ensures
            r.0 == self.priority(),
            cloned(self.object(), r.1),
    {
        (self.priority, self.obj.clone())
    }
}

impl<U, T> PartialEq for HeapObject<U, T> where U: Ord {
    /// Two heap objects are equal if their priorities are.
    fn eq(&self, other: &Self) -> (r: bool) {
        self.priority == other.priority
    }
}

impl<U, T> PartialEqSpecImpl for HeapObject<U, T> where U: Ord {
    open spec fn obeys_eq_spec() -> bool {
        U::obeys_eq_spec()
    }

    open spec fn eq_spec(&self, other: &Self) -> bool {
        self.priority().eq_spec(&other.priority())
    }
}

impl<U, T> Eq for HeapObject<U, T> where U: Ord {
}

impl<U, T> PartialOrd for HeapObject<U, T> where U: Ord {
    /// Heap objects are ordered as their priorities are.
    fn partial_cmp(&self, other: &Self) -> (r: Option<Ordering>) {
        Some(self.priority.cmp(&other.priority))
    }
}

impl<U, T> PartialOrdSpecImpl for HeapObject<U, T> where U: Ord {
    open spec fn obeys_partial_cmp_spec() -> bool {
        U::obeys_cmp_spec()
    }

    open spec fn partial_cmp_spec(&self, other: &Self) -> Option<Ordering> {
        Some(self.priority().cmp_spec(&other.priority()))
    }
}

} // verus!
