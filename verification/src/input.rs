//! Bytecode given as hexadecimal text: the text is lowercased, spaces and
//! every `0x` are dropped, and the rest is decoded by the `hex` crate.
use crate::text::{hex_char_value, hex_digit_char, hex_text, lemma_hex_digit_roundtrip};
use vstd::prelude::*;
use vstd::string::StringSliceAdditionalSpecFns;

verus! {

/// Why hexadecimal text could not be decoded; the variants of
/// `hex::FromHexError`.
#[derive(Debug, Clone, Copy, PartialEq, Eq)]
pub enum HexDecodeError {
    InvalidHexCharacter { c: char, index: usize },
    OddLength,
    InvalidStringLength,
}

/// The value of the byte `c` as a hexadecimal digit, either case.
pub open spec fn hex_byte_value(c: u8) -> Option<int> {
    hex_char_value(c as char)
}

/// The index of the first byte from `i` on that is no hexadecimal digit.
pub open spec fn first_non_hex_from(d: Seq<u8>, i: int) -> Option<int>
    decreases d.len() - i,
{
    if i < 0 || i >= d.len() {
        None
    } else if hex_byte_value(d[i]) is None {
        Some(i)
    } else {
        first_non_hex_from(d, i + 1)
    }
}

/// What `hex::decode` gives for the text `d`: an odd length is refused
/// first, then the first byte that is no hexadecimal digit; otherwise each
/// pair of digits is one byte, the high nibble first.
pub open spec fn hex_decode_result(d: Seq<u8>) -> Result<Seq<u8>, HexDecodeError> {
    if d.len() % 2 != 0 {
        Err(HexDecodeError::OddLength)
    } else {
        match first_non_hex_from(d, 0) {
            Some(i) => Err(HexDecodeError::InvalidHexCharacter { c: d[i] as char, index: i as usize }),
            None => Ok(
                Seq::new(
                    d.len() / 2,
                    |k: int|
                        (hex_byte_value(d[2 * k])->0 * 16 + hex_byte_value(d[2 * k + 1])->0) as u8,
                ),
            ),
        }
    }
}

/// `hex::decode`: the crate checks the length for evenness, then decodes
/// the digits pair by pair, from the start, and stops at the first byte that
/// is no digit of either case; its result is `hex_decode_result` of the text.
#[verifier::external_body]
fn hex_decode(text: &[u8]) -> (r: Result<Vec<u8>, HexDecodeError>)
    ensures
        match hex_decode_result(text@) {
            Ok(bytes) => r matches Ok(v) && v@ == bytes,
            Err(e) => r == Err::<Vec<u8>, HexDecodeError>(e),
        },
{
    match hex::decode(text) {
        Ok(v) => Ok(v),
        Err(hex::FromHexError::InvalidHexCharacter { c, index }) => Err(
            HexDecodeError::InvalidHexCharacter { c, index },
        ),
        Err(hex::FromHexError::OddLength) => Err(HexDecodeError::OddLength),
        Err(hex::FromHexError::InvalidStringLength) => Err(HexDecodeError::InvalidStringLength),
    }
}

/// The text `s` without its spaces.
pub open spec fn without_spaces(s: Seq<u8>) -> Seq<u8>
    decreases s.len(),
{
    if s.len() == 0 {
        s
    } else if s[0] == 32 {
        without_spaces(s.subrange(1, s.len() as int))
    } else {
        seq![s[0]] + without_spaces(s.subrange(1, s.len() as int))
    }
}

/// The text `s` without the occurrences of `0x` found from left to right.
pub open spec fn without_hex_prefixes(s: Seq<u8>) -> Seq<u8>
    decreases s.len(),
{
    if s.len() < 2 {
        s
    } else if s[0] == 48 && s[1] == 120 {
        without_hex_prefixes(s.subrange(2, s.len() as int))
    } else {
        seq![s[0]] + without_hex_prefixes(s.subrange(1, s.len() as int))
    }
}

/// The text `s` with its ASCII capitals turned to lowercase.
pub open spec fn ascii_lowercase(s: Seq<u8>) -> Seq<u8> {
    s.map_values(|c: u8| lowercase_byte(c))
}

/// The bytes that the text `s` holds once lowercased and once spaces and
/// `0x` are dropped.
pub open spec fn cleaned_hex(s: Seq<u8>) -> Seq<u8> {
    without_hex_prefixes(without_spaces(ascii_lowercase(s)))
}

fn lowercase_ascii(text: &[u8]) -> (out: Vec<u8>)
    ensures
        out@ == ascii_lowercase(text@),
{
    let mut out: Vec<u8> = Vec::new();
    let len = text.len();
    let mut i: usize = 0;
    while i < len
        invariant
            i <= len,
            len == text@.len(),
            out@ =~= ascii_lowercase(text@).take(i as int),
        decreases len - i,
    {
        let c = text[i];
        if 65 <= c && c <= 90 {
            out.push(c + 32);
        } else {
            out.push(c);
        }
        i = i + 1;
    }
    out
}

fn remove_spaces(text: &[u8]) -> (out: Vec<u8>)
    ensures
        out@ == without_spaces(text@),
{
    let mut out: Vec<u8> = Vec::new();
    let len = text.len();
    let mut i: usize = 0;
    assert(text@.subrange(0, len as int) =~= text@);
    assert(Seq::<u8>::empty() + without_spaces(text@) =~= without_spaces(text@));
    while i < len
        invariant
            i <= len,
            len == text@.len(),
            out@ + without_spaces(text@.subrange(i as int, len as int)) == without_spaces(text@),
        decreases len - i,
    {
        let ghost rest = text@.subrange(i as int, len as int);
        assert(rest.subrange(1, rest.len() as int) =~= text@.subrange(i + 1, len as int));
        if text[i] != 32 {
            let ghost before = out@;
            out.push(text[i]);
            assert(out@ + without_spaces(text@.subrange(i + 1, len as int)) =~= before + (seq![
                text@[i as int],
            ] + without_spaces(text@.subrange(i + 1, len as int))));
        }
        i = i + 1;
    }
    assert(text@.subrange(len as int, len as int) =~= Seq::<u8>::empty());
    assert(out@ + Seq::<u8>::empty() =~= out@);
    out
}

fn remove_hex_prefixes(text: &[u8]) -> (out: Vec<u8>)
    ensures
        out@ == without_hex_prefixes(text@),
{
    let mut out: Vec<u8> = Vec::new();
    let len = text.len();
    let mut i: usize = 0;
    assert(text@.subrange(0, len as int) =~= text@);
    assert(Seq::<u8>::empty() + without_hex_prefixes(text@) =~= without_hex_prefixes(text@));
    while i < len
        invariant
            i <= len,
            len == text@.len(),
            out@ + without_hex_prefixes(text@.subrange(i as int, len as int))
                == without_hex_prefixes(text@),
        decreases len - i,
    {
        let ghost rest = text@.subrange(i as int, len as int);
        if i + 1 < len && text[i] == 48 && text[i + 1] == 120 {
            assert(rest.subrange(2, rest.len() as int) =~= text@.subrange(i + 2, len as int));
            i = i + 2;
        } else {
            assert(rest.subrange(1, rest.len() as int) =~= text@.subrange(i + 1, len as int));
            let ghost before = out@;
            out.push(text[i]);
            if i + 1 < len {
                assert(out@ + without_hex_prefixes(text@.subrange(i + 1, len as int)) =~= before
                    + (seq![text@[i as int]] + without_hex_prefixes(
                    text@.subrange(i + 1, len as int),
                )));
            } else {
                assert(rest =~= seq![text@[i as int]]);
                assert(out@ + without_hex_prefixes(text@.subrange(i + 1, len as int)) =~= before
                    + rest);
            }
            i = i + 1;
        }
    }
    assert(text@.subrange(len as int, len as int) =~= Seq::<u8>::empty());
    assert(out@ + Seq::<u8>::empty() =~= out@);
    out
}

/// The bytecode written as hexadecimal text in `input`: the text is
/// lowercased, spaces and every `0x` are dropped (as the command line and
/// the test vectors write it), then the digits are decoded.
pub fn bytecode_from_hex(input: &str) -> (r: Result<Vec<u8>, HexDecodeError>)
    ensures
        match hex_decode_result(cleaned_hex(input.spec_bytes())) {
            Ok(bytes) => r matches Ok(v) && v@ == bytes,
            Err(e) => r == Err::<Vec<u8>, HexDecodeError>(e),
        },
{
    let lowercased = lowercase_ascii(input.as_bytes());
    let without_space = remove_spaces(lowercased.as_slice());
    let cleaned = remove_hex_prefixes(without_space.as_slice());
    hex_decode(cleaned.as_slice())
}

proof fn lemma_prefix_dropped(s: Seq<u8>)
    ensures
        without_hex_prefixes(without_spaces(seq![48u8, 120u8] + s)) == without_hex_prefixes(
            without_spaces(s),
        ),
{
    let t = seq![48u8, 120u8] + s;
    assert(t.subrange(1, t.len() as int) =~= seq![120u8] + s);
    let u = seq![120u8] + s;
    assert(u.subrange(1, u.len() as int) =~= s);
    assert(without_spaces(u) == seq![120u8] + without_spaces(s));
    assert(without_spaces(t) =~= seq![48u8, 120u8] + without_spaces(s));
    let w = seq![48u8, 120u8] + without_spaces(s);
    assert(w.subrange(2, w.len() as int) =~= without_spaces(s));
}

/// A leading `0x`, in either case, makes no difference to the bytecode read.
pub proof fn lemma_hex_prefix_is_optional(s: Seq<u8>)
    ensures
        cleaned_hex(seq![48u8, 120u8] + s) == cleaned_hex(s),
        cleaned_hex(seq![48u8, 88u8] + s) == cleaned_hex(s),
{
    let l = ascii_lowercase(s);
    assert(ascii_lowercase(seq![48u8, 120u8] + s) =~= seq![48u8, 120u8] + l);
    assert(ascii_lowercase(seq![48u8, 88u8] + s) =~= seq![48u8, 120u8] + l);
    lemma_prefix_dropped(l);
}

/// The case of the input makes no difference to the bytecode read.
pub proof fn lemma_input_case_is_ignored(s: Seq<u8>)
    ensures
        cleaned_hex(ascii_lowercase(s)) == cleaned_hex(s),
{
    assert(ascii_lowercase(ascii_lowercase(s)) =~= ascii_lowercase(s));
}

proof fn lemma_without_spaces_concat(a: Seq<u8>, c: Seq<u8>)
    ensures
        without_spaces(a + c) == without_spaces(a) + without_spaces(c),
    decreases a.len(),
{
    if a.len() == 0 {
        assert(a + c =~= c);
        assert(Seq::<u8>::empty() + without_spaces(c) =~= without_spaces(c));
    } else {
        let rest = a.subrange(1, a.len() as int);
        assert((a + c).subrange(1, (a + c).len() as int) =~= rest + c);
        lemma_without_spaces_concat(rest, c);
        if a[0] != 32 {
            assert(seq![a[0]] + (without_spaces(rest) + without_spaces(c)) =~= (seq![a[0]]
                + without_spaces(rest)) + without_spaces(c));
        }
    }
}

/// Spaces make no difference to the bytecode read, wherever they stand.
pub proof fn lemma_spaces_are_ignored(a: Seq<u8>, c: Seq<u8>)
    ensures
        cleaned_hex(a + seq![32u8] + c) == cleaned_hex(a + c),
{
    let la = ascii_lowercase(a);
    let lc = ascii_lowercase(c);
    assert(ascii_lowercase(a + seq![32u8] + c) =~= la + seq![32u8] + lc);
    assert(ascii_lowercase(a + c) =~= la + lc);
    lemma_without_spaces_concat(la + seq![32u8], lc);
    lemma_without_spaces_concat(la, seq![32u8]);
    lemma_without_spaces_concat(la, lc);
    let sp = seq![32u8];
    assert(sp.subrange(1, 1) =~= Seq::<u8>::empty());
    assert(without_spaces(sp) == without_spaces(Seq::<u8>::empty()));
    assert(without_spaces(la) + Seq::<u8>::empty() =~= without_spaces(la));
}

/// The bytes of text made of ASCII characters.
pub open spec fn ascii_bytes(s: Seq<char>) -> Seq<u8> {
    s.map_values(|c: char| c as u8)
}

proof fn lemma_hex_text_bytes(bytes: Seq<u8>, i: int)
    requires
        0 <= i < 2 * bytes.len(),
    ensures
        ascii_bytes(hex_text(bytes))[i] != 32,
        ascii_bytes(hex_text(bytes))[i] != 120,
        !(65 <= ascii_bytes(hex_text(bytes))[i] <= 90),
        hex_byte_value(ascii_bytes(hex_text(bytes))[i]) == Some(
            if i % 2 == 0 {
                bytes[i / 2] as int / 16
            } else {
                bytes[i / 2] as int % 16
            },
        ),
{
    let d = if i % 2 == 0 {
        bytes[i / 2] as int / 16
    } else {
        bytes[i / 2] as int % 16
    };
    lemma_hex_digit_roundtrip(d);
    assert(hex_text(bytes)[i] == hex_digit_char(d));
}

proof fn lemma_clean_text_unchanged(s: Seq<u8>)
    requires
        forall|i: int| 0 <= i < s.len() ==> #[trigger] s[i] != 32 && s[i] != 120,
    ensures
        without_spaces(s) == s,
        without_hex_prefixes(s) == s,
    decreases s.len(),
{
    if s.len() > 0 {
        let rest = s.subrange(1, s.len() as int);
        assert forall|i: int| 0 <= i < rest.len() implies #[trigger] rest[i] != 32 && rest[i]
            != 120 by {
            assert(rest[i] == s[i + 1]);
        }
        lemma_clean_text_unchanged(rest);
        assert(seq![s[0]] + rest =~= s);
        if s.len() >= 2 {
            assert(s[1] != 120);
        }
    }
}

proof fn lemma_all_hex_digits(d: Seq<u8>, i: int)
    requires
        0 <= i,
        forall|k: int| 0 <= k < d.len() ==> #[trigger] hex_byte_value(d[k]) is Some,
    ensures
        first_non_hex_from(d, i) is None,
    decreases d.len() - i,
{
    if i < d.len() {
        lemma_all_hex_digits(d, i + 1);
    }
}

/// Hexadecimal text, as the library writes code and data sections, is read
/// back as the bytes it was written from.
pub proof fn lemma_hex_text_reads_back(bytes: Seq<u8>)
    ensures
        cleaned_hex(ascii_bytes(hex_text(bytes))) == ascii_bytes(hex_text(bytes)),
        hex_decode_result(cleaned_hex(ascii_bytes(hex_text(bytes)))) == Ok::<
            Seq<u8>,
            HexDecodeError,
        >(bytes),
{
    let d = ascii_bytes(hex_text(bytes));
    assert forall|i: int| 0 <= i < d.len() implies #[trigger] d[i] != 32 && d[i] != 120 by {
        lemma_hex_text_bytes(bytes, i);
    }
    assert forall|i: int| 0 <= i < d.len() implies #[trigger] lowercase_byte(d[i]) == d[i] by {
        lemma_hex_text_bytes(bytes, i);
    }
    assert(ascii_lowercase(d) =~= d);
    lemma_clean_text_unchanged(d);
    assert forall|i: int| 0 <= i < d.len() implies #[trigger] hex_byte_value(d[i]) is Some by {
        lemma_hex_text_bytes(bytes, i);
    }
    lemma_all_hex_digits(d, 0);
    let decoded = Seq::new(
        d.len() / 2,
        |k: int| (hex_byte_value(d[2 * k])->0 * 16 + hex_byte_value(d[2 * k + 1])->0) as u8,
    );
    assert forall|k: int| 0 <= k < bytes.len() implies decoded[k] == bytes[k] by {
        lemma_hex_text_bytes(bytes, 2 * k);
        lemma_hex_text_bytes(bytes, 2 * k + 1);
        assert((2 * k) / 2 == k);
        assert((2 * k + 1) / 2 == k);
        assert((2 * k + 1) % 2 == 1);
        assert((2 * k) % 2 == 0);
    }
    assert(decoded =~= bytes);
}

/// The byte `c` with an ASCII capital letter turned to lowercase.
pub open spec fn lowercase_byte(c: u8) -> u8 {
    if 65 <= c <= 90 {
        (c + 32) as u8
    } else {
        c
    }
}

proof fn lemma_first_non_hex_ignores_case(d: Seq<u8>, i: int)
    requires
        0 <= i,
    ensures
        first_non_hex_from(d.map_values(|c: u8| lowercase_byte(c)), i) == first_non_hex_from(d, i),
    decreases d.len() - i,
{
    if i < d.len() {
        lemma_first_non_hex_ignores_case(d, i + 1);
    }
}

/// Hexadecimal digits may be written in either case: turning capitals to
/// lowercase leaves what is decoded unchanged, and leaves a text that is
/// refused refused at the same place.
pub proof fn lemma_decoding_ignores_case(d: Seq<u8>)
    ensures
        hex_decode_result(d.map_values(|c: u8| lowercase_byte(c))) is Ok <==> hex_decode_result(
            d,
        ) is Ok,
        hex_decode_result(d) matches Ok(v) ==> hex_decode_result(
            d.map_values(|c: u8| lowercase_byte(c)),
        ) == Ok::<Seq<u8>, HexDecodeError>(v),
{
    let l = d.map_values(|c: u8| lowercase_byte(c));
    lemma_first_non_hex_ignores_case(d, 0);
    if hex_decode_result(d) is Ok {
        let a = Seq::new(
            l.len() / 2,
            |k: int| (hex_byte_value(l[2 * k])->0 * 16 + hex_byte_value(l[2 * k + 1])->0) as u8,
        );
        let b = Seq::new(
            d.len() / 2,
            |k: int| (hex_byte_value(d[2 * k])->0 * 16 + hex_byte_value(d[2 * k + 1])->0) as u8,
        );
        assert forall|k: int| 0 <= k < a.len() implies a[k] == b[k] by {
            assert(l[2 * k] == lowercase_byte(d[2 * k]));
            assert(l[2 * k + 1] == lowercase_byte(d[2 * k + 1]));
        }
        assert(a =~= b);
    }
}

} // verus!
