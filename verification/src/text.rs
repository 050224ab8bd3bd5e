//! Text produced by the library: lowercase hexadecimal (through the `hex`
//! crate) and decimal numbers.
use vstd::prelude::*;

verus! {

/// The character of a hexadecimal digit `d` (`0 <= d < 16`), lowercase.
pub open spec fn hex_digit_char(d: int) -> char {
    if d < 10 {
        (48 + d) as char
    } else {
        (87 + d) as char
    }
}

/// Lowercase hexadecimal text of `bytes`: two digits per byte, high nibble first.
pub open spec fn hex_text(bytes: Seq<u8>) -> Seq<char> {
    Seq::new(
        2 * bytes.len(),
        |i: int|
            if i % 2 == 0 {
                hex_digit_char(bytes[i / 2] as int / 16)
            } else {
                hex_digit_char(bytes[i / 2] as int % 16)
            },
    )
}

/// `hex::encode`: the crate documents that it encodes each byte as two
/// lowercase hexadecimal digits, so the text is `hex_text` of the input.
#[verifier::external_body]
pub(crate) fn hex_encode(bytes: &[u8]) -> (s: String)
    ensures
        s@ == hex_text(bytes@),
{
    hex::encode(bytes)
}

/// The value of a hexadecimal digit character, `None` for any other character.
pub open spec fn hex_char_value(c: char) -> Option<int> {
    if '0' <= c && c <= '9' {
        Some(c as int - 48)
    } else if 'a' <= c && c <= 'f' {
        Some(c as int - 87)
    } else if 'A' <= c && c <= 'F' {
        Some(c as int - 55)
    } else {
        None
    }
}

pub proof fn lemma_hex_digit_roundtrip(d: int)
    requires
        0 <= d < 16,
    ensures
        hex_char_value(hex_digit_char(d)) == Some(d),
{
}

/// The value of the character `c` as a hexadecimal digit.
pub fn hex_digit_value(c: char) -> (v: Option<u8>)
    ensures
        match hex_char_value(c) {
            Some(d) => v == Some(d as u8),
            None => v is None,
        },
{
    if '0' <= c && c <= '9' {
        Some((c as u32 - 48) as u8)
    } else if 'a' <= c && c <= 'f' {
        Some((c as u32 - 87) as u8)
    } else if 'A' <= c && c <= 'F' {
        Some((c as u32 - 55) as u8)
    } else {
        None
    }
}

/// The character of a decimal digit `d` (`0 <= d < 10`).
pub open spec fn decimal_digit_char(d: int) -> char {
    (48 + d) as char
}

/// Decimal text of `n`, without leading zeros (`"0"` for zero).
pub open spec fn decimal_text(n: nat) -> Seq<char>
    decreases n,
{
    if n < 10 {
        seq![decimal_digit_char(n as int)]
    } else {
        decimal_text(n / 10).push(decimal_digit_char((n % 10) as int))
    }
}

fn digit_str(d: u64) -> (s: &'static str)
    requires
        d < 10,
    ensures
        s@ == seq![decimal_digit_char(d as int)],
{
    if d == 0 {
        proof { reveal_strlit("0"); }
        "0"
    } else if d == 1 {
        proof { reveal_strlit("1"); }
        "1"
    } else if d == 2 {
        proof { reveal_strlit("2"); }
        "2"
    } else if d == 3 {
        proof { reveal_strlit("3"); }
        "3"
    } else if d == 4 {
        proof { reveal_strlit("4"); }
        "4"
    } else if d == 5 {
        proof { reveal_strlit("5"); }
        "5"
    } else if d == 6 {
        proof { reveal_strlit("6"); }
        "6"
    } else if d == 7 {
        proof { reveal_strlit("7"); }
        "7"
    } else if d == 8 {
        proof { reveal_strlit("8"); }
        "8"
    } else {
        proof { reveal_strlit("9"); }
        "9"
    }
}

/// Decimal text of `n`, as integers are displayed.
pub fn decimal_string(n: u64) -> (s: String)
    ensures
        s@ == decimal_text(n as nat),
    decreases n,
{
    if n < 10 {
        String::from_str(digit_str(n))
    } else {
        let mut s = decimal_string(n / 10);
        s.append(digit_str(n % 10));
        s
    }
}

/// Text of a list of numbers before its closing bracket: `[`, then the
/// numbers in decimal, separated by `, `.
pub open spec fn list_text_open(s: Seq<u16>) -> Seq<char>
    decreases s.len(),
{
    if s.len() == 0 {
        "["@
    } else if s.len() == 1 {
        "["@ + decimal_text(s[0] as nat)
    } else {
        list_text_open(s.drop_last()) + ", "@ + decimal_text(s.last() as nat)
    }
}

/// Text of a list of numbers as lists are debug-printed: `[1, 2, 3]`.
pub open spec fn list_text(s: Seq<u16>) -> Seq<char> {
    list_text_open(s) + "]"@
}

/// The numbers of `values` as lists are debug-printed: `[1, 2, 3]`, `[]`.
pub fn list_string(values: &Vec<u16>) -> (s: String)
    ensures
        s@ == list_text(values@),
{
    let mut s = String::from_str("[");
    let mut k: usize = 0;
    while k < values.len()
        invariant
            k <= values@.len(),
            s@ == list_text_open(values@.take(k as int)),
        decreases values@.len() - k,
    {
        let ghost prefix = values@.take(k as int + 1);
        assert(prefix.drop_last() =~= values@.take(k as int));
        if k > 0 {
            s.append(", ");
        }
        let number = decimal_string(values[k] as u64);
        s.append(number.as_str());
        k = k + 1;
    }
    assert(values@.take(k as int) =~= values@);
    s.append("]");
    s
}

/// The number that a text of decimal digits writes.
pub open spec fn decimal_value(s: Seq<char>) -> int
    decreases s.len(),
{
    if s.len() == 0 {
        0
    } else {
        decimal_value(s.drop_last()) * 10 + (s.last() as int - 48)
    }
}

/// The decimal text of a number is made of digits and reads back as that
/// number; so different numbers have different texts.
pub proof fn lemma_decimal_text_reads_back(n: nat)
    ensures
        decimal_text(n).len() > 0,
        forall|i: int|
            0 <= i < decimal_text(n).len() ==> '0' <= #[trigger] decimal_text(n)[i] <= '9',
        decimal_value(decimal_text(n)) == n,
    decreases n,
{
    if n >= 10 {
        lemma_decimal_text_reads_back(n / 10);
        let t = decimal_text(n);
        assert(t.drop_last() =~= decimal_text(n / 10));
        assert(t.last() as int == 48 + (n % 10) as int);
        assert(n == (n / 10) * 10 + n % 10);
        assert(decimal_value(t) == decimal_value(t.drop_last()) * 10 + (t.last() as int - 48));
        assert forall|i: int| 0 <= i < t.len() implies '0' <= #[trigger] t[i] <= '9' by {
            if i < t.len() - 1 {
                assert(t[i] == decimal_text(n / 10)[i]);
            }
        }
    } else {
        assert(decimal_text(n).drop_last() =~= Seq::<char>::empty());
        let t = decimal_text(n);
        assert(t.len() == 1);
        assert(t.last() as int == 48 + n);
        assert(decimal_value(t) == decimal_value(t.drop_last()) * 10 + (t.last() as int - 48));
        assert(decimal_value(t.drop_last()) == 0);
    }
}

/// Different numbers have different decimal texts.
pub proof fn lemma_decimal_text_injective(a: nat, b: nat)
    ensures
        decimal_text(a) == decimal_text(b) ==> a == b,
{
    lemma_decimal_text_reads_back(a);
    lemma_decimal_text_reads_back(b);
}

/// A list text puts `, ` between consecutive numbers: adding a number to a
/// non-empty list adds `, ` and its decimal text before the closing
/// bracket; an empty list reads `[]` and a single number `[n]`.
pub proof fn lemma_list_text_separates(s: Seq<u16>, x: u16)
    ensures
        s.len() > 0 ==> list_text_open(s.push(x)) == list_text_open(s) + ", "@ + decimal_text(
            x as nat,
        ),
        list_text(Seq::empty()) == "["@ + "]"@,
        list_text(seq![x]) == "["@ + decimal_text(x as nat) + "]"@,
{
    assert(s.push(x).drop_last() =~= s);
}

} // verus!
