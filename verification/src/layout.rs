//! Where each field of an EOF container stands in its bytecode, and what
//! parsing a bytecode gives: the parsed container, or a refusal with its
//! message.
//!
//! Layout of the header, from the start of the bytecode:
//! magic (2) | version (1) | kind types (1) | types size (2) | kind code (1) |
//! number of code sections n (2) | n code sizes (2 each) |
//! [kind container (1) | number of container sections m (2) | m container sizes (2 each)] |
//! kind data (1) | data size (2) | terminator (1).
//! The body follows: the types section (4 bytes per code section), the code
//! sections, the container sections and the data section.
use crate::text::decimal_text;
use crate::types::eof_container::{EOFContainerView, HeaderView};
use crate::types::full_code_section::{FullCodeSectionView, TypesSection};
use vstd::prelude::*;

verus! {

/// Big-endian value of the two bytes at `p` and `p + 1`.
pub open spec fn u16_at(b: Seq<u8>, p: int) -> u16 {
    (b[p] as int * 256 + b[p + 1] as int) as u16
}

/// Sum of a sequence of section sizes.
pub open spec fn sum_sizes(s: Seq<u16>) -> nat
    decreases s.len(),
{
    if s.len() == 0 {
        0
    } else {
        sum_sizes(s.drop_last()) + s.last() as nat
    }
}

pub open spec fn types_size_of(b: Seq<u8>) -> u16 {
    u16_at(b, 4)
}

pub open spec fn num_code_sections_of(b: Seq<u8>) -> u16 {
    u16_at(b, 7)
}

/// Position of the `i`-th code size in the header.
pub open spec fn code_size_pos(i: int) -> int {
    9 + 2 * i
}

pub open spec fn code_sizes_of(b: Seq<u8>) -> Seq<u16> {
    Seq::new(num_code_sections_of(b) as nat, |i: int| u16_at(b, code_size_pos(i)))
}

/// Position of the kind byte that follows the code sizes (container or data).
pub open spec fn after_code_sizes_pos(b: Seq<u8>) -> int {
    code_size_pos(num_code_sections_of(b) as int)
}

pub open spec fn has_container_kind(b: Seq<u8>) -> bool {
    b[after_code_sizes_pos(b)] == 3
}

pub open spec fn num_container_sections_of(b: Seq<u8>) -> u16 {
    if has_container_kind(b) {
        u16_at(b, after_code_sizes_pos(b) + 1)
    } else {
        0
    }
}

/// Position of the `j`-th container size in the header.
pub open spec fn container_size_pos(b: Seq<u8>, j: int) -> int {
    after_code_sizes_pos(b) + 3 + 2 * j
}

pub open spec fn container_sizes_of(b: Seq<u8>) -> Seq<u16> {
    Seq::new(num_container_sections_of(b) as nat, |j: int| u16_at(b, container_size_pos(b, j)))
}

/// Position of the kind-data byte.
pub open spec fn kind_data_pos(b: Seq<u8>) -> int {
    if has_container_kind(b) {
        container_size_pos(b, num_container_sections_of(b) as int)
    } else {
        after_code_sizes_pos(b)
    }
}

pub open spec fn data_size_of(b: Seq<u8>) -> u16 {
    u16_at(b, kind_data_pos(b) + 1)
}

/// Start of the types section: right after the terminator.
pub open spec fn types_start(b: Seq<u8>) -> int {
    kind_data_pos(b) + 4
}

pub open spec fn code_start(b: Seq<u8>) -> int {
    types_start(b) + types_size_of(b)
}

/// Start of the `i`-th code section.
pub open spec fn code_offset(b: Seq<u8>, i: int) -> int {
    code_start(b) + sum_sizes(code_sizes_of(b).take(i))
}

pub open spec fn containers_start(b: Seq<u8>) -> int {
    code_start(b) + sum_sizes(code_sizes_of(b))
}

/// Start of the `j`-th container section.
pub open spec fn container_offset(b: Seq<u8>, j: int) -> int {
    containers_start(b) + sum_sizes(container_sizes_of(b).take(j))
}

pub open spec fn data_start(b: Seq<u8>) -> int {
    containers_start(b) + sum_sizes(container_sizes_of(b))
}

/// Where the data section ends, as the header declares it; the bytecode may
/// stop earlier, inside the data section.
pub open spec fn data_end(b: Seq<u8>) -> int {
    data_start(b) + data_size_of(b)
}

/// The types-section entry at position `p`; an outputs byte of 0x80 marks a
/// non-returning section.
pub open spec fn types_entry_at(b: Seq<u8>, p: int) -> TypesSection {
    TypesSection {
        inputs: b[p],
        outputs: if b[p + 1] == 128 {
            None
        } else {
            Some(b[p + 1])
        },
        max_stack_height: u16_at(b, p + 2),
    }
}

/// Byte `k` of the data section: past the end of the bytecode it is zero.
pub open spec fn data_byte(b: Seq<u8>, k: int) -> u8 {
    if data_start(b) + k < b.len() {
        b[data_start(b) + k]
    } else {
        0
    }
}

/// The header read from the bytecode.
pub open spec fn header_of(b: Seq<u8>) -> HeaderView {
    HeaderView {
        version: b[2],
        types_size: types_size_of(b),
        num_code_sections: num_code_sections_of(b),
        code_sizes: code_sizes_of(b),
        num_container_sections: num_container_sections_of(b),
        container_sizes: container_sizes_of(b),
        data_size: data_size_of(b),
    }
}

/// The container read from the bytecode.
pub open spec fn container_of(b: Seq<u8>) -> EOFContainerView {
    EOFContainerView {
        header: header_of(b),
        full_code_section: Seq::new(
            num_code_sections_of(b) as nat,
            |i: int|
                FullCodeSectionView {
                    types_section: types_entry_at(b, types_start(b) + 4 * i),
                    code_section: b.subrange(
                        code_offset(b, i),
                        code_offset(b, i) + code_sizes_of(b)[i],
                    ),
                },
        ),
        container_section: Seq::new(
            num_container_sections_of(b) as nat,
            |j: int|
                b.subrange(
                    container_offset(b, j),
                    container_offset(b, j) + container_sizes_of(b)[j],
                ),
        ),
        data_section: Seq::new(data_size_of(b) as nat, |k: int| data_byte(b, k)),
    }
}

/// The size that a header declares for its whole container: 13 bytes of
/// fixed header fields (16 with a container kind), two per code size and per
/// container size, and the sizes of all sections.
pub open spec fn declared_size(h: HeaderView) -> int {
    if h.num_container_sections == 0 {
        13 + 2 * h.num_code_sections + h.types_size + sum_sizes(h.code_sizes) + h.data_size
    } else {
        16 + 2 * h.num_code_sections + h.types_size + sum_sizes(h.code_sizes) + h.data_size + 2
            * h.num_container_sections + sum_sizes(h.container_sizes)
    }
}

/// What parsing a bytecode gives.
pub enum ParseResult {
    Parsed(EOFContainerView),
    Rejected(Seq<char>),
}

/// The message for a bytecode that stops before a field or section that
/// its header announces.
pub open spec fn insufficient_message() -> Seq<char> {
    "insufficient bytecode length"@
}

/// The message of a refused zero-sized code section.
pub open spec fn zero_code_size_message(i: nat) -> Seq<char> {
    "code size cannot be 0, found in section index "@ + decimal_text(i)
}

/// The message of a refused zero-sized container section.
pub open spec fn zero_container_size_message(j: nat) -> Seq<char> {
    "size cannot be 0, found in section index "@ + decimal_text(j)
}

/// Going through the code sizes from index `i`: the first that lies past
/// the end of the bytecode, or is zero, is refused.
pub open spec fn code_size_fault(b: Seq<u8>, i: int, n: int) -> Option<Seq<char>>
    decreases n - i,
{
    if i >= n {
        None
    } else if code_size_pos(i) + 2 > b.len() {
        Some(insufficient_message())
    } else if u16_at(b, code_size_pos(i)) == 0 {
        Some(zero_code_size_message(i as nat))
    } else {
        code_size_fault(b, i + 1, n)
    }
}

/// Going through the container sizes from index `j`: the first that lies
/// past the end of the bytecode, or is zero, is refused.
pub open spec fn container_size_fault(b: Seq<u8>, j: int, m: int) -> Option<ParseResult>
    decreases m - j,
{
    if j >= m {
        None
    } else if container_size_pos(b, j) + 2 > b.len() {
        Some(ParseResult::Rejected(insufficient_message()))
    } else if u16_at(b, container_size_pos(b, j)) == 0 {
        Some(ParseResult::Rejected(zero_container_size_message(j as nat)))
    } else {
        container_size_fault(b, j + 1, m)
    }
}

/// Parsing after the data kind: the data size, the terminator, the types,
/// code, container and data sections, and the final size checks.
pub open spec fn parse_body(b: Seq<u8>) -> ParseResult {
    let q = kind_data_pos(b);
    let t = types_start(b);
    if q >= b.len() {
        ParseResult::Rejected(insufficient_message())
    } else if b[q] != 4 {
        ParseResult::Rejected("Kind data expected next"@)
    } else if q + 4 > b.len() {
        ParseResult::Rejected(insufficient_message())
    } else if b[q + 3] != 0 {
        ParseResult::Rejected("Terminator expected next"@)
    } else if t + 4 > b.len() {
        ParseResult::Rejected(insufficient_message())
    } else if containers_start(b) > b.len() {
        ParseResult::Rejected(insufficient_message())
    } else if b[t] != 0 || b[t + 1] != 128 {
        ParseResult::Rejected("0th code section must have 0 inputs and 0 outputs"@)
    } else if data_start(b) > b.len() {
        ParseResult::Rejected(insufficient_message())
    } else if data_end(b) < b.len() {
        ParseResult::Rejected("Trailing byte after parsing"@)
    } else {
        ParseResult::Parsed(container_of(b))
    }
}

/// Parsing after the code sizes: the optional container kind with its
/// sizes, then the body.
pub open spec fn parse_sections(b: Seq<u8>) -> ParseResult {
    let p = after_code_sizes_pos(b);
    let m = num_container_sections_of(b);
    if p >= b.len() {
        ParseResult::Rejected(insufficient_message())
    } else if has_container_kind(b) && p + 3 > b.len() {
        ParseResult::Rejected(insufficient_message())
    } else if has_container_kind(b) && m == 0 {
        ParseResult::Rejected(
            "Cannot have 0 num of container section when kind container is present"@,
        )
    } else if has_container_kind(b) && m > 256 {
        ParseResult::Rejected("container sections num not > 0 and <= 256"@)
    } else if has_container_kind(b) && container_size_fault(b, 0, m as int) is Some {
        container_size_fault(b, 0, m as int)->0
    } else {
        parse_body(b)
    }
}

/// What parsing the bytecode `b` gives, check by check in the order in
/// which the parser makes them.
pub open spec fn parse_spec(b: Seq<u8>) -> ParseResult {
    let n = num_code_sections_of(b);
    if b.len() < 15 {
        ParseResult::Rejected("Not up to min header size of 15 bytes"@)
    } else if b[0] != 0xEF || b[1] != 0x00 {
        ParseResult::Rejected("0xEF00 prefix not present"@)
    } else if b[2] != 1 {
        ParseResult::Rejected("Invalid EOF version"@)
    } else if b[3] != 1 {
        ParseResult::Rejected("Kind types expected next"@)
    } else if types_size_of(b) % 4 != 0 {
        ParseResult::Rejected("Types size not divisible by 4"@)
    } else if b[6] != 2 {
        ParseResult::Rejected("Kind code expected next"@)
    } else if n * 4 != types_size_of(b) {
        ParseResult::Rejected("Types size not equal to num code sections * 4"@)
    } else if !(0 < n && n <= 1024) {
        ParseResult::Rejected("code sections num not > 0 and <= 1024"@)
    } else if code_size_fault(b, 0, n as int) is Some {
        ParseResult::Rejected(code_size_fault(b, 0, n as int)->0)
    } else {
        parse_sections(b)
    }
}

/// Adding the next section size to a prefix sum.
pub proof fn lemma_sum_take_step(s: Seq<u16>, i: int)
    requires
        0 <= i < s.len(),
    ensures
        sum_sizes(s.take(i + 1)) == sum_sizes(s.take(i)) + s[i],
{
    assert(s.take(i + 1).drop_last() =~= s.take(i));
}

/// A prefix sum is at most the whole sum.
pub proof fn lemma_sum_take_le(s: Seq<u16>, i: int)
    requires
        0 <= i <= s.len(),
    ensures
        sum_sizes(s.take(i)) <= sum_sizes(s),
    decreases s.len() - i,
{
    if i == s.len() {
        assert(s.take(i) =~= s);
    } else {
        lemma_sum_take_step(s, i);
        lemma_sum_take_le(s, i + 1);
    }
}

/// The size that the header declares is where its data section ends.
pub proof fn lemma_declared_size_is_data_end(b: Seq<u8>)
    requires
        has_container_kind(b) ==> num_container_sections_of(b) > 0,
    ensures
        declared_size(header_of(b)) == data_end(b),
{
}

} // verus!
