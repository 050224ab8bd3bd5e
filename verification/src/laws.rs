//! What holds of every bytecode that parses, and how parsing answers when a
//! parsed bytecode is extended or cut short.
use crate::layout::{
    code_offset, code_size_fault, code_size_pos, code_sizes_of, container_of, container_offset,
    container_size_fault, container_size_pos, container_sizes_of, containers_start, data_end,
    data_start, declared_size, has_container_kind, header_of, kind_data_pos,
    lemma_declared_size_is_data_end, lemma_sum_take_le, lemma_sum_take_step, after_code_sizes_pos,
    num_code_sections_of, num_container_sections_of, parse_body, parse_sections, parse_spec,
    sum_sizes, types_start, u16_at, code_start, ParseResult,
};
use crate::encoding::{
    be_bytes, container_bytes, header_bytes, lemma_be_bytes_at, lemma_concat_bytes_at,
    lemma_sizes_bytes_at, lemma_subrange_join, lemma_types_bytes_at, sizes_bytes, types_bytes,
    concat_bytes,
};
use crate::types::eof_container::EOFContainerView;
use crate::types::full_code_section::FullCodeSectionView;
use vstd::prelude::*;

verus! {

/// What a container that the parser accepts satisfies, for a bytecode of
/// `len` bytes: the header rules of EOF, sections of the sizes that the
/// header declares, and a declared size that is at least `len` and exceeds
/// it at most by the data size (only data may be missing).
pub open spec fn is_valid_container(c: EOFContainerView, len: int) -> bool {
    let h = c.header;
    &&& h.version == 1
    &&& h.types_size == 4 * h.num_code_sections
    &&& 0 < h.num_code_sections <= 1024
    &&& h.code_sizes.len() == h.num_code_sections
    &&& forall|i: int| 0 <= i < h.code_sizes.len() ==> #[trigger] h.code_sizes[i] > 0
    &&& h.num_container_sections <= 256
    &&& h.container_sizes.len() == h.num_container_sections
    &&& forall|j: int| 0 <= j < h.container_sizes.len() ==> #[trigger] h.container_sizes[j] > 0
    &&& c.full_code_section.len() == h.num_code_sections
    &&& forall|i: int|
        0 <= i < c.full_code_section.len() ==> #[trigger] c.full_code_section[i].code_section.len()
            == h.code_sizes[i]
    &&& c.full_code_section[0].types_section.inputs == 0
    &&& c.full_code_section[0].types_section.outputs is None
    &&& c.container_section.len() == h.num_container_sections
    &&& forall|j: int|
        0 <= j < c.container_section.len() ==> #[trigger] c.container_section[j].len()
            == h.container_sizes[j]
    &&& c.data_section.len() == h.data_size
    &&& len <= declared_size(h) <= len + h.data_size
}

/// The code size of index `k` lies inside the bytecode and is not zero.
spec fn code_size_ok(b: Seq<u8>, k: int) -> bool {
    code_size_pos(k) + 2 <= b.len() && u16_at(b, code_size_pos(k)) != 0
}

/// The container size of index `k` lies inside the bytecode and is not zero.
spec fn container_size_ok(b: Seq<u8>, k: int) -> bool {
    container_size_pos(b, k) + 2 <= b.len() && u16_at(b, container_size_pos(b, k)) != 0
}

proof fn lemma_code_sizes_ok(b: Seq<u8>, i: int, n: int)
    requires
        0 <= i,
        code_size_fault(b, i, n) is None,
    ensures
        forall|k: int| i <= k < n ==> #[trigger] code_size_ok(b, k),
    decreases n - i,
{
    if i < n {
        lemma_code_sizes_ok(b, i + 1, n);
        assert(code_size_ok(b, i));
    }
}

proof fn lemma_container_sizes_ok(b: Seq<u8>, j: int, m: int)
    requires
        0 <= j,
        container_size_fault(b, j, m) is None,
    ensures
        forall|k: int| j <= k < m ==> #[trigger] container_size_ok(b, k),
    decreases m - j,
{
    if j < m {
        lemma_container_sizes_ok(b, j + 1, m);
        assert(container_size_ok(b, j));
    }
}

/// A container size that is out of place or zero never lets parsing succeed.
proof fn lemma_container_size_fault_not_parsed(b: Seq<u8>, j: int, m: int)
    ensures
        container_size_fault(b, j, m) matches Some(r) ==> !(r is Parsed),
    decreases m - j,
{
    if j < m {
        lemma_container_size_fault_not_parsed(b, j + 1, m);
    }
}

/// Every code section lies between the start of the code and the start of
/// the containers, and every container section between the start of the
/// containers and the start of the data.
proof fn lemma_sections_in_place(b: Seq<u8>)
    ensures
        forall|i: int|
            0 <= i < code_sizes_of(b).len() ==> code_start(b) <= #[trigger] code_offset(b, i)
                && code_offset(b, i) + code_sizes_of(b)[i] <= containers_start(b),
        forall|j: int|
            0 <= j < container_sizes_of(b).len() ==> containers_start(b)
                <= #[trigger] container_offset(b, j) && container_offset(b, j)
                + container_sizes_of(b)[j] <= data_start(b),
{
    assert forall|i: int| 0 <= i < code_sizes_of(b).len() implies code_start(b)
        <= #[trigger] code_offset(b, i) && code_offset(b, i) + code_sizes_of(b)[i]
        <= containers_start(b) by {
        lemma_sum_take_step(code_sizes_of(b), i);
        lemma_sum_take_le(code_sizes_of(b), i + 1);
    }
    assert forall|j: int| 0 <= j < container_sizes_of(b).len() implies containers_start(b)
        <= #[trigger] container_offset(b, j) && container_offset(b, j)
        + container_sizes_of(b)[j] <= data_start(b) by {
        lemma_sum_take_step(container_sizes_of(b), j);
        lemma_sum_take_le(container_sizes_of(b), j + 1);
    }
}

/// A bytecode that parses gives a valid container, whose declared size
/// covers the bytecode and exceeds it at most by its data size.
pub proof fn lemma_parsed_container_is_valid(b: Seq<u8>)
    requires
        parse_spec(b) is Parsed,
    ensures
        parse_spec(b) == ParseResult::Parsed(container_of(b)),
        is_valid_container(parse_spec(b)->Parsed_0, b.len() as int),
{
    let n = num_code_sections_of(b) as int;
    let m = num_container_sections_of(b) as int;
    lemma_container_size_fault_not_parsed(b, 0, m);
    assert(parse_spec(b) == parse_sections(b));
    assert(parse_sections(b) == parse_body(b));
    assert(parse_body(b) == ParseResult::Parsed(container_of(b)));
    lemma_code_sizes_ok(b, 0, n);
    if has_container_kind(b) {
        lemma_container_sizes_ok(b, 0, m);
    }
    lemma_declared_size_is_data_end(b);
    lemma_sections_in_place(b);
    let c = container_of(b);
    assert forall|i: int| 0 <= i < c.header.code_sizes.len() implies #[trigger] c.header.code_sizes[i] > 0 by {
        assert(code_size_ok(b, i));
    }
    assert forall|j: int| 0 <= j < c.header.container_sizes.len() implies #[trigger] c.header.container_sizes[j] > 0 by {
        assert(container_size_ok(b, j));
    }
    assert forall|i: int| 0 <= i < c.full_code_section.len() implies #[trigger] c.full_code_section[i].code_section.len()
        == c.header.code_sizes[i] by {
        assert(code_start(b) <= code_offset(b, i));
    }
    assert forall|j: int| 0 <= j < c.container_section.len() implies #[trigger] c.container_section[j].len()
        == c.header.container_sizes[j] by {
        assert(containers_start(b) <= container_offset(b, j));
    }
}

/// The bytecodes `b1` and `b2` hold the same bytes below `p`.
pub open spec fn agree_below(b1: Seq<u8>, b2: Seq<u8>, p: int) -> bool {
    &&& p <= b1.len()
    &&& p <= b2.len()
    &&& forall|k: int| #![trigger b1[k]] #![trigger b2[k]] 0 <= k < p ==> b1[k] == b2[k]
}

proof fn lemma_code_size_fault_agrees(b1: Seq<u8>, b2: Seq<u8>, p: int, i: int, n: int)
    requires
        0 <= i,
        code_size_pos(n) <= p,
        agree_below(b1, b2, p),
    ensures
        code_size_fault(b1, i, n) == code_size_fault(b2, i, n),
    decreases n - i,
{
    if i < n {
        assert(u16_at(b1, code_size_pos(i)) == u16_at(b2, code_size_pos(i)));
        lemma_code_size_fault_agrees(b1, b2, p, i + 1, n);
    }
}

proof fn lemma_container_size_fault_agrees(b1: Seq<u8>, b2: Seq<u8>, p: int, j: int, m: int)
    requires
        0 <= j,
        after_code_sizes_pos(b1) == after_code_sizes_pos(b2),
        container_size_pos(b1, m) <= p,
        agree_below(b1, b2, p),
    ensures
        container_size_fault(b1, j, m) == container_size_fault(b2, j, m),
    decreases m - j,
{
    if j < m {
        assert(u16_at(b1, container_size_pos(b1, j)) == u16_at(b2, container_size_pos(b2, j)));
        lemma_container_size_fault_agrees(b1, b2, p, j + 1, m);
    }
}

/// Parsing reads nothing at or past the start of the data section but the
/// data itself: a bytecode that agrees with a parsed one up to there, and
/// is long enough to hold it, reads the same header and sections; it is
/// refused only for trailing bytes, and otherwise parses with its own data.
proof fn lemma_prefix_determines_parse(b1: Seq<u8>, b2: Seq<u8>)
    requires
        parse_spec(b1) is Parsed,
        agree_below(b1, b2, data_start(b1)),
    ensures
        header_of(b2) == header_of(b1),
        data_start(b2) == data_start(b1),
        data_end(b2) == data_end(b1),
        container_of(b2).full_code_section == container_of(b1).full_code_section,
        container_of(b2).container_section == container_of(b1).container_section,
        parse_spec(b2) == (if data_end(b1) < b2.len() {
            ParseResult::Rejected("Trailing byte after parsing"@)
        } else {
            ParseResult::Parsed(container_of(b2))
        }),
{
    let p = data_start(b1);
    let n = num_code_sections_of(b1) as int;
    let m = num_container_sections_of(b1) as int;
    lemma_parsed_container_is_valid(b1);
    lemma_container_size_fault_not_parsed(b1, 0, m);
    lemma_container_size_fault_not_parsed(b2, 0, m);
    lemma_code_sizes_ok(b1, 0, n);
    if has_container_kind(b1) {
        lemma_container_sizes_ok(b1, 0, m);
    }
    lemma_sections_in_place(b1);
    lemma_sum_take_le(code_sizes_of(b1), 0);
    lemma_sum_take_le(container_sizes_of(b1), 0);
    assert(code_sizes_of(b1).take(0) =~= Seq::<u16>::empty());
    assert(container_sizes_of(b1).take(0) =~= Seq::<u16>::empty());
    assert(code_start(b1) <= containers_start(b1) <= p);
    // the fixed header fields
    assert(u16_at(b1, 4) == u16_at(b2, 4));
    assert(u16_at(b1, 7) == u16_at(b2, 7));
    assert(b1[0] == b2[0] && b1[1] == b2[1] && b1[2] == b2[2] && b1[3] == b2[3] && b1[6]
        == b2[6]);
    // the code sizes
    lemma_code_size_fault_agrees(b1, b2, p, 0, n);
    assert forall|i: int| 0 <= i < n implies code_sizes_of(b2)[i] == code_sizes_of(b1)[i] by {
        assert(code_size_ok(b1, i));
        assert(u16_at(b1, code_size_pos(i)) == u16_at(b2, code_size_pos(i)));
    }
    assert(code_sizes_of(b2) =~= code_sizes_of(b1));
    // the container kind and sizes
    let q = after_code_sizes_pos(b1);
    assert(b1[q] == b2[q]);
    if has_container_kind(b1) {
        assert(u16_at(b1, q + 1) == u16_at(b2, q + 1));
        lemma_container_size_fault_agrees(b1, b2, p, 0, m);
        assert forall|j: int| 0 <= j < m implies container_sizes_of(b2)[j]
            == container_sizes_of(b1)[j] by {
            assert(container_size_ok(b1, j));
            assert(u16_at(b1, container_size_pos(b1, j)) == u16_at(b2, container_size_pos(b2, j)));
        }
    }
    assert(container_sizes_of(b2) =~= container_sizes_of(b1));
    // the data kind, data size and terminator
    let d = kind_data_pos(b1);
    assert(d == kind_data_pos(b2));
    assert(b1[d] == b2[d] && b1[d + 3] == b2[d + 3]);
    assert(u16_at(b1, d + 1) == u16_at(b2, d + 1));
    assert(header_of(b2) =~= header_of(b1));
    // the types entries and the code sections
    let t = types_start(b1);
    assert(b1[t] == b2[t] && b1[t + 1] == b2[t + 1]);
    assert forall|i: int| 0 <= i < n implies #[trigger] container_of(b2).full_code_section[i]
        == container_of(b1).full_code_section[i] by {
        let e = t + 4 * i;
        assert(b1[e] == b2[e] && b1[e + 1] == b2[e + 1]);
        assert(u16_at(b1, e + 2) == u16_at(b2, e + 2));
        assert(code_start(b1) <= code_offset(b1, i));
        assert(b2.subrange(code_offset(b1, i), code_offset(b1, i) + code_sizes_of(b1)[i])
            =~= b1.subrange(code_offset(b1, i), code_offset(b1, i) + code_sizes_of(b1)[i]));
    }
    assert(container_of(b2).full_code_section =~= container_of(b1).full_code_section);
    assert forall|j: int| 0 <= j < m implies #[trigger] container_of(b2).container_section[j]
        == container_of(b1).container_section[j] by {
        assert(containers_start(b1) <= container_offset(b1, j));
        assert(b2.subrange(
            container_offset(b1, j),
            container_offset(b1, j) + container_sizes_of(b1)[j],
        ) =~= b1.subrange(
            container_offset(b1, j),
            container_offset(b1, j) + container_sizes_of(b1)[j],
        ));
    }
    assert(container_of(b2).container_section =~= container_of(b1).container_section);
    assert(parse_spec(b2) == parse_sections(b2));
    assert(parse_sections(b2) == parse_body(b2));
}

/// A bytecode that parses, with its data section complete, is refused once
/// anything follows it.
pub proof fn lemma_trailing_bytes_are_refused(b: Seq<u8>, s: Seq<u8>)
    requires
        parse_spec(b) is Parsed,
        declared_size((parse_spec(b)->Parsed_0).header) == b.len(),
        s.len() > 0,
    ensures
        parse_spec(b + s) == ParseResult::Rejected("Trailing byte after parsing"@),
{
    let b2 = b + s;
    lemma_parsed_container_is_valid(b);
    lemma_sum_take_le(container_sizes_of(b), 0);
    lemma_declared_size_is_data_end(b);
    assert forall|i: int| 0 <= i < data_start(b) implies b[i] == #[trigger] b2[i] by {}
    assert(agree_below(b, b2, data_start(b)));
    lemma_prefix_determines_parse(b, b2);
}

/// The container that a bytecode parses to, with the bytes of its data
/// section from index `kept` on replaced by zero.
pub open spec fn with_data_cut(c: EOFContainerView, kept: int) -> EOFContainerView {
    EOFContainerView {
        header: c.header,
        full_code_section: c.full_code_section,
        container_section: c.container_section,
        data_section: Seq::new(
            c.data_section.len(),
            |x: int|
                if x < kept {
                    c.data_section[x]
                } else {
                    0u8
                },
        ),
    }
}

/// A bytecode that parses still parses when cut short inside its data
/// section: the container is taken not to be deployed, and the missing
/// data bytes are zero.
pub proof fn lemma_cut_data_is_zero_padded(b: Seq<u8>, k: int)
    requires
        parse_spec(b) is Parsed,
        declared_size((parse_spec(b)->Parsed_0).header) - (parse_spec(
            b,
        )->Parsed_0).header.data_size <= k <= b.len(),
    ensures
        parse_spec(b.take(k)) == ParseResult::Parsed(
            with_data_cut(
                parse_spec(b)->Parsed_0,
                k - (declared_size((parse_spec(b)->Parsed_0).header) - (parse_spec(
                    b,
                )->Parsed_0).header.data_size),
            ),
        ),
{
    let b2 = b.take(k);
    lemma_parsed_container_is_valid(b);
    lemma_declared_size_is_data_end(b);
    assert forall|i: int| 0 <= i < data_start(b) implies b[i] == #[trigger] b2[i] by {}
    assert(agree_below(b, b2, data_start(b)));
    lemma_prefix_determines_parse(b, b2);
    let c = container_of(b);
    let kept = k - data_start(b);
    assert(container_of(b2).data_section =~= with_data_cut(c, kept).data_section);
    assert(container_of(b2) =~= with_data_cut(c, kept));
}

/// Written back out, the container `c` starts with the bytecode `b`: `b`
/// lacks at most the end of the data section, whose missing bytes are
/// zero; and no types entry holds an outputs value of 0x80, which marks a
/// non-returning section.
pub open spec fn is_encoding_prefix(c: EOFContainerView, b: Seq<u8>) -> bool {
    let e = container_bytes(c);
    &&& forall|i: int|
        0 <= i < c.full_code_section.len() ==> #[trigger] c.full_code_section[i].types_section.outputs
            != Some(128u8)
    &&& b.len() <= e.len()
    &&& e.len() - c.header.data_size <= b.len()
    &&& b == e.take(b.len() as int)
    &&& forall|k: int| b.len() <= k < e.len() ==> #[trigger] e[k] == 0
}

/// The header bytes of a parsed container are the bytecode up to its types
/// section.
proof fn lemma_header_bytes_of_parsed(b: Seq<u8>)
    requires
        parse_spec(b) is Parsed,
    ensures
        header_bytes(header_of(b)) == b.subrange(0, types_start(b)),
{
    let n = num_code_sections_of(b) as int;
    let m = num_container_sections_of(b) as int;
    lemma_parsed_container_is_valid(b);
    lemma_container_size_fault_not_parsed(b, 0, m);
    assert(parse_spec(b) == parse_sections(b));
    assert(parse_sections(b) == parse_body(b));
    let h = header_of(b);
    let p = after_code_sizes_pos(b);
    let q = kind_data_pos(b);
    let t = types_start(b);
    assert(seq![0xEFu8, 0x00u8, h.version, 0x01u8] =~= b.subrange(0, 4));
    lemma_be_bytes_at(b, 4);
    lemma_subrange_join(b, 0, 4, 6);
    assert(seq![0x02u8] =~= b.subrange(6, 7));
    lemma_subrange_join(b, 0, 6, 7);
    lemma_be_bytes_at(b, 7);
    lemma_subrange_join(b, 0, 7, 9);
    lemma_sizes_bytes_at(b, code_sizes_of(b), 9);
    lemma_subrange_join(b, 0, 9, p);
    let x = seq![0xEFu8, 0x00u8, h.version, 0x01u8] + be_bytes(h.types_size) + seq![0x02u8]
        + be_bytes(h.num_code_sections) + sizes_bytes(h.code_sizes);
    assert(x == b.subrange(0, p));
    let cpart = if h.num_container_sections > 0 {
        seq![0x03u8] + be_bytes(h.num_container_sections) + sizes_bytes(h.container_sizes)
    } else {
        Seq::<u8>::empty()
    };
    if has_container_kind(b) {
        assert(seq![0x03u8] =~= b.subrange(p, p + 1));
        lemma_be_bytes_at(b, p + 1);
        lemma_subrange_join(b, p, p + 1, p + 3);
        assert forall|j: int| 0 <= j < m implies #[trigger] container_sizes_of(b)[j] == u16_at(
            b,
            p + 3 + 2 * j,
        ) by {
            assert(container_size_pos(b, j) == p + 3 + 2 * j);
        }
        lemma_sizes_bytes_at(b, container_sizes_of(b), p + 3);
        lemma_subrange_join(b, p, p + 3, q);
        assert(cpart == b.subrange(p, q));
    } else {
        assert(cpart =~= b.subrange(p, q));
    }
    lemma_subrange_join(b, 0, p, q);
    assert(seq![0x04u8] =~= b.subrange(q, q + 1));
    lemma_subrange_join(b, 0, q, q + 1);
    lemma_be_bytes_at(b, q + 1);
    lemma_subrange_join(b, 0, q + 1, q + 3);
    assert(seq![0x00u8] =~= b.subrange(q + 3, t));
    lemma_subrange_join(b, 0, q + 3, t);
}

/// Written back out, the header, types entries, code sections and container
/// sections of a parsed container are the bytecode up to its data section.
#[verifier::rlimit(40)]
proof fn lemma_front_bytes_of_parsed(b: Seq<u8>)
    requires
        parse_spec(b) is Parsed,
    ensures
        header_bytes(container_of(b).header) + types_bytes(container_of(b).full_code_section)
            + concat_bytes(
            container_of(b).full_code_section.map_values(|s: FullCodeSectionView| s.code_section),
        ) + concat_bytes(container_of(b).container_section) == b.subrange(0, data_start(b)),
{
    lemma_parsed_container_is_valid(b);
    lemma_header_bytes_of_parsed(b);
    let c = container_of(b);
    let t = types_start(b);
    let f = c.full_code_section;
    lemma_sum_take_le(code_sizes_of(b), 0);
    lemma_sum_take_le(container_sizes_of(b), 0);
    assert(code_sizes_of(b).take(0) =~= Seq::<u16>::empty());
    assert(container_sizes_of(b).take(0) =~= Seq::<u16>::empty());
    // the types entries
    lemma_types_bytes_at(b, f, t);
    assert(t + 4 * f.len() == code_start(b));
    lemma_subrange_join(b, 0, t, code_start(b));
    // the code sections
    let code = f.map_values(|s: FullCodeSectionView| s.code_section);
    assert forall|i: int| 0 <= i < code.len() implies #[trigger] code[i] == b.subrange(
        code_start(b) + sum_sizes(code_sizes_of(b).take(i)),
        code_start(b) + sum_sizes(code_sizes_of(b).take(i)) + code_sizes_of(b)[i],
    ) by {}
    lemma_concat_bytes_at(b, code, code_sizes_of(b), code_start(b));
    lemma_subrange_join(b, 0, code_start(b), containers_start(b));
    // the container sections
    lemma_concat_bytes_at(b, c.container_section, container_sizes_of(b), containers_start(b));
    lemma_subrange_join(b, 0, containers_start(b), data_start(b));
}

/// A bytecode that parses is the start of its container written back out:
/// only data bytes may be missing, and those are zero.
pub proof fn lemma_parsed_bytecode_is_its_encoding(b: Seq<u8>)
    requires
        parse_spec(b) is Parsed,
    ensures
        is_encoding_prefix(parse_spec(b)->Parsed_0, b),
{
    lemma_parsed_container_is_valid(b);
    lemma_front_bytes_of_parsed(b);
    lemma_declared_size_is_data_end(b);
    let c = container_of(b);
    let e = container_bytes(c);
    let front = b.subrange(0, data_start(b));
    assert(e == front + c.data_section);
    assert(e.len() == data_end(b));
    assert forall|k: int| 0 <= k < b.len() implies #[trigger] e[k] == b[k] by {
        if k >= data_start(b) {
            assert(e[k] == c.data_section[k - data_start(b)]);
        }
    }
    assert(b =~= e.take(b.len() as int));
    assert forall|k: int| b.len() <= k < e.len() implies #[trigger] e[k] == 0 by {
        assert(e[k] == c.data_section[k - data_start(b)]);
    }
    assert forall|i: int| 0 <= i < c.full_code_section.len() implies #[trigger] c.full_code_section[i].types_section.outputs
        != Some(128u8) by {}
}

} // verus!
