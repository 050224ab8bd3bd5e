//! Parsing accepts every well-formed container written out as bytes, and
//! gives back that very container.
use crate::encoding::{
    be_bytes, concat_bytes, container_bytes, header_bytes, lemma_concat_bytes_index,
    lemma_sizes_bytes_index, lemma_types_bytes_index, lemma_u16_of_be_bytes, sizes_bytes,
    types_bytes, types_entry_bytes,
};
use crate::laws::is_valid_container;
use crate::layout::{
    after_code_sizes_pos, code_size_fault, code_size_pos, code_sizes_of, code_start,
    container_of, container_size_fault, container_size_pos, container_sizes_of, containers_start,
    code_offset, container_offset, data_end, data_start, has_container_kind, header_of,
    kind_data_pos, lemma_sum_take_le, lemma_sum_take_step, types_entry_at,
    num_container_sections_of, parse_body, parse_sections, parse_spec, sum_sizes, types_start,
    u16_at, ParseResult,
};
use crate::types::eof_container::EOFContainerView;
use crate::types::full_code_section::FullCodeSectionView;
use vstd::prelude::*;

verus! {

/// A container that can be written out and read back: valid for the length
/// of its own bytes, and with no outputs value of 0x80, which reads back as
/// non-returning.
pub open spec fn is_writable_container(c: EOFContainerView) -> bool {
    &&& is_valid_container(c, container_bytes(c).len() as int)
    &&& forall|i: int|
        0 <= i < c.full_code_section.len() ==> #[trigger] c.full_code_section[i].types_section.outputs
            != Some(128u8)
}

/// The code size of index `k` lies inside `b` and is not zero.
spec fn code_size_present(b: Seq<u8>, k: int) -> bool {
    code_size_pos(k) + 2 <= b.len() && u16_at(b, code_size_pos(k)) != 0
}

/// The container size of index `k` lies inside `b` and is not zero.
spec fn container_size_present(b: Seq<u8>, k: int) -> bool {
    container_size_pos(b, k) + 2 <= b.len() && u16_at(b, container_size_pos(b, k)) != 0
}

proof fn lemma_code_fault_none(b: Seq<u8>, i: int, n: int)
    requires
        0 <= i,
        forall|k: int| i <= k < n ==> #[trigger] code_size_present(b, k),
    ensures
        code_size_fault(b, i, n) is None,
    decreases n - i,
{
    if i < n {
        assert(code_size_present(b, i));
        lemma_code_fault_none(b, i + 1, n);
    }
}

proof fn lemma_container_fault_none(b: Seq<u8>, j: int, m: int)
    requires
        0 <= j,
        forall|k: int| j <= k < m ==> #[trigger] container_size_present(b, k),
    ensures
        container_size_fault(b, j, m) is None,
    decreases m - j,
{
    if j < m {
        assert(container_size_present(b, j));
        lemma_container_fault_none(b, j + 1, m);
    }
}

/// The code sections of `c`, one after the other.
pub open spec fn code_bytes(c: EOFContainerView) -> Seq<u8> {
    concat_bytes(c.full_code_section.map_values(|s: FullCodeSectionView| s.code_section))
}

/// Where the types entries start once `c` is written out.
pub open spec fn written_types_start(c: EOFContainerView) -> int {
    header_bytes(c.header).len() as int
}

/// Where the code sections start once `c` is written out.
pub open spec fn written_code_start(c: EOFContainerView) -> int {
    written_types_start(c) + 4 * c.full_code_section.len()
}

/// Where the container sections start once `c` is written out.
pub open spec fn written_containers_start(c: EOFContainerView) -> int {
    written_code_start(c) + sum_sizes(c.header.code_sizes)
}

/// Where the data section starts once `c` is written out.
pub open spec fn written_data_start(c: EOFContainerView) -> int {
    written_containers_start(c) + sum_sizes(c.header.container_sizes)
}

/// The pieces of a container written out, and the byte each position holds.
proof fn lemma_written_pieces(c: EOFContainerView)
    requires
        is_writable_container(c),
    ensures
        ({
            let h = c.header;
            let n = h.num_code_sections as int;
            let m = h.num_container_sections as int;
            let b = container_bytes(c);
            let hb = header_bytes(h);
            let tb = types_bytes(c.full_code_section);
            let cb = code_bytes(c);
            let kb = concat_bytes(c.container_section);
            let t = written_types_start(c);
            let cstart = written_code_start(c);
            let kstart = written_containers_start(c);
            let dstart = written_data_start(c);
            &&& t == 13 + 2 * n + (if m > 0 { 3 + 2 * m } else { 0 })
            &&& tb.len() == 4 * n
            &&& cb.len() == sum_sizes(h.code_sizes)
            &&& kb.len() == sum_sizes(h.container_sizes)
            &&& b.len() == dstart + h.data_size
            &&& forall|k: int| 0 <= k < t ==> #[trigger] b[k] == hb[k]
            &&& forall|k: int| t <= k < cstart ==> #[trigger] b[k] == tb[k - t]
            &&& forall|k: int| cstart <= k < kstart ==> #[trigger] b[k] == cb[k - cstart]
            &&& forall|k: int| kstart <= k < dstart ==> #[trigger] b[k] == kb[k - kstart]
            &&& forall|k: int| dstart <= k < b.len() ==> #[trigger] b[k] == c.data_section[k
                - dstart]
        }),
{
    let h = c.header;
    let f = c.full_code_section;
    let cs = c.container_section;
    lemma_sizes_bytes_index(h.code_sizes);
    lemma_sizes_bytes_index(h.container_sizes);
    lemma_types_bytes_index(f);
    let cp = f.map_values(|s: FullCodeSectionView| s.code_section);
    assert forall|i: int| 0 <= i < cp.len() implies (#[trigger] cp[i]).len() == h.code_sizes[i] by {
        assert(cp[i] == f[i].code_section);
    }
    lemma_concat_bytes_index(cp, h.code_sizes);
    assert forall|j: int| 0 <= j < cs.len() implies (#[trigger] cs[j]).len() == h.container_sizes[j] by {}
    lemma_concat_bytes_index(cs, h.container_sizes);
    let b = container_bytes(c);
    let hb = header_bytes(h);
    let tb = types_bytes(f);
    let cb = code_bytes(c);
    let kb = concat_bytes(cs);
    assert(b == hb + tb + cb + kb + c.data_section);
}

/// The header of a container written out reads back as written, and the
/// parser's checks on it all pass.
#[verifier::rlimit(40)]
proof fn lemma_written_header(c: EOFContainerView)
    requires
        is_writable_container(c),
    ensures
        ({
            let h = c.header;
            let n = h.num_code_sections as int;
            let m = h.num_container_sections as int;
            let b = container_bytes(c);
            &&& b[0] == 0xEF && b[1] == 0x00 && b[2] == 1 && b[3] == 0x01 && b[6] == 0x02
            &&& header_of(b) == h
            &&& code_size_fault(b, 0, n) is None
            &&& after_code_sizes_pos(b) == 9 + 2 * n
            &&& (m > 0 <==> has_container_kind(b))
            &&& m > 0 ==> container_size_fault(b, 0, m) is None
            &&& kind_data_pos(b) + 4 == written_types_start(c)
            &&& b[kind_data_pos(b)] == 0x04
            &&& b[kind_data_pos(b) + 3] == 0x00
            &&& types_start(b) == written_types_start(c)
            &&& code_start(b) == written_code_start(c)
            &&& containers_start(b) == written_containers_start(c)
            &&& data_start(b) == written_data_start(c)
            &&& data_end(b) == b.len()
        }),
{
    lemma_written_pieces(c);
    let h = c.header;
    let n = h.num_code_sections as int;
    let m = h.num_container_sections as int;
    let b = container_bytes(c);
    let hb = header_bytes(h);
    let p = 9 + 2 * n;
    let q = if m > 0 { p + 3 + 2 * m } else { p };
    lemma_sizes_bytes_index(h.code_sizes);
    lemma_sizes_bytes_index(h.container_sizes);
    // the fixed header fields
    let x4 = sizes_bytes(h.code_sizes);
    assert(b[0] == 0xEF && b[1] == 0x00 && b[2] == h.version && b[3] == 0x01);
    assert(b[4] == (h.types_size / 256) as u8 && b[5] == (h.types_size % 256) as u8);
    lemma_u16_of_be_bytes(b, 4, h.types_size);
    assert(b[6] == 0x02);
    assert(b[7] == (h.num_code_sections / 256) as u8 && b[8] == (h.num_code_sections % 256) as u8);
    lemma_u16_of_be_bytes(b, 7, h.num_code_sections);
    // the code sizes
    assert forall|i: int| 0 <= i < n implies #[trigger] u16_at(b, code_size_pos(i)) == h.code_sizes[i] by {
        assert(b[9 + 2 * i] == hb[9 + 2 * i]);
        assert(hb[9 + 2 * i] == x4[2 * i]);
        assert(b[9 + 2 * i + 1] == x4[2 * i + 1]);
        lemma_u16_of_be_bytes(b, 9 + 2 * i, h.code_sizes[i]);
    }
    assert forall|i: int| 0 <= i < n implies #[trigger] code_size_present(b, i) by {
        assert(u16_at(b, code_size_pos(i)) == h.code_sizes[i]);
    }
    lemma_code_fault_none(b, 0, n);
    assert(code_sizes_of(b) =~= h.code_sizes);
    // the container kind and sizes
    let x5 = sizes_bytes(h.container_sizes);
    assert(after_code_sizes_pos(b) == p);
    if m > 0 {
        assert(b[p] == hb[p]);
        assert(hb[p] == 0x03u8);
        assert(b[p + 1] == (h.num_container_sections / 256) as u8 && b[p + 2] == (
        h.num_container_sections % 256) as u8);
        lemma_u16_of_be_bytes(b, p + 1, h.num_container_sections);
        assert(has_container_kind(b));
        assert forall|j: int| 0 <= j < m implies #[trigger] u16_at(b, container_size_pos(b, j))
            == h.container_sizes[j] by {
            assert(container_size_pos(b, j) == p + 3 + 2 * j);
            assert(b[p + 3 + 2 * j] == x5[2 * j]);
            assert(b[p + 3 + 2 * j + 1] == x5[2 * j + 1]);
            lemma_u16_of_be_bytes(b, p + 3 + 2 * j, h.container_sizes[j]);
        }
        assert forall|j: int| 0 <= j < m implies #[trigger] container_size_present(b, j) by {
            assert(u16_at(b, container_size_pos(b, j)) == h.container_sizes[j]);
        }
        lemma_container_fault_none(b, 0, m);
    } else {
        assert(b[p] == hb[p]);
        assert(hb[p] == 0x04u8);
        assert(!has_container_kind(b));
    }
    assert(num_container_sections_of(b) == h.num_container_sections);
    assert(container_sizes_of(b) =~= h.container_sizes);
    assert(kind_data_pos(b) == q);
    // the data kind, data size and terminator
    assert(b[q] == 0x04u8);
    assert(b[q + 1] == (h.data_size / 256) as u8 && b[q + 2] == (h.data_size % 256) as u8);
    lemma_u16_of_be_bytes(b, q + 1, h.data_size);
    assert(b[q + 3] == 0x00u8);
    assert(header_of(b) =~= h);
}

/// A range of `b` that holds the bytes of `x`, one by one, is `x`.
proof fn lemma_subrange_is(b: Seq<u8>, a: int, x: Seq<u8>)
    requires
        0 <= a,
        a + x.len() <= b.len(),
        forall|k: int| 0 <= k < x.len() ==> #[trigger] b[a + k] == x[k],
    ensures
        b.subrange(a, a + x.len()) == x,
{
    assert forall|k: int| 0 <= k < x.len() implies #[trigger] b.subrange(a, a + x.len())[k]
        == x[k] by {
        assert(b[a + k] == x[k]);
    }
    assert(b.subrange(a, a + x.len()) =~= x);
}

/// Code section `i` of a container written out reads back as written,
/// with its types entry.
#[verifier::rlimit(40)]
proof fn lemma_written_code_section(c: EOFContainerView, i: int)
    requires
        is_writable_container(c),
        0 <= i < c.full_code_section.len(),
    ensures
        container_of(container_bytes(c)).full_code_section[i] == c.full_code_section[i],
{
    lemma_written_pieces(c);
    lemma_written_header(c);
    let h = c.header;
    let f = c.full_code_section;
    let b = container_bytes(c);
    let t = written_types_start(c);
    let cstart = written_code_start(c);
    let cb = code_bytes(c);
    let cp = f.map_values(|s: FullCodeSectionView| s.code_section);
    lemma_types_bytes_index(f);
    assert forall|j: int| 0 <= j < cp.len() implies (#[trigger] cp[j]).len() == h.code_sizes[j] by {
        assert(cp[j] == f[j].code_section);
    }
    lemma_concat_bytes_index(cp, h.code_sizes);
    let e = types_entry_bytes(f[i].types_section);
    assert(b[t + 4 * i] == e[0]);
    assert(b[t + 4 * i + 1] == e[1]);
    assert(b[t + 4 * i + 2] == e[2]);
    assert(b[t + 4 * i + 3] == e[3]);
    lemma_u16_of_be_bytes(b, t + 4 * i + 2, f[i].types_section.max_stack_height);
    assert(types_entry_at(b, t + 4 * i) == f[i].types_section);
    let si = sum_sizes(h.code_sizes.take(i));
    lemma_sum_take_step(h.code_sizes, i);
    lemma_sum_take_le(h.code_sizes, i + 1);
    assert(code_offset(b, i) == cstart + si);
    assert(code_sizes_of(b)[i] == h.code_sizes[i]);
    let x = f[i].code_section;
    assert(x.len() == h.code_sizes[i]);
    assert forall|k: int| 0 <= k < x.len() implies #[trigger] b[cstart + si + k] == x[k] by {
        assert(cb[si + k] == cp[i][k]);
    }
    lemma_subrange_is(b, cstart + si, x);
}

/// Container section `j` of a container written out reads back as written.
#[verifier::rlimit(40)]
proof fn lemma_written_container_section(c: EOFContainerView, j: int)
    requires
        is_writable_container(c),
        0 <= j < c.container_section.len(),
    ensures
        container_of(container_bytes(c)).container_section[j] == c.container_section[j],
{
    lemma_written_pieces(c);
    lemma_written_header(c);
    let h = c.header;
    let cs = c.container_section;
    let b = container_bytes(c);
    let kstart = written_containers_start(c);
    let kb = concat_bytes(cs);
    assert forall|x: int| 0 <= x < cs.len() implies (#[trigger] cs[x]).len() == h.container_sizes[x] by {}
    lemma_concat_bytes_index(cs, h.container_sizes);
    let sj = sum_sizes(h.container_sizes.take(j));
    lemma_sum_take_step(h.container_sizes, j);
    lemma_sum_take_le(h.container_sizes, j + 1);
    assert(container_offset(b, j) == kstart + sj);
    assert(container_sizes_of(b)[j] == h.container_sizes[j]);
    let x = cs[j];
    assert forall|k: int| 0 <= k < x.len() implies #[trigger] b[kstart + sj + k] == x[k] by {
        assert(kb[sj + k] == cs[j][k]);
    }
    lemma_subrange_is(b, kstart + sj, x);
}

/// The sections of a container written out read back as written.
proof fn lemma_written_sections(c: EOFContainerView)
    requires
        is_writable_container(c),
    ensures
        container_of(container_bytes(c)) == c,
{
    lemma_written_pieces(c);
    lemma_written_header(c);
    let b = container_bytes(c);
    assert forall|i: int| 0 <= i < c.full_code_section.len() implies #[trigger] container_of(
        b,
    ).full_code_section[i] == c.full_code_section[i] by {
        lemma_written_code_section(c, i);
    }
    assert(container_of(b).full_code_section =~= c.full_code_section);
    assert forall|j: int| 0 <= j < c.container_section.len() implies #[trigger] container_of(
        b,
    ).container_section[j] == c.container_section[j] by {
        lemma_written_container_section(c, j);
    }
    assert(container_of(b).container_section =~= c.container_section);
    assert(container_of(b).data_section =~= c.data_section);
    assert(container_of(b) =~= c);
}

/// Every well-formed container, written out, parses back to itself: the
/// parser refuses none of them, whatever the inputs and outputs of its
/// code sections after the first, and reads every field as written.
pub proof fn lemma_written_container_parses_back(c: EOFContainerView)
    requires
        is_writable_container(c),
    ensures
        parse_spec(container_bytes(c)) == ParseResult::Parsed(c),
{
    lemma_written_pieces(c);
    lemma_written_header(c);
    lemma_written_sections(c);
    let b = container_bytes(c);
    let f = c.full_code_section;
    let t = written_types_start(c);
    lemma_types_bytes_index(f);
    let e = types_entry_bytes(f[0].types_section);
    assert(b[t] == e[0] && b[t + 1] == e[1]);
    assert(parse_body(b) == ParseResult::Parsed(container_of(b)));
    assert(parse_sections(b) == parse_body(b));
}

} // verus!
