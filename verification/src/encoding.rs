//! The bytes of a container written back out: header, types entries, code
//! sections, container sections and data, in the order that the parser
//! reads them.
use crate::layout::{sum_sizes, types_entry_at, u16_at, lemma_sum_take_step};
use crate::types::eof_container::{EOFContainerView, HeaderView};
use crate::types::full_code_section::{FullCodeSectionView, TypesSection};
use vstd::prelude::*;

verus! {

/// The two bytes of `x`, big-endian.
pub open spec fn be_bytes(x: u16) -> Seq<u8> {
    seq![(x / 256) as u8, (x % 256) as u8]
}

/// The sizes `s`, two bytes each, big-endian.
pub open spec fn sizes_bytes(s: Seq<u16>) -> Seq<u8>
    decreases s.len(),
{
    if s.len() == 0 {
        Seq::empty()
    } else {
        sizes_bytes(s.drop_last()) + be_bytes(s.last())
    }
}

/// The pieces `p`, one after the other.
pub open spec fn concat_bytes(p: Seq<Seq<u8>>) -> Seq<u8>
    decreases p.len(),
{
    if p.len() == 0 {
        Seq::empty()
    } else {
        concat_bytes(p.drop_last()) + p.last()
    }
}

/// A types entry: inputs, outputs (0x80 for a non-returning section) and
/// maximum stack height.
pub open spec fn types_entry_bytes(t: TypesSection) -> Seq<u8> {
    seq![
        t.inputs,
        match t.outputs {
            Some(x) => x,
            None => 128u8,
        },
    ] + be_bytes(t.max_stack_height)
}

/// The types entries of the code sections `f`, one after the other.
pub open spec fn types_bytes(f: Seq<FullCodeSectionView>) -> Seq<u8>
    decreases f.len(),
{
    if f.len() == 0 {
        Seq::empty()
    } else {
        types_bytes(f.drop_last()) + types_entry_bytes(f.last().types_section)
    }
}

/// The header: magic, version, the kinds with their sizes, and the terminator.
pub open spec fn header_bytes(h: HeaderView) -> Seq<u8> {
    seq![0xEFu8, 0x00u8, h.version, 0x01u8] + be_bytes(h.types_size) + seq![0x02u8] + be_bytes(
        h.num_code_sections,
    ) + sizes_bytes(h.code_sizes) + (if h.num_container_sections > 0 {
        seq![0x03u8] + be_bytes(h.num_container_sections) + sizes_bytes(h.container_sizes)
    } else {
        Seq::empty()
    }) + seq![0x04u8] + be_bytes(h.data_size) + seq![0x00u8]
}

/// The bytes of the container `c`.
pub open spec fn container_bytes(c: EOFContainerView) -> Seq<u8> {
    header_bytes(c.header) + types_bytes(c.full_code_section) + concat_bytes(
        c.full_code_section.map_values(|s: FullCodeSectionView| s.code_section),
    ) + concat_bytes(c.container_section) + c.data_section
}

/// Two adjacent ranges of a sequence make up the range that covers both.
pub proof fn lemma_subrange_join(b: Seq<u8>, i: int, j: int, k: int)
    requires
        0 <= i <= j <= k <= b.len(),
    ensures
        b.subrange(i, j) + b.subrange(j, k) == b.subrange(i, k),
{
    assert(b.subrange(i, j) + b.subrange(j, k) =~= b.subrange(i, k));
}

/// The two bytes at `p` are the big-endian bytes of the number read there.
pub proof fn lemma_be_bytes_at(b: Seq<u8>, p: int)
    requires
        0 <= p,
        p + 2 <= b.len(),
    ensures
        be_bytes(u16_at(b, p)) == b.subrange(p, p + 2),
{
    let x = b[p] as int * 256 + b[p + 1] as int;
    assert(x / 256 == b[p] as int);
    assert(x % 256 == b[p + 1] as int);
    assert(be_bytes(u16_at(b, p)) =~= b.subrange(p, p + 2));
}

/// Sizes read two by two from `start` are the bytes they were read from.
pub proof fn lemma_sizes_bytes_at(b: Seq<u8>, s: Seq<u16>, start: int)
    requires
        0 <= start,
        start + 2 * s.len() <= b.len(),
        forall|i: int| 0 <= i < s.len() ==> #[trigger] s[i] == u16_at(b, start + 2 * i),
    ensures
        sizes_bytes(s) == b.subrange(start, start + 2 * s.len()),
    decreases s.len(),
{
    if s.len() == 0 {
        assert(b.subrange(start, start) =~= Seq::<u8>::empty());
    } else {
        let k = s.len() - 1;
        let d = s.drop_last();
        assert forall|i: int| 0 <= i < d.len() implies #[trigger] d[i] == u16_at(b, start + 2 * i) by {
            assert(d[i] == s[i]);
        }
        lemma_sizes_bytes_at(b, d, start);
        assert(s.last() == s[k]);
        lemma_be_bytes_at(b, start + 2 * k);
        lemma_subrange_join(b, start, start + 2 * k, start + 2 * k + 2);
    }
}

/// Types entries read four by four from `start` are the bytes they were
/// read from.
pub proof fn lemma_types_bytes_at(b: Seq<u8>, f: Seq<FullCodeSectionView>, start: int)
    requires
        0 <= start,
        start + 4 * f.len() <= b.len(),
        forall|i: int|
            0 <= i < f.len() ==> #[trigger] f[i].types_section == types_entry_at(b, start + 4 * i),
    ensures
        types_bytes(f) == b.subrange(start, start + 4 * f.len()),
    decreases f.len(),
{
    if f.len() == 0 {
        assert(b.subrange(start, start) =~= Seq::<u8>::empty());
    } else {
        let k = f.len() - 1;
        let d = f.drop_last();
        assert forall|i: int| 0 <= i < d.len() implies #[trigger] d[i].types_section
            == types_entry_at(b, start + 4 * i) by {
            assert(d[i] == f[i]);
        }
        lemma_types_bytes_at(b, d, start);
        let p = start + 4 * k;
        assert(f.last() == f[k]);
        lemma_be_bytes_at(b, p + 2);
        assert(types_entry_bytes(types_entry_at(b, p)) =~= b.subrange(p, p + 4));
        lemma_subrange_join(b, start, p, p + 4);
    }
}

/// Pieces that follow each other in `b` from `start`, of the sizes `s`,
/// make up the range they cover.
pub proof fn lemma_concat_bytes_at(b: Seq<u8>, p: Seq<Seq<u8>>, s: Seq<u16>, start: int)
    requires
        0 <= start,
        p.len() == s.len(),
        start + sum_sizes(s) <= b.len(),
        forall|i: int|
            0 <= i < p.len() ==> #[trigger] p[i] == b.subrange(
                start + sum_sizes(s.take(i)),
                start + sum_sizes(s.take(i)) + s[i],
            ),
    ensures
        concat_bytes(p) == b.subrange(start, start + sum_sizes(s)),
    decreases p.len(),
{
    if p.len() == 0 {
        assert(b.subrange(start, start) =~= Seq::<u8>::empty());
    } else {
        let k = p.len() - 1;
        let dp = p.drop_last();
        let ds = s.drop_last();
        assert forall|i: int| 0 <= i < dp.len() implies #[trigger] dp[i] == b.subrange(
            start + sum_sizes(ds.take(i)),
            start + sum_sizes(ds.take(i)) + ds[i],
        ) by {
            assert(ds.take(i) =~= s.take(i));
            assert(dp[i] == p[i]);
        }
        assert(s.take(k) =~= ds);
        assert(s.take(k + 1) =~= s);
        lemma_sum_take_step(s, k);
        lemma_concat_bytes_at(b, dp, ds, start);
        assert(p.last() == p[k]);
        lemma_subrange_join(b, start, start + sum_sizes(ds), start + sum_sizes(s));
    }
}

/// The bytes of sizes: two per size, high byte first.
pub proof fn lemma_sizes_bytes_index(s: Seq<u16>)
    ensures
        sizes_bytes(s).len() == 2 * s.len(),
        forall|i: int|
            0 <= i < s.len() ==> sizes_bytes(s)[2 * i] == (#[trigger] s[i] / 256) as u8
                && sizes_bytes(s)[2 * i + 1] == (s[i] % 256) as u8,
    decreases s.len(),
{
    if s.len() > 0 {
        let d = s.drop_last();
        lemma_sizes_bytes_index(d);
        assert forall|i: int| 0 <= i < s.len() implies sizes_bytes(s)[2 * i] == (#[trigger] s[i]
            / 256) as u8 && sizes_bytes(s)[2 * i + 1] == (s[i] % 256) as u8 by {
            if i < d.len() {
                assert(d[i] == s[i]);
            }
        }
    }
}

/// The bytes of types entries: four per entry.
pub proof fn lemma_types_bytes_index(f: Seq<FullCodeSectionView>)
    ensures
        types_bytes(f).len() == 4 * f.len(),
        forall|i: int|
            0 <= i < f.len() ==> {
                let e = types_entry_bytes((#[trigger] f[i]).types_section);
                &&& types_bytes(f)[4 * i] == e[0]
                &&& types_bytes(f)[4 * i + 1] == e[1]
                &&& types_bytes(f)[4 * i + 2] == e[2]
                &&& types_bytes(f)[4 * i + 3] == e[3]
            },
    decreases f.len(),
{
    if f.len() > 0 {
        let d = f.drop_last();
        lemma_types_bytes_index(d);
        assert forall|i: int| 0 <= i < f.len() implies {
            let e = types_entry_bytes((#[trigger] f[i]).types_section);
            &&& types_bytes(f)[4 * i] == e[0]
            &&& types_bytes(f)[4 * i + 1] == e[1]
            &&& types_bytes(f)[4 * i + 2] == e[2]
            &&& types_bytes(f)[4 * i + 3] == e[3]
        } by {
            if i < d.len() {
                assert(d[i] == f[i]);
            }
        }
    }
}

/// The bytes of pieces of the sizes `s`, one after the other: piece `i`
/// starts after the sum of the sizes before it.
pub proof fn lemma_concat_bytes_index(p: Seq<Seq<u8>>, s: Seq<u16>)
    requires
        p.len() == s.len(),
        forall|i: int| 0 <= i < p.len() ==> (#[trigger] p[i]).len() == s[i],
    ensures
        concat_bytes(p).len() == sum_sizes(s),
        forall|i: int, k: int|
            0 <= i < p.len() && 0 <= k < s[i] ==> concat_bytes(p)[sum_sizes(s.take(i)) + k]
                == #[trigger] p[i][k],
    decreases p.len(),
{
    if p.len() > 0 {
        let dp = p.drop_last();
        let ds = s.drop_last();
        assert forall|i: int| 0 <= i < dp.len() implies (#[trigger] dp[i]).len() == ds[i] by {
            assert(dp[i] == p[i]);
        }
        lemma_concat_bytes_index(dp, ds);
        assert(s.drop_last() =~= s.take(s.len() - 1));
        assert forall|i: int, k: int| 0 <= i < p.len() && 0 <= k < s[i] implies concat_bytes(p)[sum_sizes(
            s.take(i),
        ) + k] == #[trigger] p[i][k] by {
            if i < dp.len() {
                assert(ds.take(i) =~= s.take(i));
                assert(dp[i] == p[i]);
                lemma_sum_take_step(ds, i);
                crate::layout::lemma_sum_take_le(ds, i + 1);
            } else {
                assert(s.take(i) =~= ds);
            }
        }
    }
}

/// Two bytes high byte first read back as the number they were made from.
pub proof fn lemma_u16_of_be_bytes(b: Seq<u8>, pos: int, x: u16)
    requires
        0 <= pos,
        pos + 2 <= b.len(),
        b[pos] == (x / 256) as u8,
        b[pos + 1] == (x % 256) as u8,
    ensures
        u16_at(b, pos) == x,
{
}

} // verus!
