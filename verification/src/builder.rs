//! Assembling a container from thin per-architecture payloads: the inverse
//! of the parser.

use vstd::prelude::*;
use vstd::arithmetic::div_mod::lemma_fundamental_div_mod;
use vstd::arithmetic::div_mod::lemma_mod_bound;
use vstd::arithmetic::div_mod::lemma_mod_multiples_basic;
use vstd::arithmetic::power2::pow2;
use vstd::arithmetic::power2::lemma_pow2_pos;
use vstd::arithmetic::power2::lemma_pow2_strictly_increases;
use vstd::arithmetic::power2::lemma2_to64;
use vstd::bits::lemma_u64_shl_is_mul;
use crate::arch::Arch;
use crate::arch::CpuType;
use crate::arch::lemma_family_round_trip;
use crate::arch::spec_arch_of_record;
use crate::arch::spec_family_code;
use crate::codec::be32_bytes;
use crate::codec::lemma_be32_of_be32_bytes;
use crate::codec::push_be32;
use crate::fat_binary::spec_arch_at;
use crate::fat_binary::spec_count;
use crate::fat_binary::spec_extract;
use crate::fat_binary::spec_magic;
use crate::fat_binary::spec_parse;
use crate::fat_binary::spec_record_at;
use crate::fat_binary::spec_table_decodes;
use crate::ripo_error::RipoError;

verus! {

/// One architecture to embed: its family, subtype, payload bytes, and the
/// power-of-two alignment exponent its start offset must honour.
pub struct BuildEntry {
    pub cpu_type: CpuType,
    pub cpu_sub_type: u32,
    pub data: Vec<u8>,
    pub align: u32,
}

/// Mathematical image of one build entry.
pub ghost struct EntryView {
    pub cpu_type: CpuType,
    pub cpu_sub_type: u32,
    pub data: Seq<u8>,
    pub align: u32,
}

impl View for BuildEntry {
    type V = EntryView;

    open spec fn view(&self) -> EntryView {
        EntryView {
            cpu_type: self.cpu_type,
            cpu_sub_type: self.cpu_sub_type,
            data: self.data@,
            align: self.align,
        }
    }
}

/// The views of a vector of build entries.
pub open spec fn spec_entry_views(entries: Seq<BuildEntry>) -> Seq<EntryView> {
    entries.map_values(|e: BuildEntry| e@)
}

/// Bytes taken by magic, count and `n` descriptor records.
pub open spec fn spec_header_len(n: int) -> int {
    8 + 20 * n
}

/// Smallest multiple of `a` that is at least `x`.
pub open spec fn spec_round_up(x: int, a: int) -> int
    recommends
        a > 0,
{
    if x % a == 0 {
        x
    } else {
        x + a - x % a
    }
}

/// Rounding up lands on a multiple of `a`, moves forward, and overshoots by
/// less than `a`.
pub proof fn lemma_round_up(x: int, a: int)
    requires
        0 <= x,
        0 < a,
    ensures
        x <= spec_round_up(x, a) < x + a,
        spec_round_up(x, a) % a == 0,
{
    let m = x % a;
    lemma_mod_bound(x, a);
    if m != 0 {
        lemma_fundamental_div_mod(x, a);
        assert(x + a - m == a * (x / a) + a);
        assert(a * (x / a) + a == (x / a + 1) * a) by (nonlinear_arith);
        lemma_mod_multiples_basic(x / a + 1, a);
    }
}

/// Start offset of entry `i`'s payload: the first properly aligned position
/// at or after the end of everything laid out before it.
pub open spec fn spec_offset_of(es: Seq<EntryView>, i: int) -> int
    recommends
        0 <= i < es.len(),
    decreases i,
{
    if i <= 0 {
        spec_round_up(spec_header_len(es.len() as int), pow2(es[0].align as nat) as int)
    } else {
        spec_round_up(
            spec_offset_of(es, i - 1) + es[i - 1].data.len(),
            pow2(es[i].align as nat) as int,
        )
    }
}

/// One past the last byte of entry `i`'s payload.
pub open spec fn spec_end_of(es: Seq<EntryView>, i: int) -> int {
    spec_offset_of(es, i) + es[i].data.len()
}

/// First byte position that may belong to entry `i`: the header end for the
/// first entry, the previous payload's end after that.  Bytes between here
/// and `spec_offset_of` are alignment padding.
pub open spec fn spec_gap_lo(es: Seq<EntryView>, i: int) -> int {
    if i <= 0 {
        spec_header_len(es.len() as int)
    } else {
        spec_end_of(es, i - 1)
    }
}

/// Total length of the built container.
pub open spec fn spec_total_len(es: Seq<EntryView>) -> int
    recommends
        es.len() > 0,
{
    spec_end_of(es, es.len() - 1)
}

/// Every alignment exponent stays below 32.
pub open spec fn spec_aligns_ok(es: Seq<EntryView>) -> bool {
    forall|k: int| 0 <= k < es.len() ==> (#[trigger] es[k].align) < 32
}

/// The machine limits the format imposes on build inputs: alignment
/// exponents below 32, a descriptor count and a total layout that fit the
/// 32-bit header fields.
pub open spec fn spec_entries_fit(es: Seq<EntryView>) -> bool {
    &&& spec_aligns_ok(es)
    &&& es.len() <= u32::MAX
    &&& es.len() > 0 ==> spec_total_len(es) <= u32::MAX
}

/// The layout is ordered and aligned: each offset is a multiple of its
/// entry's alignment, sits at or after the header and after every earlier
/// payload, so payload ranges are pairwise disjoint.
pub proof fn lemma_layout(es: Seq<EntryView>, i: int)
    requires
        0 <= i < es.len(),
        spec_aligns_ok(es),
    ensures
        spec_header_len(es.len() as int) <= spec_gap_lo(es, i),
        spec_gap_lo(es, i) <= spec_offset_of(es, i),
        spec_offset_of(es, i) < spec_gap_lo(es, i) + pow2(es[i].align as nat),
        spec_offset_of(es, i) % (pow2(es[i].align as nat) as int) == 0,
        forall|k: int| 0 <= k < i ==> #[trigger] spec_end_of(es, k) <= spec_gap_lo(es, i),
    decreases i,
{
    lemma_pow2_pos(es[i].align as nat);
    if i == 0 {
        lemma_round_up(spec_header_len(es.len() as int), pow2(es[0].align as nat) as int);
    } else {
        lemma_layout(es, i - 1);
        lemma_round_up(spec_gap_lo(es, i), pow2(es[i].align as nat) as int);
        assert forall|k: int| 0 <= k < i implies #[trigger] spec_end_of(es, k) <= spec_gap_lo(
            es,
            i,
        ) by {
            if k < i - 1 {
                assert(spec_end_of(es, k) <= spec_gap_lo(es, i - 1));
            }
        }
    }
}

/// The whole layout ends no earlier than any of its parts.
pub proof fn lemma_layout_total(es: Seq<EntryView>, i: int)
    requires
        0 <= i < es.len(),
        spec_aligns_ok(es),
    ensures
        spec_end_of(es, i) <= spec_total_len(es),
        spec_header_len(es.len() as int) <= spec_offset_of(es, i),
{
    let last = es.len() - 1;
    lemma_layout(es, i);
    lemma_layout(es, last);
    if i < last {
        assert(spec_end_of(es, i) <= spec_gap_lo(es, last));
    }
}

/// The 20-byte on-disk record the builder writes for entry `i`: family
/// code, subtype, the computed offset, the payload length, and the
/// alignment exponent, all big-endian.
pub open spec fn spec_record_bytes(es: Seq<EntryView>, i: int) -> Seq<u8> {
    be32_bytes(spec_family_code(es[i].cpu_type)) + be32_bytes(es[i].cpu_sub_type) + be32_bytes(
        spec_offset_of(es, i) as u32,
    ) + be32_bytes(es[i].data.len() as u32) + be32_bytes(es[i].align)
}

/// What it means for byte stream `b` to be the container built from `es`:
/// magic, count, one record per entry, every payload at its computed offset,
/// and zero fill in the alignment gaps.  This pins down every byte.
pub open spec fn spec_is_built(es: Seq<EntryView>, b: Seq<u8>) -> bool {
    &&& es.len() > 0
    &&& b.len() == spec_total_len(es)
    &&& b.subrange(0, 4) == spec_magic()
    &&& b.subrange(4, 8) == be32_bytes(es.len() as u32)
    &&& forall|i: int|
        0 <= i < es.len() ==> #[trigger] spec_record_at(b, i) == spec_record_bytes(es, i)
    &&& forall|i: int|
        0 <= i < es.len() ==> b.subrange(#[trigger] spec_offset_of(es, i), spec_end_of(es, i))
            == es[i].data
    &&& forall|i: int|
        0 <= i < es.len() ==> b.subrange(spec_gap_lo(es, i), #[trigger] spec_offset_of(es, i))
            == Seq::new((spec_offset_of(es, i) - spec_gap_lo(es, i)) as nat, |q: int| 0u8)
}

/// The descriptor the built container carries for entry `i`: family and
/// subtype as given, the computed offset, the payload's length, and the
/// requested alignment exponent.
pub open spec fn spec_built_arch(es: Seq<EntryView>, i: int) -> Arch {
    Arch {
        cpu_type: es[i].cpu_type,
        cpu_sub_type: es[i].cpu_sub_type,
        offset: spec_offset_of(es, i) as u32,
        size: es[i].data.len() as u32,
        align: es[i].align,
    }
}

/// Round trip: a container built from any non-empty fitting set of entries
/// parses successfully into descriptors whose family, subtype, size and
/// alignment match the entries one for one, every descriptor extracts to its
/// original payload byte for byte, every offset is a multiple of its
/// entry's alignment, and the payload ranges are pairwise disjoint.
#[verifier::rlimit(100)]
#[verifier::spinoff_prover]
pub proof fn lemma_build_round_trip(es: Seq<EntryView>, b: Seq<u8>)
    requires
        spec_entries_fit(es),
        es.len() > 0,
        spec_is_built(es, b),
    ensures
        spec_parse(b) == Ok::<Seq<Arch>, RipoError>(
            Seq::new(es.len(), |i: int| spec_built_arch(es, i)),
        ),
        forall|i: int|
            0 <= i < es.len() ==> spec_extract(#[trigger] spec_built_arch(es, i), b)
                == Ok::<Seq<u8>, RipoError>(es[i].data),
        forall|i: int|
            0 <= i < es.len() ==> (#[trigger] spec_built_arch(es, i)).offset as int % (pow2(
                es[i].align as nat,
            ) as int) == 0,
        forall|i: int, j: int|
            0 <= i < j < es.len() ==> (#[trigger] spec_built_arch(es, i)).offset + spec_built_arch(
                es,
                i,
            ).size <= (#[trigger] spec_built_arch(es, j)).offset,
{
    let n = es.len() as int;
    lemma_layout(es, 0);
    lemma_layout_total(es, 0);
    assert(b.len() >= spec_header_len(n));
    assert(b.subrange(4, 8) == be32_bytes(n as u32));
    lemma_be32_of_be32_bytes(n as u32);
    assert(spec_count(b) == n as u32);
    assert forall|i: int| 0 <= i < n implies #[trigger] spec_arch_of_record(spec_record_at(b, i))
        == Some(spec_built_arch(es, i)) by {
        lemma_layout(es, i);
        lemma_layout_total(es, i);
        let rec = spec_record_at(b, i);
        assert(rec == spec_record_bytes(es, i));
        let code = spec_family_code(es[i].cpu_type);
        let off32 = spec_offset_of(es, i) as u32;
        let size32 = es[i].data.len() as u32;
        assert(rec.subrange(0, 4) =~= be32_bytes(code));
        assert(rec.subrange(4, 8) =~= be32_bytes(es[i].cpu_sub_type));
        assert(rec.subrange(8, 12) =~= be32_bytes(off32));
        assert(rec.subrange(12, 16) =~= be32_bytes(size32));
        assert(rec.subrange(16, 20) =~= be32_bytes(es[i].align));
        lemma_be32_of_be32_bytes(code);
        lemma_be32_of_be32_bytes(es[i].cpu_sub_type);
        lemma_be32_of_be32_bytes(off32);
        lemma_be32_of_be32_bytes(size32);
        lemma_be32_of_be32_bytes(es[i].align);
        lemma_family_round_trip(es[i].cpu_type);
    }
    assert(spec_table_decodes(b, n));
    assert(Seq::new(spec_count(b) as nat, |i: int| spec_arch_at(b, i)) =~= Seq::new(
        es.len(),
        |i: int| spec_built_arch(es, i),
    ));
    assert forall|i: int| 0 <= i < n implies spec_extract(#[trigger] spec_built_arch(es, i), b)
        == Ok::<Seq<u8>, RipoError>(es[i].data) by {
        lemma_layout(es, i);
        lemma_layout_total(es, i);
        let a = spec_built_arch(es, i);
        assert(a.offset + a.size == spec_end_of(es, i));
        assert(b.subrange(spec_offset_of(es, i), spec_end_of(es, i)) == es[i].data);
    }
    assert forall|i: int| 0 <= i < n implies (#[trigger] spec_built_arch(es, i)).offset as int % (
    pow2(es[i].align as nat) as int) == 0 by {
        lemma_layout(es, i);
        lemma_layout_total(es, i);
    }
    assert forall|i: int, j: int| 0 <= i < j < n implies (#[trigger] spec_built_arch(es, i)).offset
        + spec_built_arch(es, i).size <= (#[trigger] spec_built_arch(es, j)).offset by {
        lemma_layout(es, i);
        lemma_layout_total(es, i);
        lemma_layout(es, j);
        lemma_layout_total(es, j);
        assert(spec_end_of(es, i) <= spec_gap_lo(es, j));
    }
}

/// Appends `count` zero bytes.
fn push_zeros(out: &mut Vec<u8>, count: usize)
    ensures
        final(out)@ == old(out)@ + Seq::new(count as nat, |q: int| 0u8),
{
    let mut j: usize = 0;
    while j < count
        invariant
            j <= count,
            out@ == old(out)@ + Seq::new(j as nat, |q: int| 0u8),
        decreases count - j,
    {
        out.push(0);
        j = j + 1;
        proof {
            assert(out@ =~= old(out)@ + Seq::new(j as nat, |q: int| 0u8));
        }
    }
}

/// Appends a copy of `data`.
fn push_bytes(out: &mut Vec<u8>, data: &Vec<u8>)
    ensures
        final(out)@ == old(out)@ + data@,
{
    let mut j: usize = 0;
    while j < data.len()
        invariant
            j <= data.len(),
            out@ == old(out)@ + data@.subrange(0, j as int),
        decreases data.len() - j,
    {
        out.push(data[j]);
        j = j + 1;
        proof {
            assert(out@ =~= old(out)@ + data@.subrange(0, j as int));
        }
    }
    proof {
        assert(data@.subrange(0, data.len() as int) =~= data@);
    }
}

/// Rounds `x` up to the next multiple of two to the `e`.
fn round_up_u64(x: u64, e: u32) -> (r: u64)
    requires
        e < 32,
        x <= u32::MAX as u64,
    ensures
        r == spec_round_up(x as int, pow2(e as nat) as int),
{
    proof {
        lemma2_to64();
        lemma_pow2_pos(e as nat);
        lemma_pow2_strictly_increases(e as nat, 32);
        lemma_u64_shl_is_mul(1u64, e as u64);
    }
    let a: u64 = 1u64 << e;
    let m = x % a;
    if m == 0 {
        x
    } else {
        x + a - m
    }
}

/// Decides whether a set of entries respects the machine limits the builder
/// requires: every caller can test this before asking for a build.
pub fn entries_fit(entries: &Vec<BuildEntry>) -> (b: bool)
    ensures
        b == spec_entries_fit(spec_entry_views(entries@)),
{
    let ghost es = spec_entry_views(entries@);
    let n = entries.len();
    if n as u64 > u32::MAX as u64 {
        return false;
    }
    let mut i: usize = 0;
    while i < n
        invariant
            n == entries.len(),
            es == spec_entry_views(entries@),
            i <= n,
            forall|k: int| 0 <= k < i ==> (#[trigger] es[k].align) < 32,
        decreases n - i,
    {
        if entries[i].align >= 32 {
            proof {
                assert(es[i as int].align == entries@[i as int].align);
                assert(!spec_aligns_ok(es));
            }
            return false;
        }
        i = i + 1;
    }
    assert(spec_aligns_ok(es));
    if n == 0 {
        return true;
    }
    let mut cur: u64 = 8u64 + 20u64 * (n as u64);
    assert(cur == spec_gap_lo(es, 0));
    if cur > u32::MAX as u64 {
        proof {
            lemma_layout_total(es, 0);
            lemma_layout(es, 0);
        }
        return false;
    }
    let mut i: usize = 0;
    while i < n
        invariant
            n == entries.len(),
            es == spec_entry_views(entries@),
            n == es.len(),
            0 < n <= u32::MAX,
            spec_aligns_ok(es),
            i <= n,
            cur == spec_gap_lo(es, i as int),
            cur <= u32::MAX,
        decreases n - i,
    {
        proof {
            lemma_layout(es, i as int);
            lemma_layout_total(es, i as int);
        }
        let off = round_up_u64(cur, entries[i].align);
        assert(off == spec_offset_of(es, i as int));
        if off > u32::MAX as u64 {
            return false;
        }
        let len_u64 = entries[i].data.len() as u64;
        assert(len_u64 == es[i as int].data.len());
        if len_u64 > u32::MAX as u64 - off {
            return false;
        }
        cur = off + len_u64;
        assert(cur == spec_end_of(es, i as int));
        i = i + 1;
    }
    assert(cur == spec_total_len(es));
    true
}

/// Lays the given payloads out after the header, each start rounded up to
/// its alignment, and serializes magic, count, descriptor table, padding and
/// payloads: a container the parser accepts and whose slices extract to the
/// original payloads.  Offsets are an output of layout, never an input.
/// No entries at all is a caller error, `EmptyInput`.
pub fn build(entries: &Vec<BuildEntry>) -> (r: Result<Vec<u8>, RipoError>)
    requires
        spec_entries_fit(spec_entry_views(entries@)),
    ensures
        match r {
            Ok(v) => entries@.len() > 0 && spec_is_built(spec_entry_views(entries@), v@),
            Err(e) => entries@.len() == 0 && e == RipoError::EmptyInput,
        },
{
    let ghost es = spec_entry_views(entries@);
    let n = entries.len();
    if n == 0 {
        return Err(RipoError::EmptyInput);
    }
    // First pass: compute every payload's start offset.
    let mut offs: Vec<u32> = Vec::new();
    let mut cur: u64 = 8u64 + 20u64 * (n as u64);
    proof {
        lemma_layout(es, 0);
        lemma_layout_total(es, 0);
    }
    let mut i: usize = 0;
    while i < n
        invariant
            n == entries.len(),
            es == spec_entry_views(entries@),
            n == es.len(),
            0 < n <= u32::MAX,
            spec_entries_fit(es),
            i <= n,
            cur == spec_gap_lo(es, i as int),
            cur <= u32::MAX,
            offs@.len() == i,
            forall|k: int| 0 <= k < i ==> (#[trigger] offs@[k]) as int == spec_offset_of(es, k),
        decreases n - i,
    {
        proof {
            lemma_layout(es, i as int);
            lemma_layout_total(es, i as int);
        }
        let off = round_up_u64(cur, entries[i].align);
        assert(off == spec_offset_of(es, i as int));
        offs.push(off as u32);
        cur = off + entries[i].data.len() as u64;
        assert(cur == spec_end_of(es, i as int));
        i = i + 1;
    }
    assert(cur == spec_total_len(es));
    // Second pass: magic and count.
    let mut out: Vec<u8> = Vec::new();
    out.push(0xca);
    out.push(0xfe);
    out.push(0xba);
    out.push(0xbe);
    push_be32(&mut out, n as u32);
    let ghost head = out@;
    proof {
        assert(head.len() == 8);
        assert(head.subrange(0, 4) =~= spec_magic());
        assert(head.subrange(4, 8) =~= be32_bytes(n as u32));
    }
    // Third pass: the descriptor table.
    let mut i: usize = 0;
    while i < n
        invariant
            n == entries.len(),
            es == spec_entry_views(entries@),
            n == es.len(),
            0 < n <= u32::MAX,
            spec_entries_fit(es),
            offs@.len() == n,
            forall|k: int| 0 <= k < n ==> (#[trigger] offs@[k]) as int == spec_offset_of(es, k),
            i <= n,
            out@.len() == 8 + 20 * i,
            out@.subrange(0, 8) == head,
            forall|k: int|
                0 <= k < i ==> out@.subrange(8 + 20 * k, 8 + 20 * k + 20)
                    == #[trigger] spec_record_bytes(es, k),
        decreases n - i,
    {
        let ghost pre = out@;
        proof {
            lemma_layout(es, i as int);
            lemma_layout_total(es, i as int);
        }
        push_be32(&mut out, entries[i].cpu_type.code());
        push_be32(&mut out, entries[i].cpu_sub_type);
        push_be32(&mut out, offs[i]);
        push_be32(&mut out, entries[i].data.len() as u32);
        push_be32(&mut out, entries[i].align);
        proof {
            assert(offs@[i as int] == spec_offset_of(es, i as int) as u32);
            assert(entries@[i as int].data@.len() as u32 == es[i as int].data.len() as u32);
            assert(out@.subrange(0, 8) =~= pre.subrange(0, 8));
            assert forall|k: int| 0 <= k < i implies out@.subrange(8 + 20 * k, 8 + 20 * k + 20)
                == #[trigger] spec_record_bytes(es, k) by {
                assert(out@.subrange(8 + 20 * k, 8 + 20 * k + 20) =~= pre.subrange(
                    8 + 20 * k,
                    8 + 20 * k + 20,
                ));
            }
            assert(out@.subrange(8 + 20 * (i as int), 8 + 20 * (i as int) + 20)
                =~= spec_record_bytes(es, i as int));
        }
        i = i + 1;
    }
    // Fourth pass: padding and payloads.
    let mut i: usize = 0;
    while i < n
        invariant
            n == entries.len(),
            es == spec_entry_views(entries@),
            n == es.len(),
            0 < n <= u32::MAX,
            spec_entries_fit(es),
            offs@.len() == n,
            forall|k: int| 0 <= k < n ==> (#[trigger] offs@[k]) as int == spec_offset_of(es, k),
            i <= n,
            out@.len() == spec_gap_lo(es, i as int),
            out@.subrange(0, 8) == head,
            forall|k: int|
                0 <= k < n ==> out@.subrange(8 + 20 * k, 8 + 20 * k + 20)
                    == #[trigger] spec_record_bytes(es, k),
            forall|k: int|
                0 <= k < i ==> out@.subrange(#[trigger] spec_offset_of(es, k), spec_end_of(es, k))
                    == es[k].data,
            forall|k: int|
                0 <= k < i ==> out@.subrange(spec_gap_lo(es, k), #[trigger] spec_offset_of(es, k))
                    == Seq::new((spec_offset_of(es, k) - spec_gap_lo(es, k)) as nat, |q: int| 0u8),
        decreases n - i,
    {
        let ghost pre = out@;
        proof {
            lemma_layout(es, i as int);
            lemma_layout_total(es, i as int);
        }
        let off = offs[i];
        let pad = off as usize - out.len();
        push_zeros(&mut out, pad);
        push_bytes(&mut out, &entries[i].data);
        proof {
            assert(out@.len() == spec_end_of(es, i as int));
            assert(out@.subrange(0, 8) =~= pre.subrange(0, 8));
            assert forall|k: int| 0 <= k < n implies out@.subrange(8 + 20 * k, 8 + 20 * k + 20)
                == #[trigger] spec_record_bytes(es, k) by {
                assert(out@.subrange(8 + 20 * k, 8 + 20 * k + 20) =~= pre.subrange(
                    8 + 20 * k,
                    8 + 20 * k + 20,
                ));
            }
            assert forall|k: int| 0 <= k < i implies out@.subrange(
                #[trigger] spec_offset_of(es, k),
                spec_end_of(es, k),
            ) == es[k].data by {
                lemma_layout(es, k);
                lemma_layout_total(es, k);
                assert(spec_end_of(es, k) <= pre.len());
                assert(out@.subrange(spec_offset_of(es, k), spec_end_of(es, k)) =~= pre.subrange(
                    spec_offset_of(es, k),
                    spec_end_of(es, k),
                ));
            }
            assert forall|k: int| 0 <= k < i implies out@.subrange(
                spec_gap_lo(es, k),
                #[trigger] spec_offset_of(es, k),
            ) == Seq::new((spec_offset_of(es, k) - spec_gap_lo(es, k)) as nat, |q: int| 0u8) by {
                lemma_layout(es, k);
                lemma_layout_total(es, k);
                assert(spec_offset_of(es, k) <= pre.len());
                assert(out@.subrange(spec_gap_lo(es, k), spec_offset_of(es, k)) =~= pre.subrange(
                    spec_gap_lo(es, k),
                    spec_offset_of(es, k),
                ));
            }
            assert(out@.subrange(spec_gap_lo(es, i as int), spec_offset_of(es, i as int))
                =~= Seq::new(
                (spec_offset_of(es, i as int) - spec_gap_lo(es, i as int)) as nat,
                |q: int| 0u8,
            ));
            assert(out@.subrange(spec_offset_of(es, i as int), spec_end_of(es, i as int))
                =~= es[i as int].data);
        }
        i = i + 1;
    }
    proof {
        assert(out@.len() == spec_total_len(es));
        assert(out@.subrange(0, 4) =~= head.subrange(0, 4));
        assert(out@.subrange(4, 8) =~= head.subrange(4, 8));
        assert forall|k: int| 0 <= k < n implies #[trigger] spec_record_at(out@, k)
            == spec_record_bytes(es, k) by {
            assert(spec_record_at(out@, k) == out@.subrange(8 + 20 * k, 8 + 20 * k + 20));
        }
        assert(spec_is_built(es, out@));
    }
    Ok(out)
}

} // verus!
