//! Parsing a container's header and descriptor table, and extracting the
//! embedded slices.

use vstd::prelude::*;
use crate::arch::Arch;
use crate::arch::CpuType;
use crate::arch::spec_arch_of_record;
use crate::codec::be32;
use crate::codec::read_be32;
use crate::ripo_error::RipoError;

verus! {

/// The container magic, CA FE BA BE.
pub open spec fn spec_magic() -> Seq<u8> {
    seq![0xcau8, 0xfeu8, 0xbau8, 0xbeu8]
}

/// The 20-byte record of descriptor `i` in stream `b`.
pub open spec fn spec_record_at(b: Seq<u8>, i: int) -> Seq<u8> {
    b.subrange(8 + 20 * i, 8 + 20 * i + 20)
}

/// Descriptor count announced by the header of stream `b`.
pub open spec fn spec_count(b: Seq<u8>) -> u32
    recommends
        b.len() >= 8,
{
    be32(b.subrange(4, 8))
}

/// Whether each of the first `n` records carries a known family code.
pub open spec fn spec_table_decodes(b: Seq<u8>, n: int) -> bool {
    forall|i: int| 0 <= i < n ==> (#[trigger] spec_arch_of_record(spec_record_at(b, i))) is Some
}

/// The descriptor that record `i` of stream `b` spells.
pub open spec fn spec_arch_at(b: Seq<u8>, i: int) -> Arch
    recommends
        spec_arch_of_record(spec_record_at(b, i)) is Some,
{
    spec_arch_of_record(spec_record_at(b, i))->Some_0
}

/// What parsing a byte stream yields: either the ordered descriptor table or
/// the first structural error, exactly as the format rules dictate.
pub open spec fn spec_parse(b: Seq<u8>) -> Result<Seq<Arch>, RipoError> {
    if b.len() < 4 {
        Err(RipoError::TruncatedHeader)
    } else if b.subrange(0, 4) != spec_magic() {
        Err(RipoError::NotAContainer)
    } else if b.len() < 8 {
        Err(RipoError::TruncatedHeader)
    } else if 8 + 20 * (spec_count(b) as int) > b.len() {
        Err(RipoError::TruncatedHeader)
    } else if !spec_table_decodes(b, spec_count(b) as int) {
        Err(RipoError::UnknownArchitecture)
    } else {
        Ok(Seq::new(spec_count(b) as nat, |i: int| spec_arch_at(b, i)))
    }
}

/// What extracting one descriptor's range from a source yields: the exact
/// byte range, or `OutOfBounds` when the range leaves the source.
pub open spec fn spec_extract(a: Arch, src: Seq<u8>) -> Result<Seq<u8>, RipoError> {
    if a.offset + a.size <= src.len() {
        Ok(src.subrange(a.offset as int, a.offset + a.size))
    } else {
        Err(RipoError::OutOfBounds)
    }
}

/// A parsed container: the magic it started with and its descriptor table,
/// in on-disk order.  It does not own any payload bytes; extraction is a
/// separate, explicit call against the same byte source.
pub struct File {
    pub magic: [u8; 4],
    pub arch_info: Vec<Arch>,
}

impl File {
    /// Reads magic and descriptor table out of an in-memory byte stream and
    /// validates them; payload bytes are not touched.  A container with zero
    /// descriptors is legal.
    pub fn parse(bytes: &Vec<u8>) -> (r: Result<File, RipoError>)
        ensures
            match r {
                Ok(c) => {
                    &&& spec_parse(bytes@) == Ok::<Seq<Arch>, RipoError>(c.arch_info@)
                    &&& c.magic@ == spec_magic()
                },
                Err(e) => spec_parse(bytes@) == Err::<Seq<Arch>, RipoError>(e),
            },
            bytes@.len() >= 4 && bytes@.subrange(0, 4) != spec_magic() ==> (r matches Err(e)
                && e == RipoError::NotAContainer),
            (bytes@.len() >= 8 && bytes@.subrange(0, 4) == spec_magic() && 8 + 20 * (spec_count(
                bytes@,
            ) as int) <= bytes@.len() && !spec_table_decodes(bytes@, spec_count(bytes@) as int))
                ==> (r matches Err(e) && e == RipoError::UnknownArchitecture),
    {
        if bytes.len() < 4 {
            return Err(RipoError::TruncatedHeader);
        }
        if !(bytes[0] == 0xca && bytes[1] == 0xfe && bytes[2] == 0xba && bytes[3] == 0xbe) {
            proof {
                let m = bytes@.subrange(0, 4);
                assert(m[0] == bytes@[0] && m[1] == bytes@[1] && m[2] == bytes@[2] && m[3]
                    == bytes@[3]);
                assert(m != spec_magic());
            }
            return Err(RipoError::NotAContainer);
        }
        proof {
            assert(bytes@.subrange(0, 4) =~= spec_magic());
        }
        if bytes.len() < 8 {
            return Err(RipoError::TruncatedHeader);
        }
        let count = read_be32(bytes, 4);
        let needed: u64 = 8u64 + 20u64 * (count as u64);
        if needed > bytes.len() as u64 {
            return Err(RipoError::TruncatedHeader);
        }
        let mut archs: Vec<Arch> = Vec::new();
        let mut i: usize = 0;
        while i < count as usize
            invariant
                i <= count,
                bytes@.len() >= 8,
                bytes@.subrange(0, 4) == spec_magic(),
                count == spec_count(bytes@),
                8 + 20 * (count as int) <= bytes.len(),
                archs@.len() == i,
                forall|j: int|
                    0 <= j < i ==> (#[trigger] spec_arch_of_record(spec_record_at(bytes@, j)))
                        == Some(archs@[j]),
            decreases count - i,
        {
            let base: usize = 8 + 20 * i;
            let fam_bytes: [u8; 4] = [bytes[base], bytes[base + 1], bytes[base + 2], bytes[base
                + 3]];
            proof {
                let rec = spec_record_at(bytes@, i as int);
                assert(rec.subrange(0, 4) =~= fam_bytes@);
            }
            let cpu_type = match CpuType::from_be_bytes(fam_bytes) {
                Ok(f) => f,
                Err(_) => {
                    proof {
                        assert(spec_arch_of_record(spec_record_at(bytes@, i as int)) is None);
                        assert(!spec_table_decodes(bytes@, spec_count(bytes@) as int));
                    }
                    return Err(RipoError::UnknownArchitecture);
                },
            };
            let cpu_sub_type = read_be32(bytes, base + 4);
            let offset = read_be32(bytes, base + 8);
            let size = read_be32(bytes, base + 12);
            let align = read_be32(bytes, base + 16);
            let a = Arch::new(cpu_type, cpu_sub_type, offset, size, align);
            proof {
                let rec = spec_record_at(bytes@, i as int);
                assert(rec.subrange(4, 8) =~= bytes@.subrange(base as int + 4, base as int + 8));
                assert(rec.subrange(8, 12) =~= bytes@.subrange(base as int + 8, base as int + 12));
                assert(rec.subrange(12, 16) =~= bytes@.subrange(
                    base as int + 12,
                    base as int + 16,
                ));
                assert(rec.subrange(16, 20) =~= bytes@.subrange(
                    base as int + 16,
                    base as int + 20,
                ));
                assert(spec_arch_of_record(rec) == Some(a));
            }
            archs.push(a);
            i = i + 1;
        }
        proof {
            assert(spec_table_decodes(bytes@, spec_count(bytes@) as int));
            assert(archs@ =~= Seq::new(spec_count(bytes@) as nat, |j: int| spec_arch_at(bytes@, j)));
        }
        let magic: [u8; 4] = [0xca, 0xfe, 0xba, 0xbe];
        proof {
            assert(magic@ =~= spec_magic());
        }
        Ok(File { magic, arch_info: archs })
    }

    /// Extracts every descriptor's slice from the source, in descriptor
    /// order; fails with the first out-of-range descriptor.
    pub fn extract_all(&self, source: &Vec<u8>) -> (r: Result<Vec<Vec<u8>>, RipoError>)
        ensures
            match r {
                Ok(vs) => {
                    &&& vs@.len() == self.arch_info@.len()
                    &&& forall|i: int|
                        0 <= i < vs@.len() ==> spec_extract(
                            #[trigger] self.arch_info@[i],
                            source@,
                        ) == Ok::<Seq<u8>, RipoError>(vs@[i]@)
                },
                Err(e) => {
                    &&& e == RipoError::OutOfBounds
                    &&& exists|i: int|
                        0 <= i < self.arch_info@.len() && spec_extract(
                            #[trigger] self.arch_info@[i],
                            source@,
                        ) is Err
                },
            },
    {
        let mut slices: Vec<Vec<u8>> = Vec::new();
        let mut i: usize = 0;
        while i < self.arch_info.len()
            invariant
                i <= self.arch_info@.len(),
                slices@.len() == i,
                forall|j: int|
                    0 <= j < i ==> spec_extract(#[trigger] self.arch_info@[j], source@)
                        == Ok::<Seq<u8>, RipoError>(slices@[j]@),
            decreases self.arch_info@.len() - i,
        {
            match extract(&self.arch_info[i], source) {
                Ok(v) => {
                    slices.push(v);
                },
                Err(e) => {
                    return Err(e);
                },
            }
            i = i + 1;
        }
        Ok(slices)
    }
}

/// Copies out the exact byte range a descriptor points at.  The source is
/// only read; a range that leaves the source is `OutOfBounds`, never a short
/// result.
pub fn extract(arch: &Arch, source: &Vec<u8>) -> (r: Result<Vec<u8>, RipoError>)
    ensures
        match r {
            Ok(v) => spec_extract(*arch, source@) == Ok::<Seq<u8>, RipoError>(v@),
            Err(e) => {
                &&& spec_extract(*arch, source@) == Err::<Seq<u8>, RipoError>(e)
                &&& e == RipoError::OutOfBounds
            },
        },
{
    let end: u64 = arch.offset as u64 + arch.size as u64;
    if end > source.len() as u64 {
        return Err(RipoError::OutOfBounds);
    }
    let off = arch.offset as usize;
    let mut v: Vec<u8> = Vec::new();
    let mut j: usize = 0;
    while j < arch.size as usize
        invariant
            off == arch.offset,
            arch.offset + arch.size <= source.len(),
            j <= arch.size,
            v@.len() == j,
            forall|k: int| 0 <= k < j ==> v@[k] == source@[arch.offset + k],
        decreases arch.size - j,
    {
        v.push(source[off + j]);
        j = j + 1;
    }
    proof {
        assert(v@ =~= source@.subrange(arch.offset as int, arch.offset + arch.size));
    }
    Ok(v)
}

} // verus!
