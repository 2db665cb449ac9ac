//! CPU families and the per-slice descriptor record.

use vstd::prelude::*;
use vstd::string::StringExecFns;
use crate::codec::be32;
use crate::codec::be32_bytes;
use crate::codec::be32_of;
use crate::ripo_error::RipoError;

verus! {

/// Canonical identifier of the x86 family.
pub const CPU_TYPE_X86: u32 = 7;

/// Canonical identifier of the arm family.
pub const CPU_TYPE_ARM: u32 = 12;

/// Canonical identifier of the 64-bit x86 family.
pub const CPU_TYPE_X86_64: u32 = 0x01000007;

/// Canonical identifier of the 64-bit arm family.
pub const CPU_TYPE_ARM64: u32 = 0x0100000c;

/// Bit that turns a 32-bit family identifier into its 64-bit variant.
pub const ABI64_MASK: u32 = 0x01000000;

/// CpuType represents a CPU architecture (e.g. x86, arm64): the closed set of
/// families a container may carry.  An identifier outside this set is a
/// format error, never a silent default.
#[derive(Clone, Copy, Debug, PartialEq, Eq, Structural)]
pub enum CpuType {
    X86,
    ARM,
    X86_64,
    ARM64,
}

/// The canonical 32-bit identifier of a family.
pub open spec fn spec_family_code(f: CpuType) -> u32 {
    match f {
        CpuType::X86 => CPU_TYPE_X86,
        CpuType::ARM => CPU_TYPE_ARM,
        CpuType::X86_64 => CPU_TYPE_X86_64,
        CpuType::ARM64 => CPU_TYPE_ARM64,
    }
}

/// The family a 32-bit identifier stands for, if any.
pub open spec fn spec_decode_family(code: u32) -> Option<CpuType> {
    if code == CPU_TYPE_X86 {
        Some(CpuType::X86)
    } else if code == CPU_TYPE_ARM {
        Some(CpuType::ARM)
    } else if code == CPU_TYPE_X86_64 {
        Some(CpuType::X86_64)
    } else if code == CPU_TYPE_ARM64 {
        Some(CpuType::ARM64)
    } else {
        None
    }
}

/// Display name of a family.
pub open spec fn spec_display_name(f: CpuType) -> Seq<char> {
    match f {
        CpuType::X86 => "x86"@,
        CpuType::ARM => "arm"@,
        CpuType::X86_64 => "x86_64"@,
        CpuType::ARM64 => "arm64"@,
    }
}

/// The 64-bit identifiers are exactly the 32-bit base identifiers with the
/// width mask set: a format invariant any extension must preserve.
pub proof fn lemma_family_code_mask()
    ensures
        spec_family_code(CpuType::X86_64) == spec_family_code(CpuType::X86) | ABI64_MASK,
        spec_family_code(CpuType::ARM64) == spec_family_code(CpuType::ARM) | ABI64_MASK,
{
    assert(0x01000007u32 == 7u32 | 0x01000000u32) by (bit_vector);
    assert(0x0100000cu32 == 12u32 | 0x01000000u32) by (bit_vector);
}

/// Encoding any family and decoding the result gives the family back:
/// the encode/decode pair is a bijection over the four members.
pub proof fn lemma_family_round_trip(f: CpuType)
    ensures
        spec_decode_family(spec_family_code(f)) == Some(f),
{
}

/// A known identifier decodes to the family that encodes back to it: within
/// the closed set, decoding is the inverse of encoding, so the two form a
/// bijection over the four members.
pub proof fn lemma_family_code_inverse(code: u32)
    ensures
        spec_decode_family(code) matches Some(f) ==> spec_family_code(f) == code,
{
}

impl CpuType {
    /// The canonical 32-bit identifier of this family.
    pub fn code(&self) -> (c: u32)
        ensures
            c == spec_family_code(*self),
    {
        match self {
            CpuType::X86 => CPU_TYPE_X86,
            CpuType::ARM => CPU_TYPE_ARM,
            CpuType::X86_64 => CPU_TYPE_X86_64,
            CpuType::ARM64 => CPU_TYPE_ARM64,
        }
    }

    /// Returns the CpuType a big-endian four-byte buffer stands for, or
    /// `UnknownArchitecture` when the identifier is outside the closed set.
    pub fn from_be_bytes(byte_array: [u8; 4]) -> (r: Result<CpuType, RipoError>)
        ensures
            match r {
                Ok(f) => spec_decode_family(be32(byte_array@)) == Some(f),
                Err(e) => {
                    &&& spec_decode_family(be32(byte_array@)) is None
                    &&& e == RipoError::UnknownArchitecture
                },
            },
    {
        let code = be32_of(byte_array[0], byte_array[1], byte_array[2], byte_array[3]);
        proof {
            assert(seq![byte_array[0], byte_array[1], byte_array[2], byte_array[3]]
                =~= byte_array@);
        }
        if code == CPU_TYPE_X86 {
            Ok(CpuType::X86)
        } else if code == CPU_TYPE_ARM {
            Ok(CpuType::ARM)
        } else if code == CPU_TYPE_X86_64 {
            Ok(CpuType::X86_64)
        } else if code == CPU_TYPE_ARM64 {
            Ok(CpuType::ARM64)
        } else {
            Err(RipoError::UnknownArchitecture)
        }
    }

    /// The big-endian four-byte encoding of this family: the inverse of
    /// `from_be_bytes`.
    pub fn to_be_bytes(&self) -> (r: [u8; 4])
        ensures
            r@ == be32_bytes(spec_family_code(*self)),
    {
        let code = self.code();
        let r = [(code >> 24) as u8, (code >> 16) as u8, (code >> 8) as u8, code as u8];
        proof {
            assert(r@ =~= be32_bytes(code));
        }
        r
    }

    /// Human readable family name: one of "x86", "x86_64", "arm", "arm64".
    pub fn display_name(&self) -> (r: String)
        ensures
            r@ == spec_display_name(*self),
    {
        match self {
            CpuType::X86 => String::from_str("x86"),
            CpuType::ARM => String::from_str("arm"),
            CpuType::X86_64 => String::from_str("x86_64"),
            CpuType::ARM64 => String::from_str("arm64"),
        }
    }
}

/// Arch describes one embedded architecture slice: its CPU family and
/// subtype, where its bytes sit in the container, and the required alignment
/// of that position.  `align` is a power-of-two exponent (value 14 means
/// alignment 16384), never the alignment itself.
#[derive(Clone, Copy, Debug, PartialEq, Eq, Structural)]
pub struct Arch {
    pub cpu_type: CpuType,
    pub cpu_sub_type: u32,
    pub offset: u32,
    pub size: u32,
    pub align: u32,
}

/// The descriptor a 20-byte on-disk record stands for, or `None` when its
/// family code is outside the closed set.
pub open spec fn spec_arch_of_record(rec: Seq<u8>) -> Option<Arch>
    recommends
        rec.len() == 20,
{
    match spec_decode_family(be32(rec.subrange(0, 4))) {
        Some(f) => Some(
            Arch {
                cpu_type: f,
                cpu_sub_type: be32(rec.subrange(4, 8)),
                offset: be32(rec.subrange(8, 12)),
                size: be32(rec.subrange(12, 16)),
                align: be32(rec.subrange(16, 20)),
            },
        ),
        None => None,
    }
}

impl Arch {
    /// Arch can be instantiated by the new() method.
    pub fn new(cpu_type: CpuType, cpu_sub_type: u32, offset: u32, size: u32, align: u32) -> (r:
        Arch)
        ensures
            r == (Arch { cpu_type, cpu_sub_type, offset, size, align }),
    {
        Arch { cpu_type, cpu_sub_type, offset, size, align }
    }

    /// Arch can be instantiated by the new_from_byte() method from one
    /// 20-byte big-endian descriptor record.
    pub fn new_from_byte(byte: &[u8; 20]) -> (r: Result<Arch, RipoError>)
        ensures
            match r {
                Ok(a) => spec_arch_of_record(byte@) == Some(a),
                Err(e) => {
                    &&& spec_arch_of_record(byte@) is None
                    &&& e == RipoError::UnknownArchitecture
                },
            },
    {
        let cpu_type = match CpuType::from_be_bytes([byte[0], byte[1], byte[2], byte[3]]) {
            Ok(f) => f,
            Err(e) => {
                proof {
                    assert(seq![byte[0], byte[1], byte[2], byte[3]] =~= byte@.subrange(0, 4));
                }
                return Err(e);
            },
        };
        let cpu_sub_type = be32_of(byte[4], byte[5], byte[6], byte[7]);
        let offset = be32_of(byte[8], byte[9], byte[10], byte[11]);
        let size = be32_of(byte[12], byte[13], byte[14], byte[15]);
        let align = be32_of(byte[16], byte[17], byte[18], byte[19]);
        proof {
            assert(seq![byte[0], byte[1], byte[2], byte[3]] =~= byte@.subrange(0, 4));
            assert(seq![byte[4], byte[5], byte[6], byte[7]] =~= byte@.subrange(4, 8));
            assert(seq![byte[8], byte[9], byte[10], byte[11]] =~= byte@.subrange(8, 12));
            assert(seq![byte[12], byte[13], byte[14], byte[15]] =~= byte@.subrange(12, 16));
            assert(seq![byte[16], byte[17], byte[18], byte[19]] =~= byte@.subrange(16, 20));
        }
        Ok(Arch::new(cpu_type, cpu_sub_type, offset, size, align))
    }

    /// Byte offset of the slice inside the container.
    pub fn offset(&self) -> (r: u32)
        ensures
            r == self.offset,
    {
        self.offset
    }

    /// Byte size of the slice.
    pub fn size(&self) -> (r: u32)
        ensures
            r == self.size,
    {
        self.size
    }

    /// CPU family of the slice.
    pub fn cpu_type(&self) -> (r: CpuType)
        ensures
            r == self.cpu_type,
    {
        self.cpu_type
    }

    /// CPU subtype of the slice.
    pub fn cpu_sub_type(&self) -> (r: u32)
        ensures
            r == self.cpu_sub_type,
    {
        self.cpu_sub_type
    }

    /// Power-of-two alignment exponent of the slice's offset.
    pub fn align(&self) -> (r: u32)
        ensures
            r == self.align,
    {
        self.align
    }

    /// This method returns the human readable CPU architecture name of the
    /// slice (e.g. "x86", "arm64").
    pub fn cpu_arch_string(&self) -> (r: String)
        ensures
            r@ == spec_display_name(self.cpu_type),
    {
        self.cpu_type.display_name()
    }
}

} // verus!
