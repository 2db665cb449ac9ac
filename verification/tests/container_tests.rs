use ripo::arch::Arch;
use ripo::arch::CpuType;
use ripo::builder::build;
use ripo::builder::entries_fit;
use ripo::builder::BuildEntry;
use ripo::fat_binary::extract;
use ripo::fat_binary::File;
use ripo::ripo_error::RipoError;

#[test]
fn parse_one_descriptor_example() {
    let mut bytes: Vec<u8> = vec![0xca, 0xfe, 0xba, 0xbe, 0, 0, 0, 1];
    bytes.extend_from_slice(&[
        1, 0, 0, 7, // cpu family: x86_64
        0, 0, 0, 3, // cpu subtype
        0, 0, 0x40, 0, // offset 0x4000
        0, 0, 0x80, 0xf0, // size 0x80f0
        0, 0, 0, 0x0e, // align exponent 14
    ]);
    let container = File::parse(&bytes).unwrap();
    assert_eq!(container.magic, [0xca, 0xfe, 0xba, 0xbe]);
    assert_eq!(container.arch_info.len(), 1);
    let arch = container.arch_info[0];
    assert_eq!(arch.cpu_type(), CpuType::X86_64);
    assert_eq!(arch.cpu_sub_type(), 3);
    assert_eq!(arch.offset(), 0x4000);
    assert_eq!(arch.size(), 0x80f0);
    assert_eq!(arch.align(), 14);
}

#[test]
fn parse_rejects_bad_magic() {
    let bytes: Vec<u8> = vec![0xde, 0xad, 0xbe, 0xef, 0, 0, 0, 0, 1, 2, 3, 4];
    let r = File::parse(&bytes);
    assert!(matches!(r, Err(RipoError::NotAContainer)));
}

#[test]
fn parse_rejects_truncated_magic() {
    let bytes: Vec<u8> = vec![0xca, 0xfe];
    let r = File::parse(&bytes);
    assert!(matches!(r, Err(RipoError::TruncatedHeader)));
}

#[test]
fn parse_rejects_table_longer_than_stream() {
    // Count claims two descriptors but no table bytes follow.
    let bytes: Vec<u8> = vec![0xca, 0xfe, 0xba, 0xbe, 0, 0, 0, 2];
    let r = File::parse(&bytes);
    assert!(matches!(r, Err(RipoError::TruncatedHeader)));
}

#[test]
fn parse_rejects_unknown_family_even_with_good_later_entry() {
    let mut bytes: Vec<u8> = vec![0xca, 0xfe, 0xba, 0xbe, 0, 0, 0, 2];
    // First record: family code 0x000000aa, outside the closed set.
    bytes.extend_from_slice(&[0, 0, 0, 0xaa, 0, 0, 0, 0, 0, 0, 0, 48, 0, 0, 0, 1, 0, 0, 0, 0]);
    // Second record is perfectly well formed.
    bytes.extend_from_slice(&[1, 0, 0, 7, 0, 0, 0, 3, 0, 0, 0, 49, 0, 0, 0, 1, 0, 0, 0, 0]);
    bytes.extend_from_slice(&[0x41, 0x42]);
    let r = File::parse(&bytes);
    assert!(matches!(r, Err(RipoError::UnknownArchitecture)));
}

#[test]
fn parse_accepts_zero_descriptors() {
    let bytes: Vec<u8> = vec![0xca, 0xfe, 0xba, 0xbe, 0, 0, 0, 0];
    let container = File::parse(&bytes).unwrap();
    assert_eq!(container.arch_info.len(), 0);
}

#[test]
fn extract_returns_exact_range() {
    let source: Vec<u8> = vec![0, 1, 2, 3, 4, 5, 6, 7, 8, 9];
    let arch = Arch::new(CpuType::ARM, 0, 4, 3, 0);
    let slice = extract(&arch, &source).unwrap();
    assert_eq!(slice, vec![4, 5, 6]);
}

#[test]
fn extract_out_of_bounds_fails() {
    let source: Vec<u8> = vec![0; 16];
    let arch = Arch::new(CpuType::ARM, 0, 8, 9, 0);
    let r = extract(&arch, &source);
    assert!(matches!(r, Err(RipoError::OutOfBounds)));
}

#[test]
fn build_of_no_entries_is_an_error() {
    let entries: Vec<BuildEntry> = Vec::new();
    assert!(entries_fit(&entries));
    let r = build(&entries);
    assert!(matches!(r, Err(RipoError::EmptyInput)));
}

#[test]
fn build_single_arm64_entry_example() {
    let entries = vec![BuildEntry {
        cpu_type: CpuType::ARM64,
        cpu_sub_type: 0,
        data: vec![0x41, 0x42],
        align: 2,
    }];
    assert!(entries_fit(&entries));
    let bytes = build(&entries).unwrap();
    // Header: 8 bytes of magic and count plus one 20-byte record = 28 bytes,
    // already a multiple of 4, so the payload starts right after it.
    assert_eq!(bytes.len(), 30);
    let expected: Vec<u8> = vec![
        0xca, 0xfe, 0xba, 0xbe, // magic
        0, 0, 0, 1, // count
        1, 0, 0, 0x0c, // family: arm64
        0, 0, 0, 0, // subtype
        0, 0, 0, 28, // offset: the padded start
        0, 0, 0, 2, // size
        0, 0, 0, 2, // align exponent
        0x41, 0x42, // payload
    ];
    assert_eq!(bytes, expected);
}

#[test]
fn build_aligns_payloads_with_zero_fill() {
    let entries = vec![BuildEntry {
        cpu_type: CpuType::X86,
        cpu_sub_type: 9,
        data: vec![0xff],
        align: 4,
    }];
    assert!(entries_fit(&entries));
    let bytes = build(&entries).unwrap();
    // Header ends at 28; the next multiple of 16 is 32.
    assert_eq!(bytes.len(), 33);
    assert_eq!(bytes[19], 32); // offset field low byte: next multiple of 16
    assert_eq!(&bytes[28..32], &[0, 0, 0, 0]); // zero fill
    assert_eq!(bytes[32], 0xff);
}

#[test]
fn round_trip_build_parse_extract() {
    let entries = vec![
        BuildEntry {
            cpu_type: CpuType::X86_64,
            cpu_sub_type: 3,
            data: vec![1, 2, 3, 4, 5],
            align: 3,
        },
        BuildEntry {
            cpu_type: CpuType::ARM64,
            cpu_sub_type: 0,
            data: vec![9, 8, 7],
            align: 2,
        },
    ];
    assert!(entries_fit(&entries));
    let bytes = build(&entries).unwrap();
    let container = File::parse(&bytes).unwrap();
    assert_eq!(container.arch_info.len(), 2);
    for (arch, entry) in container.arch_info.iter().zip(entries.iter()) {
        assert_eq!(arch.cpu_type(), entry.cpu_type);
        assert_eq!(arch.cpu_sub_type(), entry.cpu_sub_type);
        assert_eq!(arch.size() as usize, entry.data.len());
        assert_eq!(arch.align(), entry.align);
        assert_eq!(arch.offset() as usize % (1usize << entry.align), 0);
    }
    let slices = container.extract_all(&bytes).unwrap();
    assert_eq!(slices.len(), 2);
    assert_eq!(slices[0], entries[0].data);
    assert_eq!(slices[1], entries[1].data);
}
