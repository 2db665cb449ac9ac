use ripo::arch::Arch;
use ripo::arch::CpuType;
use ripo::ripo_error::RipoError;

#[test]
fn arch_new_test() {
    let created_by_method = Arch::new(
        CpuType::X86_64,
        0x00000003,
        0x00004000,
        0x000080f0,
        0x0000000e,
    );

    assert_eq!(
        created_by_method.cpu_type(),
        CpuType::X86_64,
        "Cpu type is not equal"
    );
    assert_eq!(
        created_by_method.cpu_sub_type(),
        0x00000003,
        "Cpu sub-type is not equal"
    );
    assert_eq!(created_by_method.offset(), 0x00004000, "Offset is not equal");
    assert_eq!(created_by_method.size(), 0x000080f0, "Size is not equal");
    assert_eq!(created_by_method.align(), 0x0000000e, "Align is not equal");
}

#[test]
fn arch_new_from_byte_test() {
    let arch_header: [u8; 20] = [
        1, 0, 0, 7, 0, 0, 0, 3, 0, 0, 64, 0, 0, 0, 128, 240, 0, 0, 0, 14,
    ];
    let created_by_method = Arch::new_from_byte(&arch_header).unwrap();

    assert_eq!(
        created_by_method.cpu_type(),
        CpuType::X86_64,
        "Cpu type is not equal"
    );
    assert_eq!(
        created_by_method.cpu_sub_type(),
        0x00000003,
        "Cpu sub-type is not equal"
    );
    assert_eq!(created_by_method.offset(), 0x00004000, "Offset is not equal");
    assert_eq!(created_by_method.size(), 0x000080f0, "Size is not equal");
    assert_eq!(created_by_method.align(), 0x0000000e, "Align is not equal");
}

#[test]
fn cpu_type_to_string_test() {
    let x86_64 = Arch::new(CpuType::X86_64, 0x00000003, 0x00004000, 0x000080f0, 0x0000000e);
    let arm64 = Arch::new(CpuType::ARM64, 0x00000003, 0x00004000, 0x000080f0, 0x0000000e);

    assert_eq!(x86_64.cpu_arch_string(), "x86_64");
    assert_eq!(arm64.cpu_arch_string(), "arm64");
}

#[test]
fn cpu_type() {
    let target_x86_64 = CpuType::from_be_bytes([1, 0, 0, 7]).unwrap();
    assert_eq!(target_x86_64, CpuType::X86_64);
    let target_arm_64 = CpuType::from_be_bytes([1, 0, 0, 0xc]).unwrap();
    assert_eq!(target_arm_64, CpuType::ARM64);
}

#[test]
fn cpu_type_rejects_unknown_code() {
    let unknown = CpuType::from_be_bytes([0, 0, 0, 0x2a]);
    assert_eq!(unknown, Err(RipoError::UnknownArchitecture));
}

#[test]
fn cpu_type_encode_decode_bijection() {
    let families = [CpuType::X86, CpuType::X86_64, CpuType::ARM, CpuType::ARM64];
    for family in families {
        let encoded = family.to_be_bytes();
        let decoded = CpuType::from_be_bytes(encoded).unwrap();
        assert_eq!(decoded, family);
    }
}

#[test]
fn cpu_type_display_names() {
    assert_eq!(CpuType::X86.display_name(), "x86");
    assert_eq!(CpuType::X86_64.display_name(), "x86_64");
    assert_eq!(CpuType::ARM.display_name(), "arm");
    assert_eq!(CpuType::ARM64.display_name(), "arm64");
}

#[test]
fn arch_info_string_renders_every_field() {
    let arch = Arch::new(CpuType::X86_64, 3, 0x4000, 0x80f0, 14);
    let expected = "architecture: x86_64\nCPU sub type: 3\nOffset: 16384\nSize: 33008\nAlign: 2^14\n";
    assert_eq!(arch.info_string(), expected);
}
