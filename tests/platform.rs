use ocipkg::image::runnable::{
    check_single_executable, entrypoint, executable_layer, parse_elf_header, platform_from_elf,
    runnable_manifest, runnable_platform, Arch, ElfInfo, Os, Runnable,
};
use ocipkg::{Digest, Error};

fn elf_header(machine: u16, os_abi: u8) -> Vec<u8> {
    let mut h = vec![0x7f, b'E', b'L', b'F', 2, 1, 1, os_abi, 0, 0, 0, 0, 0, 0, 0, 0];
    h.extend_from_slice(&2u16.to_le_bytes()); // e_type: executable
    h.extend_from_slice(&machine.to_le_bytes());
    h.extend_from_slice(&1u32.to_le_bytes()); // e_version
    h.extend_from_slice(&0u64.to_le_bytes()); // e_entry
    h.extend_from_slice(&0u64.to_le_bytes()); // e_phoff
    h.extend_from_slice(&0u64.to_le_bytes()); // e_shoff
    h.extend_from_slice(&0u32.to_le_bytes()); // e_flags
    h.extend_from_slice(&64u16.to_le_bytes()); // e_ehsize
    h.extend_from_slice(&56u16.to_le_bytes()); // e_phentsize
    h.extend_from_slice(&0u16.to_le_bytes()); // e_phnum
    h.extend_from_slice(&64u16.to_le_bytes()); // e_shentsize
    h.extend_from_slice(&0u16.to_le_bytes()); // e_shnum
    h.extend_from_slice(&0u16.to_le_bytes()); // e_shstrndx
    h
}

#[test]
fn static_x86_64_linux() {
    let info = ElfInfo { has_interpreter: false, machine: 62, os_abi: 0 };
    assert_eq!(platform_from_elf(&info), Ok((Arch::Amd64, Os::Linux)));
    assert_eq!(Arch::Amd64.as_str(), "amd64");
    assert_eq!(Os::Linux.as_str(), "linux");
    assert_eq!(entrypoint("hello"), "/hello");
}

#[test]
fn static_aarch64_gnu() {
    let info = ElfInfo { has_interpreter: false, machine: 183, os_abi: 3 };
    assert_eq!(platform_from_elf(&info), Ok((Arch::Arm64, Os::Linux)));
    assert_eq!(Arch::Arm64.as_str(), "arm64");
}

#[test]
fn refused_executables() {
    let dynamic = ElfInfo { has_interpreter: true, machine: 62, os_abi: 0 };
    assert_eq!(platform_from_elf(&dynamic), Err(Error::DynamicallyLinked));
    let i386 = ElfInfo { has_interpreter: false, machine: 3, os_abi: 0 };
    assert_eq!(platform_from_elf(&i386), Err(Error::UnsupportedArchitecture(3)));
    let freebsd = ElfInfo { has_interpreter: false, machine: 62, os_abi: 9 };
    assert_eq!(platform_from_elf(&freebsd), Err(Error::UnsupportedOsAbi(9)));
}

#[test]
fn elf_bytes() {
    assert_eq!(parse_elf_header(&elf_header(62, 0)), Ok((Arch::Amd64, Os::Linux)));
    assert_eq!(parse_elf_header(&elf_header(40, 0)), Err(Error::UnsupportedArchitecture(40)));
    assert_eq!(parse_elf_header(b"not an executable"), Err(Error::InvalidElf));
}

#[test]
fn one_executable_per_image() {
    assert_eq!(check_single_executable(0), Ok(()));
    assert_eq!(check_single_executable(1), Err(Error::MultipleExecutables));
}

#[test]
fn runnable_image_manifest() {
    assert_eq!(runnable_platform(None, 0), Err(Error::MissingLayer));
    assert_eq!(runnable_platform(Some((Arch::Amd64, Os::Linux)), 0), Err(Error::MissingLayer));
    assert_eq!(runnable_platform(Some((Arch::Amd64, Os::Linux)), 1), Ok((Arch::Amd64, Os::Linux)));
    let layer = executable_layer(Digest::from_buf_sha256(b"tar"), 3);
    assert_eq!(layer.media_type, "application/vnd.oci.image.layer.v1.tar");
    let config = Digest::from_buf_sha256(b"{}");
    let m = runnable_manifest(vec![layer.clone()], config.clone(), 2);
    assert_eq!(m.schema_version, 2);
    assert_eq!(m.config.media_type, "application/vnd.oci.image.config.v1+json");
    assert_eq!(m.config.digest, config);
    assert_eq!(m.config.size, 2);
    assert_eq!(m.layers, vec![layer]);
    assert_eq!(m.artifact_type, None);
}

#[test]
fn runnable_holds_its_layout() {
    let mut r = Runnable::new(vec![1u8, 2]);
    r.layout().push(3);
    assert_eq!(r.into_inner(), vec![1u8, 2, 3]);
}
