//! Runnable images holding one statically linked ELF executable.

use vstd::prelude::*;


use crate::digest::Digest;
use crate::image::manifest::{Descriptor, ImageManifest};
use crate::media_types::{image_config, image_config_spec, image_layer, image_layer_spec};

verus! {

/// `e_machine` of x86-64.
pub const EM_X86_64: u16 = 62;

/// `e_machine` of AArch64.
pub const EM_AARCH64: u16 = 183;

/// `EI_OSABI` of System V, which carries no OS.
pub const ELFOSABI_NONE: u8 = 0;

/// `EI_OSABI` of GNU/Linux.
pub const ELFOSABI_LINUX: u8 = 3;

/// The architecture of a runnable image.
#[derive(Debug, Clone, Copy, PartialEq, Eq)]
pub enum Arch {
    Amd64,
    Arm64,
}

/// The operating system of a runnable image.
#[derive(Debug, Clone, Copy, PartialEq, Eq)]
pub enum Os {
    Linux,
}

impl Arch {
    /// The name of the architecture in an image configuration.
    pub fn as_str(&self) -> (r: &'static str)
        ensures
            r@ == (match self {
                Arch::Amd64 => "amd64"@,
                Arch::Arm64 => "arm64"@,
            }),
    {
        match self {
            Arch::Amd64 => "amd64",
            Arch::Arm64 => "arm64",
        }
    }
}

impl Os {
    /// The name of the operating system in an image configuration.
    pub fn as_str(&self) -> (r: &'static str)
        ensures
            r@ == "linux"@,
    {
        "linux"
    }
}

/// What the header of an ELF file says about where it runs.
#[derive(Debug, Clone, Copy, PartialEq, Eq)]
pub struct ElfInfo {
    /// The file names a program interpreter, so it is linked dynamically.
    pub has_interpreter: bool,
    /// `e_machine`
    pub machine: u16,
    /// `e_ident[EI_OSABI]`
    pub os_abi: u8,
}

/// `(has interpreter, e_machine, EI_OSABI)` of an ELF file, if it parses.
pub uninterp spec fn elf_header_of(b: Seq<u8>) -> Option<(bool, u16, u8)>;

/// Relies on `goblin::elf::Elf::parse`: the interpreter, machine and OS ABI
/// of the header, or nothing when the bytes are no ELF file.
#[verifier::external_body]
fn read_elf(b: &[u8]) -> (r: Option<ElfInfo>)
    ensures
        match r {
            Some(i) => elf_header_of(b@) == Some((i.has_interpreter, i.machine, i.os_abi)),
            None => elf_header_of(b@) is None,
        },
{
    let elf = goblin::elf::Elf::parse(b).ok()?;
    Some(ElfInfo {
        has_interpreter: elf.interpreter.is_some(),
        machine: elf.header.e_machine,
        os_abi: elf.header.e_ident[goblin::elf::header::EI_OSABI],
    })
}

/// Where an ELF file with this header runs: dynamically linked files and
/// unknown machines or OS ABIs are refused.
pub open spec fn platform_spec(has_interpreter: bool, machine: u16, os_abi: u8) -> Result<(Arch, Os), crate::error::Error> {
    if has_interpreter {
        Err(crate::error::Error::DynamicallyLinked)
    } else if machine != EM_X86_64 && machine != EM_AARCH64 {
        Err(crate::error::Error::UnsupportedArchitecture(machine))
    } else if os_abi != ELFOSABI_NONE && os_abi != ELFOSABI_LINUX {
        Err(crate::error::Error::UnsupportedOsAbi(os_abi))
    } else {
        Ok((if machine == EM_X86_64 { Arch::Amd64 } else { Arch::Arm64 }, Os::Linux))
    }
}

/// The platform of an ELF header.
pub fn platform_from_elf(info: &ElfInfo) -> (r: Result<(Arch, Os), crate::error::Error>)
    ensures
        r == platform_spec(info.has_interpreter, info.machine, info.os_abi),
{
    if info.has_interpreter {
        return Err(crate::error::Error::DynamicallyLinked);
    }
    let arch = if info.machine == EM_X86_64 {
        Arch::Amd64
    } else if info.machine == EM_AARCH64 {
        Arch::Arm64
    } else {
        return Err(crate::error::Error::UnsupportedArchitecture(info.machine));
    };
    if info.os_abi != ELFOSABI_NONE && info.os_abi != ELFOSABI_LINUX {
        return Err(crate::error::Error::UnsupportedOsAbi(info.os_abi));
    }
    Ok((arch, Os::Linux))
}

/// The platform of an executable, from its bytes.
pub fn parse_elf_header(b: &[u8]) -> (r: Result<(Arch, Os), crate::error::Error>)
    ensures
        match elf_header_of(b@) {
            None => r == Err::<(Arch, Os), crate::error::Error>(crate::error::Error::InvalidElf),
            Some((i, m, o)) => r == platform_spec(i, m, o),
        },
{
    match read_elf(b) {
        Some(info) => platform_from_elf(&info),
        None => Err(crate::error::Error::InvalidElf),
    }
}

/// The entrypoint of an executable placed at the root: `/<file name>`.
pub fn entrypoint(file_name: &str) -> (r: String)
    ensures
        r@ == seq!['/'] + file_name@,
{
    let mut r = String::new();
    crate::text::push_char(&mut r, '/');
    r.append(file_name);
    r
}

/// Decides whether another executable may be added to a runnable image
/// that already holds `layers` layers: only one is allowed.
pub fn check_single_executable(layers: usize) -> (r: Result<(), crate::error::Error>)
    ensures
        r is Ok <==> layers == 0,
        r matches Err(e) ==> e == crate::error::Error::MultipleExecutables,
{
    if layers == 0 {
        Ok(())
    } else {
        Err(crate::error::Error::MultipleExecutables)
    }
}

/// A runnable image: the layout that holds one statically linked executable.
pub struct Runnable<Layout> {
    layout: Layout,
}

impl<Layout> Runnable<Layout> {
    pub closed spec fn layout_spec(&self) -> Layout {
        self.layout
    }

    pub fn new(layout: Layout) -> (r: Self)
        ensures
            r.layout_spec() == layout,
    {
        Runnable { layout }
    }

    /// The layout underneath.
    pub fn layout(&mut self) -> (r: &mut Layout) {
        &mut self.layout
    }

    pub fn into_inner(self) -> (r: Layout)
        ensures
            r == self.layout_spec(),
    {
        self.layout
    }
}

/// The descriptor of the layer that holds the executable: a plain tar.
pub fn executable_layer(digest: Digest, size: u64) -> (r: Descriptor)
    ensures
        r.media_type@ == image_layer_spec(),
        r.digest == digest,
        r.size == size,
        r.annotations@.len() == 0,
{
    Descriptor { media_type: image_layer(), size, digest, annotations: Vec::new() }
}

/// The platform of a runnable image that is ready to be written: one
/// executable was added, and its platform is known.
pub fn runnable_platform(platform: Option<(Arch, Os)>, layers: usize) -> (r: Result<(Arch, Os), crate::error::Error>)
    ensures
        match r {
            Ok(p) => platform == Some(p) && layers > 0,
            Err(e) => (platform is None || layers == 0) && e == crate::error::Error::MissingLayer,
        },
{
    match platform {
        Some(p) => if layers > 0 {
            Ok(p)
        } else {
            Err(crate::error::Error::MissingLayer)
        },
        None => Err(crate::error::Error::MissingLayer),
    }
}

/// The manifest of a runnable image: its image configuration, stored under
/// `config_digest` with `config_size` bytes, and the executable's layers.
pub fn runnable_manifest(layers: Vec<Descriptor>, config_digest: Digest, config_size: u64) -> (r: ImageManifest)
    ensures
        r.schema_version == 2,
        r.artifact_type is None,
        r.config.media_type@ == image_config_spec(),
        r.config.digest == config_digest,
        r.config.size == config_size,
        r.config.annotations@.len() == 0,
        r.layers@ == layers@,
        r.annotations@.len() == 0,
{
    ImageManifest {
        schema_version: 2,
        artifact_type: None,
        config: Descriptor {
            media_type: image_config(),
            size: config_size,
            digest: config_digest,
            annotations: Vec::new(),
        },
        layers,
        annotations: Vec::new(),
    }
}

} // verus!
