use vstd::prelude::*;
use crate::mmu::ArchMMUSpec;
use crate::types::{Address, Error};

verus! {

/// Byte order of an architecture.
#[derive(Clone, Copy, Debug, PartialEq, Eq, Structural)]
pub enum Endianess {
    LittleEndian,
    BigEndian,
}

/// Names an architecture variant. Two architectures are the same exactly
/// when their identifiers are equal.
#[derive(Clone, Copy, Debug, PartialEq, Eq, Structural)]
pub enum ArchitectureIdent {
    /// x86 with the given word size in bits, and whether PAE paging is on.
    X86(u8, bool),
    /// 64-bit ARM with the given page size.
    AArch64(usize),
    /// An architecture this library does not know.
    Unknown,
}

/// An x86 variant: its word size, byte order and page-table format.
#[derive(Clone, Copy, Debug, PartialEq, Eq, Structural)]
pub struct X86Architecture {
    /// Defines how many bits does the native word size have
    pub bits: u8,
    /// Defines the byte order of the architecture
    pub endianess: Endianess,
    /// Defines the underlying MMU used for address translation
    pub mmu: ArchMMUSpec,
}

pub open spec fn spec_x64() -> X86Architecture {
    X86Architecture { bits: 64, endianess: Endianess::LittleEndian, mmu: ArchMMUSpec::spec_x64() }
}

pub open spec fn spec_x32() -> X86Architecture {
    X86Architecture { bits: 32, endianess: Endianess::LittleEndian, mmu: ArchMMUSpec::spec_x32() }
}

pub open spec fn spec_x32_pae() -> X86Architecture {
    X86Architecture {
        bits: 32,
        endianess: Endianess::LittleEndian,
        mmu: ArchMMUSpec::spec_x32_pae(),
    }
}

/// The x86 variant that an identifier names, if it names one.
pub open spec fn spec_underlying_arch(arch: ArchitectureIdent) -> Option<X86Architecture> {
    match arch {
        ArchitectureIdent::X86(64, false) => Some(spec_x64()),
        ArchitectureIdent::X86(32, false) => Some(spec_x32()),
        ArchitectureIdent::X86(32, true) => Some(spec_x32_pae()),
        _ => None,
    }
}

impl X86Architecture {
    pub open spec fn spec_mmu(self) -> ArchMMUSpec {
        self.mmu
    }

    /// 64-bit long mode: four levels of 512 eight-byte entries.
    pub fn x64() -> (r: X86Architecture)
        ensures
            r == spec_x64(),
            r.spec_mmu().wf(),
    {
        X86Architecture { bits: 64, endianess: Endianess::LittleEndian, mmu: ArchMMUSpec::x64() }
    }

    /// 32-bit paging without PAE: two levels of 1024 four-byte entries.
    pub fn x32() -> (r: X86Architecture)
        ensures
            r == spec_x32(),
            r.spec_mmu().wf(),
    {
        X86Architecture { bits: 32, endianess: Endianess::LittleEndian, mmu: ArchMMUSpec::x32() }
    }

    /// 32-bit paging with PAE: three levels of eight-byte entries.
    pub fn x32_pae() -> (r: X86Architecture)
        ensures
            r == spec_x32_pae(),
            r.spec_mmu().wf(),
    {
        X86Architecture {
            bits: 32,
            endianess: Endianess::LittleEndian,
            mmu: ArchMMUSpec::x32_pae(),
        }
    }

    /// Word size in bits.
    pub fn bits(&self) -> (r: u8)
        ensures
            r == self.bits,
    {
        self.bits
    }

    /// Byte order.
    pub fn endianess(&self) -> (r: Endianess)
        ensures
            r == self.endianess,
    {
        self.endianess
    }

    /// Size of a base page in bytes.
    pub fn page_size(&self) -> (r: u64)
        requires
            self.mmu.wf(),
        ensures
            r == self.mmu.spec_page_size(),
    {
        self.mmu.page_size()
    }

    /// Size of an address in bytes.
    pub fn size_addr(&self) -> (r: usize)
        requires
            self.mmu.wf(),
        ensures
            r == self.mmu.addr_size,
    {
        self.mmu.addr_size as usize
    }

    /// The page-table format of this variant.
    pub fn mmu(&self) -> (r: ArchMMUSpec)
        ensures
            r == self.mmu,
    {
        self.mmu
    }
}

/// The root of an x86 page-table hierarchy: the physical address of the top-level table.
#[derive(Clone, Copy, Debug, PartialEq, Eq, Structural)]
pub struct X86PageTableBase(pub Address);

impl X86PageTableBase {
    /// The table that a walk for `_address` starts from: the root, for every address.
    pub fn get_initial_pt(&self, _address: Address) -> (r: Address)
        ensures
            r == self.0,
    {
        self.0
    }
}

/// An x86 architecture bound to one address space.
#[derive(Clone, Copy, Debug, PartialEq, Eq, Structural)]
pub struct X86ScopedVirtualTranslate {
    pub arch: X86Architecture,
    pub dtb: X86PageTableBase,
}

impl X86ScopedVirtualTranslate {
    pub open spec fn spec_arch(self) -> X86Architecture {
        self.arch
    }

    pub open spec fn spec_dtb(self) -> Address {
        self.dtb.0
    }

    /// Binds `arch` to the address space whose top-level table is at `dtb`.
    pub fn new(arch: X86Architecture, dtb: Address) -> (r: Self)
        ensures
            r.spec_arch() == arch,
            r.spec_dtb() == dtb,
    {
        Self { arch, dtb: X86PageTableBase(dtb) }
    }

    /// The architecture this translator walks.
    pub fn arch(&self) -> (r: X86Architecture)
        ensures
            r == self.arch,
    {
        self.arch
    }

    /// The root of the address space.
    pub fn dtb(&self) -> (r: Address)
        ensures
            r == self.dtb.0,
    {
        self.dtb.0
    }

    /// Identifies the translation table of this address space: the root's page frame number.
    pub fn translation_table_id(&self, _address: Address) -> (r: usize)
        ensures
            r == (self.dtb.0 >> 12u64) as usize,
    {
        (self.dtb.0 >> 12u64) as usize
    }
}

/// The x86 variant that `arch` names, if any.
pub fn underlying_arch(arch: ArchitectureIdent) -> (r: Option<X86Architecture>)
    ensures
        r == spec_underlying_arch(arch),
        r matches Some(a) ==> a.spec_mmu().wf(),
{
    match arch {
        ArchitectureIdent::X86(64, false) => Some(X86Architecture::x64()),
        ArchitectureIdent::X86(32, false) => Some(X86Architecture::x32()),
        ArchitectureIdent::X86(32, true) => Some(X86Architecture::x32_pae()),
        _ => None,
    }
}

/// A translator for the address space rooted at `dtb`, or `InvalidArchitecture`
/// where `arch` names no x86 variant.
pub fn new_translator(dtb: Address, arch: ArchitectureIdent) -> (r: Result<
    X86ScopedVirtualTranslate,
    Error,
>)
    ensures
        match spec_underlying_arch(arch) {
            Some(a) => r == Ok::<X86ScopedVirtualTranslate, Error>(
                X86ScopedVirtualTranslate { arch: a, dtb: X86PageTableBase(dtb) },
            ),
            None => r == Err::<X86ScopedVirtualTranslate, Error>(Error::InvalidArchitecture),
        },
        r matches Ok(t) ==> t.spec_arch().spec_mmu().wf(),
{
    match underlying_arch(arch) {
        Some(a) => Ok(X86ScopedVirtualTranslate::new(a, dtb)),
        None => Err(Error::InvalidArchitecture),
    }
}

/// Whether `arch` names an x86 variant.
pub fn is_x86_arch(arch: ArchitectureIdent) -> (r: bool)
    ensures
        r == spec_underlying_arch(arch).is_some(),
{
    underlying_arch(arch).is_some()
}

} // verus!
