use vstd::prelude::*;

verus! {

/// A guest virtual or physical address.
pub type Address = u64;

/// Why a translation or a physical access failed.
#[derive(Clone, Copy, Debug, PartialEq, Eq, Structural)]
pub enum Error {
    /// The requested architecture has no page-table format here.
    InvalidArchitecture,
    /// A present bit was clear on some level of the walk.
    PageNotPresent,
    /// Address arithmetic left the architecture's address width.
    OutOfBounds,
    /// The underlying physical access failed.
    IoFailure,
}

/// Classification of the page that an address resolved into.
#[derive(Clone, Copy, Debug, PartialEq, Eq, Structural)]
pub struct PageType {
    pub page_table: bool,
    pub writeable: bool,
    pub read_only: bool,
    pub noexec: bool,
}

impl PageType {
    pub open spec fn spec_none() -> PageType {
        PageType { page_table: false, writeable: false, read_only: false, noexec: false }
    }

    pub open spec fn spec_page_table() -> PageType {
        PageType { page_table: true, ..PageType::spec_none() }
    }

    /// The empty flag set.
    pub fn none() -> (r: PageType)
        ensures
            r == PageType::spec_none(),
    {
        PageType { page_table: false, writeable: false, read_only: false, noexec: false }
    }

    /// The flag set of a page that holds a page table.
    pub fn page_table() -> (r: PageType)
        ensures
            r == PageType::spec_page_table(),
    {
        PageType { page_table: true, writeable: false, read_only: false, noexec: false }
    }

    /// The flag set of a data page: writeable or read-only, possibly not executable.
    pub fn data(writeable: bool, noexec: bool) -> (r: PageType)
        ensures
            r == (PageType {
                page_table: false,
                writeable: writeable,
                read_only: !writeable,
                noexec: noexec,
            }),
    {
        PageType { page_table: false, writeable, read_only: !writeable, noexec }
    }

    pub open spec fn spec_union(self, o: PageType) -> PageType {
        PageType {
            page_table: self.page_table || o.page_table,
            writeable: self.writeable || o.writeable,
            read_only: self.read_only || o.read_only,
            noexec: self.noexec || o.noexec,
        }
    }

    /// Both flag sets combined.
    pub fn union(&self, o: &PageType) -> (r: PageType)
        ensures
            r == self.spec_union(*o),
    {
        PageType {
            page_table: self.page_table || o.page_table,
            writeable: self.writeable || o.writeable,
            read_only: self.read_only || o.read_only,
            noexec: self.noexec || o.noexec,
        }
    }

    pub open spec fn spec_intersects(self, o: PageType) -> bool {
        (self.page_table && o.page_table) || (self.writeable && o.writeable) || (self.read_only
            && o.read_only) || (self.noexec && o.noexec)
    }

    /// Whether the two flag sets share a flag.
    pub fn intersects(&self, o: &PageType) -> (r: bool)
        ensures
            r == self.spec_intersects(*o),
    {
        (self.page_table && o.page_table) || (self.writeable && o.writeable) || (self.read_only
            && o.read_only) || (self.noexec && o.noexec)
    }
}

/// A physical address together with the kind and size of the page it lies in.
#[derive(Clone, Copy, Debug, PartialEq, Eq, Structural)]
pub struct PhysicalAddress {
    pub address: Address,
    pub page_type: PageType,
    pub page_size: u64,
}

} // verus!
