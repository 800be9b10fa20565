use vstd::prelude::*;
use crate::types::{Address, Error, PageType};

verus! {

/// Whether `len` bytes from `addr` lie inside `mem`.
pub open spec fn read_ok(mem: Seq<u8>, addr: Address, len: nat) -> bool {
    addr + len <= mem.len()
}

/// The `len` bytes of `mem` from `addr`.
pub open spec fn read_bytes(mem: Seq<u8>, addr: Address, len: nat) -> Seq<u8> {
    mem.subrange(addr as int, addr + len)
}

/// `mem` with `data` written from `addr` on.
pub open spec fn written(mem: Seq<u8>, addr: Address, data: Seq<u8>) -> Seq<u8> {
    mem.subrange(0, addr as int) + data + mem.subrange(addr + data.len(), mem.len() as int)
}

/// What reading `len` bytes from `addr` gives: the bytes, or `IoFailure` where
/// the range leaves the memory.
pub open spec fn read_result(mem: Seq<u8>, addr: Address, len: nat, r: Result<Vec<u8>, Error>) -> bool {
    match r {
        Ok(v) => read_ok(mem, addr, len) && v@ == read_bytes(mem, addr, len),
        Err(e) => !read_ok(mem, addr, len) && e == Error::IoFailure,
    }
}

/// Synchronous access to a physical address space.
pub trait PhysicalMemory {
    /// The bytes of physical memory, from address zero.
    spec fn contents(&self) -> Seq<u8>;

    /// How many reads this memory has served.
    spec fn reads(&self) -> nat;

    /// The memory's own consistency condition.
    spec fn inv(&self) -> bool;

    /// Reads `len` bytes from `addr`. The page type says what kind of page the
    /// bytes belong to.
    fn phys_read(&mut self, addr: Address, page_type: PageType, len: usize) -> (r: Result<
        Vec<u8>,
        Error,
    >)
        requires
            old(self).inv(),
        ensures
            final(self).inv(),
            final(self).contents() == old(self).contents(),
            final(self).reads() == old(self).reads() + 1,
            read_result(old(self).contents(), addr, len as nat, r),
    ;

    /// Writes `data` from `addr` on; fails with `IoFailure`, writing nothing,
    /// where the range leaves the memory.
    fn phys_write(&mut self, addr: Address, data: &Vec<u8>) -> (r: Result<(), Error>)
        requires
            old(self).inv(),
        ensures
            final(self).inv(),
            final(self).reads() == old(self).reads(),
            match r {
                Ok(()) => read_ok(old(self).contents(), addr, data@.len()) && final(self).contents()
                    == written(old(self).contents(), addr, data@),
                Err(e) => !read_ok(old(self).contents(), addr, data@.len()) && e == Error::IoFailure
                    && final(self).contents() == old(self).contents(),
            },
    ;
}

/// Copies `len` bytes of `src` from `start`.
pub fn copy_range(src: &Vec<u8>, start: usize, len: usize) -> (r: Vec<u8>)
    requires
        start + len <= src@.len(),
    ensures
        r@ == src@.subrange(start as int, start + len),
{
    let n = src.len();
    let mut out: Vec<u8> = Vec::with_capacity(len);
    let mut i: usize = 0;
    while i < len
        invariant
            i <= len,
            n == src@.len(),
            start + len <= src@.len(),
            out@ == src@.subrange(start as int, start + i),
        decreases len - i,
    {
        out.push(src[start + i]);
        i = i + 1;
        assert(out@ =~= src@.subrange(start as int, start + i));
    }
    out
}

/// Physical memory held in a byte vector, which counts the reads it serves.
pub struct PhysicalBuffer {
    bytes: Vec<u8>,
    count: u64,
    served: Ghost<nat>,
}

impl PhysicalBuffer {
    pub open spec fn spec_count(served: nat) -> u64 {
        if served >= u64::MAX {
            u64::MAX
        } else {
            served as u64
        }
    }

    /// Memory holding `bytes` from address zero, with no read served yet.
    pub fn new(bytes: Vec<u8>) -> (r: PhysicalBuffer)
        ensures
            r.contents() == bytes@,
            r.reads() == 0,
            r.inv(),
    {
        PhysicalBuffer { bytes, count: 0, served: Ghost(0) }
    }

    /// The number of reads served, saturating at `u64::MAX`.
    pub fn read_count(&self) -> (r: u64)
        requires
            self.inv(),
        ensures
            r == PhysicalBuffer::spec_count(self.reads()),
    {
        self.count
    }

    /// The bytes held.
    pub fn bytes(&self) -> (r: &Vec<u8>)
        ensures
            r@ == self.contents(),
    {
        &self.bytes
    }
}

impl PhysicalMemory for PhysicalBuffer {
    closed spec fn contents(&self) -> Seq<u8> {
        self.bytes@
    }

    closed spec fn reads(&self) -> nat {
        self.served@
    }

    closed spec fn inv(&self) -> bool {
        self.count == PhysicalBuffer::spec_count(self.served@)
    }

    fn phys_read(&mut self, addr: Address, page_type: PageType, len: usize) -> (r: Result<
        Vec<u8>,
        Error,
    >) {
        self.served = Ghost(self.served@ + 1);
        self.count = self.count.saturating_add(1);
        let size = self.bytes.len();
        if addr as u128 + len as u128 > size as u128 {
            return Err(Error::IoFailure);
        }
        Ok(copy_range(&self.bytes, addr as usize, len))
    }

    fn phys_write(&mut self, addr: Address, data: &Vec<u8>) -> (r: Result<(), Error>) {
        let size = self.bytes.len();
        if addr as u128 + data.len() as u128 > size as u128 {
            return Err(Error::IoFailure);
        }
        let ghost before = self.bytes@;
        let start = addr as usize;
        let mut i: usize = 0;
        while i < data.len()
            invariant
                i <= data@.len(),
                start + data@.len() <= before.len(),
                start == addr,
                size == before.len(),
                self.count == old(self).count,
                self.served == old(self).served,
                self.bytes@.len() == before.len(),
                forall|j: int|
                    0 <= j < before.len() ==> #[trigger] self.bytes@[j] == if start <= j < start + i {
                        data@[j - start]
                    } else {
                        before[j]
                    },
            decreases data@.len() - i,
        {
            self.bytes.set(start + i, data[i]);
            i = i + 1;
        }
        assert(self.bytes@ =~= written(before, addr, data@));
        Ok(())
    }
}

} // verus!
