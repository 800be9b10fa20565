use vstd::prelude::*;
use crate::mem::{copy_range, read_bytes, read_ok, read_result, written, PhysicalMemory};
use crate::types::{Address, Error, PageType};
use vstd::arithmetic::div_mod::{lemma_fundamental_div_mod, lemma_mod_multiples_basic};

verus! {

/// One cached page: its page-aligned address, its bytes, and when they were read.
pub struct CacheEntry {
    pub address: Address,
    pub data: Vec<u8>,
    pub timestamp: u64,
}

/// Physical memory behind a cache of whole pages. Pages of the kinds in the
/// filter are kept for a time-to-live after they were read, up to a byte budget;
/// all other reads, and all writes, go to the memory itself.
pub struct CachedMemory<M> {
    mem: M,
    entries: Vec<CacheEntry>,
    page_size: usize,
    max_entries: usize,
    ttl: u64,
    now: u64,
    filter: PageType,
    served: Ghost<nat>,
}

impl<M: PhysicalMemory> CachedMemory<M> {
    pub closed spec fn spec_mem(self) -> M {
        self.mem
    }

    pub closed spec fn spec_entries(self) -> Seq<(Address, Seq<u8>, u64)> {
        self.entries@.map_values(|e: CacheEntry| (e.address, e.data@, e.timestamp))
    }

    pub closed spec fn spec_page_size(self) -> nat {
        self.page_size as nat
    }

    pub closed spec fn spec_max_entries(self) -> nat {
        self.max_entries as nat
    }

    pub closed spec fn spec_ttl(self) -> u64 {
        self.ttl
    }

    pub closed spec fn spec_now(self) -> u64 {
        self.now
    }

    pub closed spec fn spec_filter(self) -> PageType {
        self.filter
    }

    /// The page-aligned address of the page that holds `addr`.
    pub open spec fn page_base(self, addr: Address) -> int {
        addr - (addr as int) % (self.spec_page_size() as int)
    }

    /// Whether a read of `len` bytes from `addr` on a page of type `pt` goes
    /// through the cache: its type is in the filter, it is not empty, it stays
    /// in one page, and the budget holds at least one page.
    pub open spec fn eligible(self, addr: Address, pt: PageType, len: nat) -> bool {
        &&& self.spec_filter().spec_intersects(pt)
        &&& len > 0
        &&& (addr as int) % (self.spec_page_size() as int) + len <= self.spec_page_size()
        &&& self.spec_max_entries() > 0
    }

    /// Whether an entry read at `ts` is still fresh at `now`.
    pub open spec fn fresh(self, ts: u64) -> bool {
        ts <= self.spec_now() && self.spec_now() - ts < self.spec_ttl()
    }

    /// Whether the read is served from the cache, without physical I/O.
    pub open spec fn hit(self, addr: Address, pt: PageType, len: nat) -> bool {
        &&& self.eligible(addr, pt, len)
        &&& exists|i: int|
            0 <= i < self.spec_entries().len() && #[trigger] self.spec_entries()[i].0
                == self.page_base(addr) && self.fresh(self.spec_entries()[i].2)
    }

    pub closed spec fn entry_ok(self, e: CacheEntry) -> bool {
        &&& e.data@.len() == self.page_size
        &&& (e.address as int) % (self.page_size as int) == 0
        &&& read_ok(self.mem.contents(), e.address, self.page_size as nat)
        &&& e.data@ == read_bytes(self.mem.contents(), e.address, self.page_size as nat)
    }

    /// Wraps `mem` in a cache of pages of `page_size` bytes that holds at most
    /// `capacity` bytes, keeps a page for `ttl` time units, and caches only
    /// pages whose type shares a flag with `filter`. The clock starts at zero.
    pub fn new(mem: M, capacity: usize, ttl: u64, filter: PageType, page_size: usize) -> (r: Self)
        requires
            mem.inv(),
            page_size > 0,
        ensures
            r.inv(),
            r.spec_mem() == mem,
            r.contents() == mem.contents(),
            r.reads() == 0,
            r.spec_entries().len() == 0,
            r.spec_page_size() == page_size,
            r.spec_max_entries() == capacity / page_size,
            r.spec_ttl() == ttl,
            r.spec_now() == 0,
            r.spec_filter() == filter,
    {
        let r = CachedMemory {
            mem,
            entries: Vec::new(),
            page_size,
            max_entries: capacity / page_size,
            ttl,
            now: 0,
            filter,
            served: Ghost(0),
        };
        assert(r.spec_entries() =~= seq![]);
        r
    }

    /// Sets the clock, which decides which entries are still fresh.
    pub fn set_time(&mut self, now: u64)
        requires
            old(self).inv(),
        ensures
            final(self).inv(),
            final(self).spec_now() == now,
            final(self).spec_mem() == old(self).spec_mem(),
            final(self).spec_entries() == old(self).spec_entries(),
            final(self).contents() == old(self).contents(),
            final(self).reads() == old(self).reads(),
            final(self).spec_page_size() == old(self).spec_page_size(),
            final(self).spec_max_entries() == old(self).spec_max_entries(),
            final(self).spec_ttl() == old(self).spec_ttl(),
            final(self).spec_filter() == old(self).spec_filter(),
    {
        self.now = now;
    }

    /// The clock.
    pub fn now(&self) -> (r: u64)
        ensures
            r == self.spec_now(),
    {
        self.now
    }

    /// The number of cached pages.
    pub fn cached_pages(&self) -> (r: usize)
        ensures
            r == self.spec_entries().len(),
    {
        self.entries.len()
    }

    /// The wrapped memory.
    pub fn inner(&self) -> (r: &M)
        ensures
            *r == self.spec_mem(),
    {
        &self.mem
    }

    /// Gives the wrapped memory back.
    pub fn into_inner(self) -> (r: M)
        ensures
            r == self.spec_mem(),
    {
        self.mem
    }

    /// Looks for an entry of `base` that is fresh, or else for any entry of `base`.
    fn find(&self, base: Address) -> (r: (Option<usize>, Option<usize>))
        ensures
            r.0 matches Some(j) ==> j < self.entries@.len() && self.entries@[j as int].address
                == base && self.fresh(self.entries@[j as int].timestamp),
            r.0 is None ==> forall|i: int|
                0 <= i < self.entries@.len() && self.entries@[i].address == base ==> !self.fresh(
                    #[trigger] self.entries@[i].timestamp,
                ),
            r.1 matches Some(j) ==> j < self.entries@.len() && self.entries@[j as int].address
                == base,
    {
        let mut fresh: Option<usize> = None;
        let mut stale: Option<usize> = None;
        let mut i: usize = 0;
        while i < self.entries.len()
            invariant
                i <= self.entries@.len(),
                fresh matches Some(j) ==> j < self.entries@.len() && self.entries@[j as int].address
                    == base && self.fresh(self.entries@[j as int].timestamp),
                fresh is None ==> forall|k: int|
                    0 <= k < i && self.entries@[k].address == base ==> !self.fresh(
                        #[trigger] self.entries@[k].timestamp,
                    ),
                stale matches Some(j) ==> j < self.entries@.len() && self.entries@[j as int].address
                    == base,
            decreases self.entries@.len() - i,
        {
            let e = &self.entries[i];
            if e.address == base {
                if e.timestamp <= self.now && self.now - e.timestamp < self.ttl {
                    return (Some(i), Some(i));
                }
                stale = Some(i);
            }
            i = i + 1;
        }
        (fresh, stale)
    }

    /// The index of the entry read longest ago.
    fn oldest(&self) -> (r: usize)
        requires
            self.entries@.len() > 0,
        ensures
            r < self.entries@.len(),
    {
        let mut best: usize = 0;
        let mut i: usize = 1;
        while i < self.entries.len()
            invariant
                1 <= i <= self.entries@.len(),
                best < self.entries@.len(),
            decreases self.entries@.len() - i,
        {
            if self.entries[i].timestamp < self.entries[best].timestamp {
                best = i;
            }
            i = i + 1;
        }
        best
    }

    /// Reads `len` bytes from `addr`, from the cache where the page is cached and
    /// fresh; else from memory, keeping the whole page where the read is eligible.
    pub fn cached_read(&mut self, addr: Address, pt: PageType, len: usize) -> (r: Result<
        Vec<u8>,
        Error,
    >)
        requires
            old(self).inv(),
        ensures
            final(self).inv(),
            final(self).contents() == old(self).contents(),
            final(self).reads() == old(self).reads() + 1,
            read_result(old(self).contents(), addr, len as nat, r),
            final(self).spec_now() == old(self).spec_now(),
            final(self).spec_ttl() == old(self).spec_ttl(),
            final(self).spec_filter() == old(self).spec_filter(),
            final(self).spec_page_size() == old(self).spec_page_size(),
            final(self).spec_max_entries() == old(self).spec_max_entries(),
            old(self).hit(addr, pt, len as nat) ==> final(self).spec_mem() == old(self).spec_mem(),
            !old(self).hit(addr, pt, len as nat) ==> final(self).spec_mem().reads() > old(
                self,
            ).spec_mem().reads(),
            !old(self).hit(addr, pt, len as nat) && old(self).eligible(addr, pt, len as nat)
                && read_ok(
                old(self).contents(),
                old(self).page_base(addr) as u64,
                old(self).spec_page_size(),
            ) ==> final(self).spec_mem().reads() == old(self).spec_mem().reads() + 1 && (old(
                self,
            ).spec_ttl() > 0 ==> final(self).hit(addr, pt, len as nat)),
    {
        self.served = Ghost(self.served@ + 1);
        let ps = self.page_size;
        let ps64 = ps as u64;
        let in_page = len > 0 && len <= ps && (addr % ps64) as usize <= ps - len;
        if !(self.filter.intersects(&pt) && in_page && self.max_entries > 0) {
            let r = self.mem.phys_read(addr, pt, len);
            proof {
                assert forall|e: CacheEntry| old(self).entry_ok(e) implies self.entry_ok(e) by {}
            }
            return r;
        }
        proof {
            lemma_fundamental_div_mod(addr as int, ps64 as int);
            lemma_mod_multiples_basic(addr as int / ps64 as int, ps64 as int);
            assert(ps64 * (addr as int / ps64 as int) == (addr as int / ps64 as int) * ps64)
                by (nonlinear_arith);
        }
        let base = addr - addr % ps64;
        let off = (addr % ps64) as usize;
        assert(base == self.page_base(addr));
        assert(self.eligible(addr, pt, len as nat));
        let (fresh, stale) = self.find(base);
        if let Some(j) = fresh {
            assert(self.entry_ok(self.entries@[j as int]));
            assert(self.spec_entries()[j as int].0 == self.page_base(addr));
            assert(old(self).spec_entries() == self.spec_entries());
            assert(old(self).spec_entries()[j as int].0 == old(self).page_base(addr));
            assert(old(self).fresh(old(self).spec_entries()[j as int].2));
            assert(old(self).hit(addr, pt, len as nat));
            let r = copy_range(&self.entries[j].data, off, len);
            assert(r@ =~= read_bytes(self.mem.contents(), addr, len as nat));
            return Ok(r);
        }
        proof {
            assert forall|i: int|
                0 <= i < self.spec_entries().len() && #[trigger] self.spec_entries()[i].0
                    == self.page_base(addr) implies !self.fresh(self.spec_entries()[i].2) by {
                assert(self.entries@[i].address == base);
            }
        }
        let ghost before = *self;
        match self.mem.phys_read(base, pt, ps) {
            Ok(page) => {
                let r = copy_range(&page, off, len);
                assert(r@ =~= read_bytes(self.mem.contents(), addr, len as nat));
                let entry = CacheEntry { address: base, data: page, timestamp: self.now };
                let slot: usize = if let Some(j) = stale {
                    j
                } else if self.entries.len() < self.max_entries {
                    self.entries.len()
                } else {
                    self.oldest()
                };
                if slot == self.entries.len() {
                    self.entries.push(entry);
                } else {
                    self.entries.set(slot, entry);
                }
                proof {
                    assert(self.entry_ok(self.entries@[slot as int]));
                    assert forall|i: int| 0 <= i < self.entries@.len() implies self.entry_ok(
                        #[trigger] self.entries@[i],
                    ) by {
                        if i != slot {
                            assert(before.entries@[i] == self.entries@[i]);
                            assert(before.entry_ok(before.entries@[i]));
                        }
                    }
                    assert(self.spec_entries()[slot as int].0 == self.page_base(addr));
                    assert(self.spec_entries()[slot as int].2 == self.now);
                }
                Ok(r)
            },
            Err(_) => {
                proof {
                    assert forall|e: CacheEntry| before.entry_ok(e) implies self.entry_ok(e) by {}
                }
                let r = self.mem.phys_read(addr, pt, len);
                proof {
                    assert forall|e: CacheEntry| before.entry_ok(e) implies self.entry_ok(e) by {}
                }
                r
            },
        }
    }

    /// Writes through to memory, then drops every cached page the write touched.
    pub fn cached_write(&mut self, addr: Address, data: &Vec<u8>) -> (r: Result<(), Error>)
        requires
            old(self).inv(),
        ensures
            final(self).inv(),
            final(self).reads() == old(self).reads(),
            final(self).spec_now() == old(self).spec_now(),
            final(self).spec_ttl() == old(self).spec_ttl(),
            final(self).spec_filter() == old(self).spec_filter(),
            final(self).spec_page_size() == old(self).spec_page_size(),
            final(self).spec_max_entries() == old(self).spec_max_entries(),
            match r {
                Ok(()) => read_ok(old(self).contents(), addr, data@.len()) && final(self).contents()
                    == written(old(self).contents(), addr, data@),
                Err(e) => !read_ok(old(self).contents(), addr, data@.len()) && e == Error::IoFailure
                    && final(self).contents() == old(self).contents(),
            },
    {
        let ghost old_mem = self.mem.contents();
        let ghost old_entries = self.entries@;
        let ps = self.page_size;
        let r = self.mem.phys_write(addr, data);
        if r.is_err() {
            proof {
                assert forall|i: int| 0 <= i < self.entries@.len() implies self.entry_ok(
                    #[trigger] self.entries@[i],
                ) by {
                    assert(old(self).entry_ok(old_entries[i]));
                }
            }
            return r;
        }
        let ghost new_mem = self.mem.contents();
        let end: u128 = addr as u128 + data.len() as u128;
        let mut j: usize = self.entries.len();
        while j > 0
            invariant
                j <= self.entries@.len(),
                ps == self.page_size,
                ps > 0,
                end == addr + data@.len(),
                read_ok(old_mem, addr, data@.len()),
                new_mem == written(old_mem, addr, data@),
                self.mem.contents() == new_mem,
                self.mem.inv(),
                self.entries@.len() <= self.max_entries,
                self.served == old(self).served,
                self.now == old(self).now,
                self.ttl == old(self).ttl,
                self.filter == old(self).filter,
                self.max_entries == old(self).max_entries,
                self.page_size == old(self).page_size,
                forall|i: int|
                    0 <= i < j ==> {
                        let e = #[trigger] self.entries@[i];
                        &&& e.data@.len() == ps
                        &&& (e.address as int) % (ps as int) == 0
                        &&& read_ok(old_mem, e.address, ps as nat)
                        &&& e.data@ == read_bytes(old_mem, e.address, ps as nat)
                    },
                forall|i: int| j <= i < self.entries@.len() ==> self.entry_ok(#[trigger] self.entries@[i]),
            decreases j,
        {
            j = j - 1;
            let a = self.entries[j].address;
            if (a as u128) < end && (addr as u128) < a as u128 + ps as u128 {
                let _ = self.entries.remove(j);
            } else {
                proof {
                    let e = self.entries@[j as int];
                    assert(read_bytes(new_mem, e.address, ps as nat) =~= read_bytes(
                        old_mem,
                        e.address,
                        ps as nat,
                    ));
                }
            }
        }
        r
    }
}

/// While a page is cached and fresh, every eligible read inside that page is a
/// hit, whatever part of the page it asks for.
pub proof fn lemma_same_page_hits<M: PhysicalMemory>(
    c: CachedMemory<M>,
    addr: Address,
    pt: PageType,
    len: nat,
    addr2: Address,
    pt2: PageType,
    len2: nat,
)
    requires
        c.hit(addr, pt, len),
        c.eligible(addr2, pt2, len2),
        c.page_base(addr2) == c.page_base(addr),
    ensures
        c.hit(addr2, pt2, len2),
{
    let i = choose|i: int|
        0 <= i < c.spec_entries().len() && #[trigger] c.spec_entries()[i].0 == c.page_base(addr)
            && c.fresh(c.spec_entries()[i].2);
    assert(c.spec_entries()[i].0 == c.page_base(addr2));
}

/// Once the clock has passed the time-to-live of every entry of a page, a read
/// of that page is no hit: it goes to memory again.
pub proof fn lemma_expired_page_misses<M: PhysicalMemory>(
    c: CachedMemory<M>,
    addr: Address,
    pt: PageType,
    len: nat,
)
    requires
        forall|i: int|
            0 <= i < c.spec_entries().len() && #[trigger] c.spec_entries()[i].0 == c.page_base(addr)
                ==> c.spec_entries()[i].2 + c.spec_ttl() <= c.spec_now(),
    ensures
        !c.hit(addr, pt, len),
{
}

impl<M: PhysicalMemory> PhysicalMemory for CachedMemory<M> {
    open spec fn contents(&self) -> Seq<u8> {
        self.spec_mem().contents()
    }

    closed spec fn reads(&self) -> nat {
        self.served@
    }

    closed spec fn inv(&self) -> bool {
        &&& self.mem.inv()
        &&& self.page_size > 0
        &&& self.entries@.len() <= self.max_entries
        &&& forall|i: int| 0 <= i < self.entries@.len() ==> self.entry_ok(#[trigger] self.entries@[i])
    }

    fn phys_read(&mut self, addr: Address, page_type: PageType, len: usize) -> (r: Result<
        Vec<u8>,
        Error,
    >) {
        self.cached_read(addr, page_type, len)
    }

    fn phys_write(&mut self, addr: Address, data: &Vec<u8>) -> (r: Result<(), Error>) {
        self.cached_write(addr, data)
    }
}

} // verus!
