use vstd::prelude::*;
use crate::mem::{read_bytes, read_ok, PhysicalMemory};
use crate::types::{Address, Error, PageType, PhysicalAddress};

verus! {

/// Bit of an entry that says the entry is in use.
pub const PRESENT_BIT: u64 = 0;

/// Bit of an entry that allows writes.
pub const WRITEABLE_BIT: u64 = 1;

/// Bit of an entry above the last level that ends the walk with a large page.
pub const LARGE_PAGE_BIT: u64 = 7;

/// Bit of an entry that forbids instruction fetches, where the format has it.
pub const NX_BIT: u64 = 63;

/// `256` to the power `n`.
pub open spec fn pow256(n: nat) -> nat
    decreases n,
{
    if n == 0 {
        1
    } else {
        256 * pow256((n - 1) as nat)
    }
}

/// The little-endian value of a byte sequence.
pub open spec fn le_value(b: Seq<u8>) -> nat
    decreases b.len(),
{
    if b.len() == 0 {
        0
    } else {
        b[0] as nat + 256 * le_value(b.drop_first())
    }
}

/// The `n` lowest bits set.
pub open spec fn low_mask(n: u64) -> u64 {
    ((1u64 << n) - 1) as u64
}

/// Bits `lo` up to, not including, `hi` set.
pub open spec fn frame_mask(lo: u64, hi: u64) -> u64 {
    low_mask(hi) & !low_mask(lo)
}

pub open spec fn pte_present(e: u64) -> bool {
    (e >> PRESENT_BIT) & 1 == 1
}

pub open spec fn pte_writeable(e: u64) -> bool {
    (e >> WRITEABLE_BIT) & 1 == 1
}

pub open spec fn pte_large(e: u64) -> bool {
    (e >> LARGE_PAGE_BIT) & 1 == 1
}

pub open spec fn pte_noexec(e: u64) -> bool {
    (e >> NX_BIT) & 1 == 1
}

proof fn lemma_le_value_bound(b: Seq<u8>)
    ensures
        le_value(b) < pow256(b.len()),
    decreases b.len(),
{
    if b.len() > 0 {
        lemma_le_value_bound(b.drop_first());
    }
}

proof fn lemma_pow256_fits(n: nat)
    requires
        n <= 8,
    ensures
        pow256(n) <= 0x1_0000_0000_0000_0000,
        n < 8 ==> pow256(n) * 256 <= 0x1_0000_0000_0000_0000,
{
    reveal_with_fuel(pow256, 9);
    assert(n == 0 || n == 1 || n == 2 || n == 3 || n == 4 || n == 5 || n == 6 || n == 7 || n
        == 8);
}

/// The little-endian value of at most eight bytes.
pub fn le_decode(b: &Vec<u8>) -> (r: u64)
    requires
        b@.len() <= 8,
    ensures
        r as nat == le_value(b@),
{
    let n = b.len();
    let mut i: usize = n;
    let mut v: u64 = 0;
    while i > 0
        invariant
            i <= n,
            n == b@.len(),
            n <= 8,
            v as nat == le_value(b@.subrange(i as int, n as int)),
            v < pow256((n - i) as nat),
        decreases i,
    {
        let ghost tail = b@.subrange(i as int, n as int);
        let ghost whole = b@.subrange(i - 1, n as int);
        assert(whole.drop_first() =~= tail);
        proof {
            lemma_pow256_fits((n - i) as nat);
        }
        assert(v * 256 + b@[i - 1] < pow256((n - i) as nat) * 256) by (nonlinear_arith)
            requires
                v < pow256((n - i) as nat),
                b@[i - 1] < 256,
        ;
        v = v * 256 + b[i - 1] as u64;
        i = i - 1;
    }
    assert(b@.subrange(0, n as int) =~= b@);
    v
}

fn low_mask_exec(n: u64) -> (r: u64)
    requires
        n < 64,
    ensures
        r == low_mask(n),
{
    assert(1u64 << n >= 1) by (bit_vector)
        requires
            n < 64,
    ;
    (1u64 << n) - 1
}

/// Declarative geometry of one page-table format.
#[derive(Clone, Copy, Debug, PartialEq, Eq, Structural)]
pub struct ArchMMUSpec {
    /// Number of table levels a walk passes.
    pub levels: u64,
    /// Virtual-address bits that index one table; the top table may use fewer.
    pub index_bits: u64,
    /// Base-2 logarithm of the base page size.
    pub page_shift: u64,
    /// Bytes in one entry.
    pub pte_size: u64,
    /// Width of a virtual address in bits.
    pub va_bits: u64,
    /// Width of a physical address in bits.
    pub pa_bits: u64,
    /// Large pages may end a walk on levels 2 up to this one (1: none).
    pub max_large_level: u64,
    /// Whether entries carry a no-execute bit.
    pub has_nx: bool,
    /// Bytes in an address.
    pub addr_size: u64,
}

impl ArchMMUSpec {
    pub open spec fn spec_x64() -> ArchMMUSpec {
        ArchMMUSpec {
            levels: 4,
            index_bits: 9,
            page_shift: 12,
            pte_size: 8,
            va_bits: 64,
            pa_bits: 52,
            max_large_level: 3,
            has_nx: true,
            addr_size: 8,
        }
    }

    pub open spec fn spec_x32() -> ArchMMUSpec {
        ArchMMUSpec {
            levels: 2,
            index_bits: 10,
            page_shift: 12,
            pte_size: 4,
            va_bits: 32,
            pa_bits: 32,
            max_large_level: 2,
            has_nx: false,
            addr_size: 4,
        }
    }

    pub open spec fn spec_x32_pae() -> ArchMMUSpec {
        ArchMMUSpec {
            levels: 3,
            index_bits: 9,
            page_shift: 12,
            pte_size: 8,
            va_bits: 32,
            pa_bits: 36,
            max_large_level: 2,
            has_nx: true,
            addr_size: 4,
        }
    }

    /// 64-bit long mode.
    pub fn x64() -> (r: ArchMMUSpec)
        ensures
            r == ArchMMUSpec::spec_x64(),
            r.wf(),
    {
        ArchMMUSpec {
            levels: 4,
            index_bits: 9,
            page_shift: 12,
            pte_size: 8,
            va_bits: 64,
            pa_bits: 52,
            max_large_level: 3,
            has_nx: true,
            addr_size: 8,
        }
    }

    /// 32-bit paging without PAE.
    pub fn x32() -> (r: ArchMMUSpec)
        ensures
            r == ArchMMUSpec::spec_x32(),
            r.wf(),
    {
        ArchMMUSpec {
            levels: 2,
            index_bits: 10,
            page_shift: 12,
            pte_size: 4,
            va_bits: 32,
            pa_bits: 32,
            max_large_level: 2,
            has_nx: false,
            addr_size: 4,
        }
    }

    /// 32-bit paging with PAE.
    pub fn x32_pae() -> (r: ArchMMUSpec)
        ensures
            r == ArchMMUSpec::spec_x32_pae(),
            r.wf(),
    {
        ArchMMUSpec {
            levels: 3,
            index_bits: 9,
            page_shift: 12,
            pte_size: 8,
            va_bits: 32,
            pa_bits: 36,
            max_large_level: 2,
            has_nx: true,
            addr_size: 4,
        }
    }

    /// The geometry is one that the walk can follow.
    pub open spec fn wf(self) -> bool {
        &&& 1 <= self.levels <= 4
        &&& 1 <= self.index_bits <= 10
        &&& self.page_shift == 12
        &&& (self.pte_size == 4 || self.pte_size == 8)
        &&& 32 <= self.va_bits <= 64
        &&& 32 <= self.pa_bits <= 52
        &&& 1 <= self.max_large_level <= self.levels
        &&& (self.addr_size == 4 || self.addr_size == 8)
    }

    pub open spec fn spec_page_size(self) -> u64 {
        1u64 << self.page_shift
    }

    /// Size of a base page in bytes.
    pub fn page_size(&self) -> (r: u64)
        requires
            self.wf(),
        ensures
            r == self.spec_page_size(),
    {
        1u64 << self.page_shift
    }

    /// The lowest virtual-address bit that indexes the table of level `k`
    /// (level 1 holds the last entries of a walk).
    pub open spec fn level_shift(self, k: int) -> int {
        self.page_shift + self.index_bits * (k - 1)
    }

    /// The index into the table of level `k` that `va` selects.
    pub open spec fn pte_index(self, va: u64, k: int) -> u64 {
        (va >> (self.level_shift(k) as u64)) & low_mask(self.index_bits)
    }

    /// The address of the entry of level `k` that `va` selects in `table`.
    pub open spec fn pte_addr(self, table: u64, va: u64, k: int) -> int {
        table + self.pte_index(va, k) * self.pte_size
    }

    /// The table that entry `e` points to.
    pub open spec fn next_table(self, e: u64) -> u64 {
        e & frame_mask(self.page_shift, self.pa_bits)
    }

    /// Where `va` lies when entry `e` of level `k` ends the walk.
    pub open spec fn leaf(self, e: u64, va: u64, k: int) -> PhysicalAddress {
        let shift = self.level_shift(k) as u64;
        PhysicalAddress {
            address: (e & frame_mask(shift, self.pa_bits)) | (va & low_mask(shift)),
            page_type: PageType {
                page_table: false,
                writeable: pte_writeable(e),
                read_only: !pte_writeable(e),
                noexec: self.has_nx && pte_noexec(e),
            },
            page_size: 1u64 << shift,
        }
    }

    /// Whether entry `e` of level `k` ends the walk.
    pub open spec fn ends_walk(self, e: u64, k: int) -> bool {
        k == 1 || (k <= self.max_large_level && pte_large(e))
    }

    /// The walk of `va` from `table` on level `k` down.
    pub open spec fn walk_from(self, mem: Seq<u8>, table: u64, va: u64, k: nat) -> Result<
        PhysicalAddress,
        Error,
    >
        decreases k,
    {
        if k == 0 {
            Err(Error::OutOfBounds)
        } else {
            let ea = self.pte_addr(table, va, k as int);
            if ea > u64::MAX {
                Err(Error::OutOfBounds)
            } else if !read_ok(mem, ea as u64, self.pte_size as nat) {
                Err(Error::IoFailure)
            } else {
                let e = le_value(read_bytes(mem, ea as u64, self.pte_size as nat)) as u64;
                if !pte_present(e) {
                    Err(Error::PageNotPresent)
                } else if self.ends_walk(e, k as int) {
                    Ok(self.leaf(e, va, k as int))
                } else {
                    self.walk_from(mem, self.next_table(e), va, (k - 1) as nat)
                }
            }
        }
    }

    /// Whether `va` fits the virtual-address width.
    pub open spec fn va_in_range(self, va: u64) -> bool {
        self.va_bits >= 64 || va >> self.va_bits == 0
    }

    /// The translation of `va` in the address space rooted at `dtb`, over the
    /// physical memory `mem`.
    pub open spec fn walk(self, mem: Seq<u8>, dtb: u64, va: u64) -> Result<PhysicalAddress, Error> {
        if !self.va_in_range(va) {
            Err(Error::OutOfBounds)
        } else {
            self.walk_from(mem, dtb, va, self.levels as nat)
        }
    }

    fn make_leaf(&self, e: u64, va: u64, shift: u64) -> (r: PhysicalAddress)
        requires
            self.wf(),
            shift < 64,
        ensures
            r == (PhysicalAddress {
                address: (e & frame_mask(shift, self.pa_bits)) | (va & low_mask(shift)),
                page_type: PageType {
                    page_table: false,
                    writeable: pte_writeable(e),
                    read_only: !pte_writeable(e),
                    noexec: self.has_nx && pte_noexec(e),
                },
                page_size: 1u64 << shift,
            }),
    {
        let low = low_mask_exec(shift);
        let frame = low_mask_exec(self.pa_bits) & !low;
        let writeable = (e >> WRITEABLE_BIT) & 1 == 1;
        let noexec = self.has_nx && (e >> NX_BIT) & 1 == 1;
        PhysicalAddress {
            address: (e & frame) | (va & low),
            page_type: PageType::data(writeable, noexec),
            page_size: 1u64 << shift,
        }
    }

    /// Translates `va` in the address space rooted at `dtb`, reading one entry
    /// per level from `mem`.
    pub fn virt_to_phys<M: PhysicalMemory>(&self, mem: &mut M, dtb: Address, va: Address) -> (r:
        Result<PhysicalAddress, Error>)
        requires
            self.wf(),
            old(mem).inv(),
        ensures
            final(mem).inv(),
            final(mem).contents() == old(mem).contents(),
            r == self.walk(old(mem).contents(), dtb, va),
    {
        if self.va_bits < 64 && (va >> self.va_bits) != 0 {
            return Err(Error::OutOfBounds);
        }
        let ghost contents = mem.contents();
        let idx_mask = low_mask_exec(self.index_bits);
        let ib = self.index_bits;
        assert(idx_mask <= 1023) by (bit_vector)
            requires
                idx_mask == low_mask(ib),
                1 <= ib <= 10,
        ;
        let mut table = dtb;
        let mut k: u64 = self.levels;
        assert(self.index_bits * (k - 1) <= 30) by (nonlinear_arith)
            requires
                self.index_bits <= 10,
                1 <= k <= 4,
        ;
        let mut shift: u64 = self.page_shift + self.index_bits * (k - 1);
        loop
            invariant
                self.wf(),
                1 <= k <= self.levels,
                shift == self.level_shift(k as int),
                shift <= 42,
                idx_mask == low_mask(self.index_bits),
                idx_mask <= 1023,
                mem.inv(),
                mem.contents() == contents,
                contents == old(mem).contents(),
                self.va_in_range(va),
                self.walk(contents, dtb, va) == self.walk_from(contents, table, va, k as nat),
            decreases k,
        {
            let idx = (va >> shift) & idx_mask;
            assert(idx <= idx_mask) by (bit_vector)
                requires
                    idx == (va >> shift) & idx_mask,
            ;
            assert(idx * self.pte_size <= 1023 * 8) by (nonlinear_arith)
                requires
                    idx <= 1023,
                    self.pte_size <= 8,
            ;
            let off = idx * self.pte_size;
            if table > u64::MAX - off {
                return Err(Error::OutOfBounds);
            }
            let ea = table + off;
            let bytes = match mem.phys_read(ea, PageType::page_table(), self.pte_size as usize) {
                Ok(b) => b,
                Err(e) => {
                    return Err(e);
                },
            };
            let e = le_decode(&bytes);
            proof {
                lemma_le_value_bound(bytes@);
                lemma_pow256_fits(bytes@.len());
            }
            if (e >> PRESENT_BIT) & 1 != 1 {
                return Err(Error::PageNotPresent);
            }
            if k == 1 || (k <= self.max_large_level && (e >> LARGE_PAGE_BIT) & 1 == 1) {
                return Ok(self.make_leaf(e, va, shift));
            }
            table = e & (low_mask_exec(self.pa_bits) & !low_mask_exec(self.page_shift));
            assert(self.level_shift(k as int) - self.index_bits == self.level_shift(k - 1))
                by (nonlinear_arith);
            k = k - 1;
            shift = shift - self.index_bits;
        }
    }
}

proof fn lemma_leaf_offset_bits(e: u64, va: u64, shift: u64, pa_bits: u64)
    requires
        shift < 64,
        pa_bits < 64,
    ensures
        ((e & frame_mask(shift, pa_bits)) | (va & low_mask(shift))) & low_mask(shift) == va
            & low_mask(shift),
        (1u64 << shift) - 1 == low_mask(shift),
{
    assert(((e & (((1u64 << pa_bits) - 1) as u64 & !(((1u64 << shift) - 1) as u64))) | (va & ((
    1u64 << shift) - 1) as u64)) & ((1u64 << shift) - 1) as u64 == va & ((1u64 << shift)
        - 1) as u64) by (bit_vector)
        requires
            shift < 64,
            pa_bits < 64,
    ;
    assert(1u64 << shift >= 1) by (bit_vector)
        requires
            shift < 64,
    ;
}

/// A present entry with the large-page bit, on a level that allows large pages,
/// ends the walk there: the page is as large as that level's share of the
/// address, and the physical address keeps the low bits of `va` within it.
pub proof fn lemma_large_page(m: ArchMMUSpec, mem: Seq<u8>, table: u64, va: u64, k: nat)
    requires
        m.wf(),
        2 <= k <= m.max_large_level,
        m.pte_addr(table, va, k as int) <= u64::MAX,
        read_ok(mem, m.pte_addr(table, va, k as int) as u64, m.pte_size as nat),
        pte_present(
            le_value(read_bytes(mem, m.pte_addr(table, va, k as int) as u64, m.pte_size as nat))
                as u64,
        ),
        pte_large(
            le_value(read_bytes(mem, m.pte_addr(table, va, k as int) as u64, m.pte_size as nat))
                as u64,
        ),
    ensures
        m.walk_from(mem, table, va, k) is Ok,
        m.walk_from(mem, table, va, k)->Ok_0.page_size == 1u64 << (m.level_shift(k as int) as u64),
        m.walk_from(mem, table, va, k)->Ok_0.address & low_mask(m.level_shift(k as int) as u64)
            == va & low_mask(m.level_shift(k as int) as u64),
{
    let e = le_value(read_bytes(mem, m.pte_addr(table, va, k as int) as u64, m.pte_size as nat))
        as u64;
    assert(m.level_shift(k as int) <= 42) by (nonlinear_arith)
        requires
            m.page_shift == 12,
            m.index_bits <= 10,
            k <= 4,
            m.level_shift(k as int) == m.page_shift + m.index_bits * (k - 1),
    ;
    lemma_leaf_offset_bits(e, va, m.level_shift(k as int) as u64, m.pa_bits);
}

/// Every translation keeps the offset of `va` within the page it lands in:
/// the low bits of the physical address, below the page size, are those of `va`.
pub proof fn lemma_walk_keeps_offset(m: ArchMMUSpec, mem: Seq<u8>, table: u64, va: u64, k: nat)
    requires
        m.wf(),
        k <= m.levels,
        m.walk_from(mem, table, va, k) is Ok,
    ensures
        m.walk_from(mem, table, va, k)->Ok_0.address & ((m.walk_from(mem, table, va, k)
            ->Ok_0.page_size - 1) as u64) == va & ((m.walk_from(mem, table, va, k)
            ->Ok_0.page_size - 1) as u64),
    decreases k,
{
    let ea = m.pte_addr(table, va, k as int);
    let e = le_value(read_bytes(mem, ea as u64, m.pte_size as nat)) as u64;
    if m.ends_walk(e, k as int) {
        assert(m.level_shift(k as int) <= 42) by (nonlinear_arith)
            requires
                m.page_shift == 12,
                m.index_bits <= 10,
                1 <= k <= 4,
                m.level_shift(k as int) == m.page_shift + m.index_bits * (k - 1),
        ;
        lemma_leaf_offset_bits(e, va, m.level_shift(k as int) as u64, m.pa_bits);
    } else {
        lemma_walk_keeps_offset(m, mem, m.next_table(e), va, (k - 1) as nat);
    }
}

proof fn lemma_same_page_bits(e: u64, va: u64, j: u64, s: u64, pa_bits: u64)
    requires
        12 <= s < 64,
        pa_bits < 64,
        va % 4096 + j < 4096,
    ensures
        (va + j) as u64 >> s == va >> s,
        (e & frame_mask(s, pa_bits)) | ((va + j) as u64 & low_mask(s)) == ((e & frame_mask(
            s,
            pa_bits,
        )) | (va & low_mask(s))) + j,
{
    assert(va + j <= u64::MAX && ((va + j) as u64 >> s == va >> s)) by (bit_vector)
        requires
            12 <= s < 64,
            va % 4096 + j < 4096,
    ;
    assert((e & (((1u64 << pa_bits) - 1) as u64 & !(((1u64 << s) - 1) as u64))) | ((va + j) as u64
        & ((1u64 << s) - 1) as u64) == ((e & (((1u64 << pa_bits) - 1) as u64 & !(((1u64 << s)
        - 1) as u64))) | (va & ((1u64 << s) - 1) as u64)) + j) by (bit_vector)
        requires
            12 <= s < 64,
            pa_bits < 64,
            va % 4096 + j < 4096,
    ;
}

/// Addresses in one base page walk the same entries: the translation of
/// `va + j` is that of `va`, moved by `j`.
pub proof fn lemma_walk_same_page(m: ArchMMUSpec, mem: Seq<u8>, table: u64, va: u64, j: u64, k: nat)
    requires
        m.wf(),
        k <= m.levels,
        va % 4096 + j < 4096,
    ensures
        m.walk_from(mem, table, (va + j) as u64, k) == match m.walk_from(mem, table, va, k) {
            Ok(pa) => Ok::<PhysicalAddress, Error>(PhysicalAddress { address: (pa.address + j) as u64, ..pa }),
            Err(e) => Err::<PhysicalAddress, Error>(e),
        },
        m.walk_from(mem, table, va, k) is Ok ==> m.walk_from(mem, table, va, k)->Ok_0.address + j
            <= u64::MAX,
    decreases k,
{
    if k > 0 {
        assert(m.level_shift(k as int) <= 42 && m.level_shift(k as int) >= 12) by (nonlinear_arith)
            requires
                m.page_shift == 12,
                1 <= m.index_bits <= 10,
                1 <= k <= 4,
                m.level_shift(k as int) == m.page_shift + m.index_bits * (k - 1),
        ;
        let sh = m.level_shift(k as int) as u64;
        let ea = m.pte_addr(table, va, k as int);
        let e = le_value(read_bytes(mem, ea as u64, m.pte_size as nat)) as u64;
        lemma_same_page_bits(e, va, j, sh, m.pa_bits);
        assert(m.pte_addr(table, (va + j) as u64, k as int) == ea);
        if m.ends_walk(e, k as int) {
            assert(m.leaf(e, (va + j) as u64, k as int).address == (m.leaf(e, va, k as int).address + j) as u64);
        } else {
            lemma_walk_same_page(m, mem, m.next_table(e), va, j, (k - 1) as nat);
        }
    }
}

/// `va` and `va + j` in one base page are both in or both out of range.
pub proof fn lemma_range_same_page(m: ArchMMUSpec, va: u64, j: u64)
    requires
        m.wf(),
        va % 4096 + j < 4096,
    ensures
        m.va_in_range((va + j) as u64) == m.va_in_range(va),
{
    if m.va_bits < 64 {
        let b = m.va_bits;
        assert(va + j <= u64::MAX && ((va + j) as u64 >> b == 0 <==> va >> b == 0)) by (bit_vector)
            requires
                12 <= b < 64,
                va % 4096 + j < 4096,
        ;
    }
}

/// The translation of an address, over a whole address space.
pub proof fn lemma_walk_same_page_top(m: ArchMMUSpec, mem: Seq<u8>, dtb: u64, va: u64, j: u64)
    requires
        m.wf(),
        va % 4096 + j < 4096,
    ensures
        m.walk(mem, dtb, (va + j) as u64) == match m.walk(mem, dtb, va) {
            Ok(pa) => Ok::<PhysicalAddress, Error>(PhysicalAddress { address: (pa.address + j) as u64, ..pa }),
            Err(e) => Err::<PhysicalAddress, Error>(e),
        },
        m.walk(mem, dtb, va) is Ok ==> m.walk(mem, dtb, va)->Ok_0.address + j <= u64::MAX,
{
    lemma_range_same_page(m, va, j);
    lemma_walk_same_page(m, mem, dtb, va, j, m.levels as nat);
}

} // verus!
