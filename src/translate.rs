use vstd::prelude::*;
use crate::arch::X86ScopedVirtualTranslate;
use crate::mem::{read_bytes, read_ok, PhysicalMemory};
use crate::mmu::lemma_walk_same_page_top;
use crate::types::{Address, Error, PhysicalAddress};

verus! {

/// The part of a caller's buffer that one page-confined piece fills: the
/// request it belongs to, where in that request it starts, and its length.
#[derive(Clone, Copy, Debug, PartialEq, Eq, Structural)]
pub struct Chunk {
    pub req: usize,
    pub offset: usize,
    pub len: usize,
}

/// A translated piece: where it lies physically, and which part of which request it is.
pub type Translated = (PhysicalAddress, Chunk);

/// A piece that could not be translated: why, its virtual address, and which part
/// of which request it is.
pub type Failed = (Error, Address, Chunk);

/// Whether `len` bytes from `va` run past the end of the 64-bit address space.
pub open spec fn wraps(va: u64, len: nat) -> bool {
    va + len > u64::MAX + 1
}

/// Splits `len` bytes from `va`, the part of request `req` that starts at `offset`,
/// into pieces that each stay inside one page of size `ps`.
pub open spec fn split_from(va: int, len: nat, req: usize, offset: nat, ps: u64) -> Seq<
    (u64, Chunk),
>
    decreases len,
{
    if ps == 0 {
        seq![]
    } else {
        let room = ps - va % (ps as int);
        if len <= room {
            seq![(va as u64, Chunk { req, offset: offset as usize, len: len as usize })]
        } else {
            seq![(va as u64, Chunk { req, offset: offset as usize, len: room as usize })]
                + split_from(va + room, (len - room) as nat, req, offset + room as nat, ps)
        }
    }
}

/// The pieces of request number `req`, which asks for `len` bytes from `va`. A
/// request that runs past the end of the address space stays whole.
pub open spec fn request_pieces(va: u64, len: usize, req: usize, ps: u64) -> Seq<(u64, Chunk)> {
    if wraps(va, len as nat) {
        seq![(va, Chunk { req, offset: 0, len })]
    } else {
        split_from(va as int, len as nat, req, 0, ps)
    }
}

/// The pieces of a batch of requests, request by request.
pub open spec fn batch_pieces(reqs: Seq<(u64, usize)>, ps: u64) -> Seq<(u64, Chunk)>
    decreases reqs.len(),
{
    if reqs.len() == 0 {
        seq![]
    } else {
        let i = reqs.len() - 1;
        batch_pieces(reqs.drop_last(), ps) + request_pieces(reqs[i].0, reqs[i].1, i as usize, ps)
    }
}

impl X86ScopedVirtualTranslate {
    /// The size of the pages requests are split at.
    pub open spec fn spec_split_size(self) -> u64 {
        self.arch.mmu.spec_page_size()
    }

    /// The outcome of one piece: `OutOfBounds` where it runs past the end of
    /// the address space, else the walk of its address.
    pub open spec fn piece_result(self, mem: Seq<u8>, p: (u64, Chunk)) -> Result<
        PhysicalAddress,
        Error,
    > {
        if wraps(p.0, p.1.len as nat) {
            Err(Error::OutOfBounds)
        } else {
            self.arch.mmu.walk(mem, self.dtb.0, p.0)
        }
    }

    /// The translated pieces among `ps`, in order.
    pub open spec fn successes(self, mem: Seq<u8>, ps: Seq<(u64, Chunk)>) -> Seq<Translated>
        decreases ps.len(),
    {
        if ps.len() == 0 {
            seq![]
        } else {
            let prev = self.successes(mem, ps.drop_last());
            match self.piece_result(mem, ps.last()) {
                Ok(pa) => prev.push((pa, ps.last().1)),
                Err(_) => prev,
            }
        }
    }

    /// The failed pieces among `ps`, in order.
    pub open spec fn failures(self, mem: Seq<u8>, ps: Seq<(u64, Chunk)>) -> Seq<Failed>
        decreases ps.len(),
    {
        if ps.len() == 0 {
            seq![]
        } else {
            let prev = self.failures(mem, ps.drop_last());
            match self.piece_result(mem, ps.last()) {
                Ok(_) => prev,
                Err(e) => prev.push((e, ps.last().0, ps.last().1)),
            }
        }
    }

    /// The bytes behind a run of translated pieces, one after the other, or the
    /// error of the first piece whose physical range cannot be read.
    pub open spec fn read_translated(self, mem: Seq<u8>, s: Seq<Translated>) -> Result<
        Seq<u8>,
        Error,
    >
        decreases s.len(),
    {
        if s.len() == 0 {
            Ok(seq![])
        } else {
            match self.read_translated(mem, s.drop_last()) {
                Err(e) => Err(e),
                Ok(prefix) => {
                    let pa = s.last().0;
                    let n = s.last().1.len as nat;
                    if read_ok(mem, pa.address, n) {
                        Ok(prefix + read_bytes(mem, pa.address, n))
                    } else {
                        Err(Error::IoFailure)
                    }
                },
            }
        }
    }

    /// What reading `len` bytes from `va` gives: the error of the first piece that
    /// cannot be translated, else the bytes behind its pieces, in order.
    pub open spec fn spec_virt_read(self, mem: Seq<u8>, va: Address, len: usize) -> Result<
        Seq<u8>,
        Error,
    > {
        let ps = batch_pieces(seq![(va, len)], self.spec_split_size());
        let fails = self.failures(mem, ps);
        if fails.len() > 0 {
            Err(fails[0].0)
        } else {
            self.read_translated(mem, self.successes(mem, ps))
        }
    }

    /// Reads `len` bytes of this address space from `va`: the request is split
    /// at page boundaries, each piece translated and read, and the parts joined.
    pub fn virt_read<M: PhysicalMemory>(&self, mem: &mut M, va: Address, len: usize) -> (r: Result<
        Vec<u8>,
        Error,
    >)
        requires
            self.arch.mmu.wf(),
            old(mem).inv(),
        ensures
            final(mem).inv(),
            final(mem).contents() == old(mem).contents(),
            match r {
                Ok(v) => self.spec_virt_read(old(mem).contents(), va, len) == Ok::<Seq<u8>, Error>(
                    v@,
                ),
                Err(e) => self.spec_virt_read(old(mem).contents(), va, len) == Err::<
                    Seq<u8>,
                    Error,
                >(e),
            },
            r matches Ok(v) ==> v@.len() == len && forall|i: int|
                0 <= i < len ==> #[trigger] self.virt_byte(old(mem).contents(), (va + i) as u64)
                    == Some(v@[i]),
    {
        let ghost contents = mem.contents();
        let reqs: Vec<(Address, usize)> = vec![(va, len)];
        let mut out: Vec<Translated> = Vec::new();
        let mut fails: Vec<Failed> = Vec::new();
        self.virt_to_phys_iter(mem, &reqs, &mut out, &mut fails);
        assert(reqs@ =~= seq![(va, len)]);
        assert(out@ =~= self.successes(contents, batch_pieces(seq![(va, len)], self.spec_split_size())));
        assert(fails@ =~= self.failures(contents, batch_pieces(seq![(va, len)], self.spec_split_size())));
        if fails.len() > 0 {
            return Err(fails[0].0);
        }
        let mut buf: Vec<u8> = Vec::new();
        let mut i: usize = 0;
        while i < out.len()
            invariant
                i <= out@.len(),
                mem.inv(),
                mem.contents() == contents,
                contents == old(mem).contents(),
                fails@.len() == 0,
                out@ =~= self.successes(contents, batch_pieces(seq![(va, len)], self.spec_split_size())),
                fails@ =~= self.failures(contents, batch_pieces(seq![(va, len)], self.spec_split_size())),
                self.read_translated(contents, out@.take(i as int)) == Ok::<Seq<u8>, Error>(buf@),
            decreases out@.len() - i,
        {
            let (pa, chunk) = out[i];
            assert(out@.take(i + 1).drop_last() =~= out@.take(i as int));
            match mem.phys_read(pa.address, pa.page_type, chunk.len) {
                Ok(bytes) => {
                    let mut bytes = bytes;
                    buf.append(&mut bytes);
                },
                Err(e) => {
                    proof {
                        lemma_read_error_stays(*self, contents, out@, i as int + 1);
                    }
                    return Err(e);
                },
            }
            i = i + 1;
        }
        assert(out@.take(out@.len() as int) =~= out@);
        proof {
            lemma_virt_read_bytes(*self, contents, va, len);
        }
        Ok(buf)
    }

    fn translate_piece<M: PhysicalMemory>(
        &self,
        mem: &mut M,
        va: Address,
        chunk: Chunk,
        out: &mut Vec<Translated>,
        out_fail: &mut Vec<Failed>,
    )
        requires
            self.arch.mmu.wf(),
            old(mem).inv(),
            !wraps(va, chunk.len as nat),
        ensures
            final(mem).inv(),
            final(mem).contents() == old(mem).contents(),
            match self.piece_result(old(mem).contents(), (va, chunk)) {
                Ok(pa) => final(out)@ == old(out)@.push((pa, chunk)) && final(out_fail)@ == old(
                    out_fail,
                )@,
                Err(e) => final(out)@ == old(out)@ && final(out_fail)@ == old(out_fail)@.push(
                    (e, va, chunk),
                ),
            },
    {
        match self.arch.mmu.virt_to_phys(mem, self.dtb.0, va) {
            Ok(pa) => out.push((pa, chunk)),
            Err(e) => out_fail.push((e, va, chunk)),
        }
    }

    /// Translates a batch of `(virtual address, length)` requests. Each request is
    /// split at page boundaries; each piece is walked on its own and appended
    /// either to `out`, with its physical address, or to `out_fail`, with the
    /// reason. A failing piece never stops the others.
    pub fn virt_to_phys_iter<M: PhysicalMemory>(
        &self,
        mem: &mut M,
        addrs: &Vec<(Address, usize)>,
        out: &mut Vec<Translated>,
        out_fail: &mut Vec<Failed>,
    )
        requires
            self.arch.mmu.wf(),
            old(mem).inv(),
        ensures
            final(mem).inv(),
            final(mem).contents() == old(mem).contents(),
            final(out)@ == old(out)@ + self.successes(
                old(mem).contents(),
                batch_pieces(addrs@, self.spec_split_size()),
            ),
            final(out_fail)@ == old(out_fail)@ + self.failures(
                old(mem).contents(),
                batch_pieces(addrs@, self.spec_split_size()),
            ),
    {
        let ghost contents = mem.contents();
        let ghost out0 = out@;
        let ghost fail0 = out_fail@;
        let ps = self.arch.mmu.page_size();
        assert(ps == 4096) by (bit_vector)
            requires
                ps == 1u64 << 12u64,
        ;
        let mut i: usize = 0;
        while i < addrs.len()
            invariant
                self.arch.mmu.wf(),
                ps == self.spec_split_size(),
                ps == 4096,
                i <= addrs@.len(),
                mem.inv(),
                mem.contents() == contents,
                contents == old(mem).contents(),
                out0 == old(out)@,
                fail0 == old(out_fail)@,
                out@ == out0 + self.successes(contents, batch_pieces(addrs@.take(i as int), ps)),
                out_fail@ == fail0 + self.failures(
                    contents,
                    batch_pieces(addrs@.take(i as int), ps),
                ),
            decreases addrs@.len() - i,
        {
            let (va, len) = addrs[i];
            let ghost base = batch_pieces(addrs@.take(i as int), ps);
            assert(addrs@.take(i + 1).drop_last() =~= addrs@.take(i as int));
            assert(batch_pieces(addrs@.take(i + 1), ps) == base + request_pieces(va, len, i, ps));
            if len as u128 > u64::MAX as u128 + 1 - va as u128 {
                let chunk = Chunk { req: i, offset: 0, len };
                out_fail.push((Error::OutOfBounds, va, chunk));
                proof {
                    let p = (va, chunk);
                    assert((base + seq![p]).drop_last() =~= base);
                    assert(request_pieces(va, len, i, ps) == seq![p]);
                }
            } else {
                let mut cur_va: u64 = va;
                let mut cur_len: usize = len;
                let mut off: usize = 0;
                let ghost done: Seq<(u64, Chunk)> = seq![];
                loop
                    invariant_except_break
                        request_pieces(va, len, i, ps) == done + split_from(
                            cur_va as int,
                            cur_len as nat,
                            i,
                            off as nat,
                            ps,
                        ),
                    invariant
                        self.arch.mmu.wf(),
                        ps == 4096,
                        ps == self.spec_split_size(),
                        mem.inv(),
                        mem.contents() == contents,
                        off + cur_len == len,
                        cur_va + cur_len <= u64::MAX + 1,
                        out@ == out0 + self.successes(contents, base + done),
                        out_fail@ == fail0 + self.failures(contents, base + done),
                    ensures
                        done == request_pieces(va, len, i, ps),
                    decreases cur_len,
                {
                    let room: u64 = ps - cur_va % ps;
                    let last = cur_len as u64 <= room;
                    let piece_len: usize = if last {
                        cur_len
                    } else {
                        room as usize
                    };
                    let chunk = Chunk { req: i, offset: off, len: piece_len };
                    let ghost p = (cur_va, chunk);
                    let ghost before = base + done;
                    self.translate_piece(mem, cur_va, chunk, out, out_fail);
                    proof {
                        assert((before.push(p)).drop_last() =~= before);
                        assert(before.push(p) =~= base + done.push(p));
                        done = done.push(p);
                    }
                    if last {
                        assert(done =~= request_pieces(va, len, i, ps));
                        break;
                    }
                    proof {
                        assert(split_from(cur_va as int, cur_len as nat, i, off as nat, ps) == seq![
                            p,
                        ] + split_from(
                            cur_va + room,
                            (cur_len - room) as nat,
                            i,
                            (off + room) as nat,
                            ps,
                        ));
                        assert(done.drop_last() + seq![p] =~= done);
                        assert(done.drop_last() + (seq![p] + split_from(
                            cur_va + room,
                            (cur_len - room) as nat,
                            i,
                            (off + room) as nat,
                            ps,
                        )) =~= done + split_from(
                            cur_va + room,
                            (cur_len - room) as nat,
                            i,
                            (off + room) as nat,
                            ps,
                        ));
                    }
                    cur_va = cur_va + room;
                    cur_len = cur_len - room as usize;
                    off = off + room as usize;
                }
                assert(base + done =~= batch_pieces(addrs@.take(i + 1), ps));
            }
            i = i + 1;
        }
        assert(addrs@.take(addrs@.len() as int) =~= addrs@);
    }
}

/// Every piece of a batch comes out exactly once: as many outcomes as pieces,
/// and the buffer parts of the translated and the failed pieces together are
/// those of the batch.
pub proof fn lemma_coverage(t: X86ScopedVirtualTranslate, mem: Seq<u8>, ps: Seq<(u64, Chunk)>)
    ensures
        t.successes(mem, ps).len() + t.failures(mem, ps).len() == ps.len(),
        t.successes(mem, ps).map_values(|s: Translated| s.1).to_multiset().add(
            t.failures(mem, ps).map_values(|f: Failed| f.2).to_multiset(),
        ) == ps.map_values(|p: (u64, Chunk)| p.1).to_multiset(),
    decreases ps.len(),
{
    broadcast use vstd::seq_lib::group_to_multiset_ensures;

    if ps.len() == 0 {
        assert(ps.map_values(|p: (u64, Chunk)| p.1) =~= seq![]);
        assert(t.successes(mem, ps).map_values(|s: Translated| s.1) =~= seq![]);
        assert(t.failures(mem, ps).map_values(|f: Failed| f.2) =~= seq![]);
        assert(t.successes(mem, ps).map_values(|s: Translated| s.1).to_multiset().add(
            t.failures(mem, ps).map_values(|f: Failed| f.2).to_multiset(),
        ) =~= ps.map_values(|p: (u64, Chunk)| p.1).to_multiset());
    } else {
        let prev = ps.drop_last();
        lemma_coverage(t, mem, prev);
        let c = ps.last().1;
        assert(ps.map_values(|p: (u64, Chunk)| p.1) =~= prev.map_values(|p: (u64, Chunk)| p.1).push(
            c,
        ));
        let so = t.successes(mem, prev);
        let fo = t.failures(mem, prev);
        match t.piece_result(mem, ps.last()) {
            Ok(pa) => {
                assert(so.push((pa, c)).map_values(|s: Translated| s.1) =~= so.map_values(
                    |s: Translated| s.1,
                ).push(c));
            },
            Err(e) => {
                assert(fo.push((e, ps.last().0, c)).map_values(|f: Failed| f.2) =~= fo.map_values(
                    |f: Failed| f.2,
                ).push(c));
            },
        }
        assert(t.successes(mem, ps).map_values(|s: Translated| s.1).to_multiset().add(
            t.failures(mem, ps).map_values(|f: Failed| f.2).to_multiset(),
        ) =~= ps.map_values(|p: (u64, Chunk)| p.1).to_multiset());
    }
}

/// `s` tiles `len` bytes from `va`, the part of request `req` from `offset` on:
/// its pieces follow each other without gap or overlap, each starts at the
/// address of its first byte, and none crosses a boundary of pages of size `ps`.
pub open spec fn tiles(s: Seq<(u64, Chunk)>, va: int, len: nat, req: usize, offset: nat, ps: u64) -> bool {
    &&& s.len() >= 1
    &&& s[0].1.offset == offset
    &&& s.last().1.offset + s.last().1.len == offset + len
    &&& forall|i: int| 0 <= i < s.len() - 1 ==> #[trigger] s[i + 1].1.offset == s[i].1.offset + s[i].1.len
    &&& forall|i: int|
        0 <= i < s.len() ==> {
            &&& (#[trigger] s[i]).1.req == req
            &&& s[i].0 == va + (s[i].1.offset - offset)
            &&& (s[i].0 as int) % (ps as int) + s[i].1.len <= ps
        }
}

proof fn lemma_split_tiles(va: int, len: nat, req: usize, offset: nat, ps: u64)
    requires
        ps > 0,
        0 <= va,
        va + len <= u64::MAX + 1,
        va <= u64::MAX,
        offset + len <= usize::MAX,
    ensures
        tiles(split_from(va, len, req, offset, ps), va, len, req, offset, ps),
    decreases len,
{
    let room = ps - va % (ps as int);
    if len > room {
        let rest = split_from(va + room, (len - room) as nat, req, (offset + room) as nat, ps);
        lemma_split_tiles(va + room, (len - room) as nat, req, (offset + room) as nat, ps);
        let p = (va as u64, Chunk { req, offset: offset as usize, len: room as usize });
        let s = seq![p] + rest;
        assert(split_from(va, len, req, offset, ps) == s);
        assert((va + room) % (ps as int) == 0) by {
            vstd::arithmetic::div_mod::lemma_fundamental_div_mod(va, ps as int);
            vstd::arithmetic::div_mod::lemma_mod_multiples_basic(va / (ps as int) + 1, ps as int);
            assert(va + room == (va / (ps as int) + 1) * ps) by (nonlinear_arith)
                requires
                    va == (ps as int) * (va / (ps as int)) + va % (ps as int),
                    room == ps - va % (ps as int),
            ;
        }
        assert forall|i: int| 0 <= i < s.len() - 1 implies #[trigger] s[i + 1].1.offset == s[i].1.offset
            + s[i].1.len by {
            if i > 0 {
                let j = i - 1;
                assert(rest[j + 1].1.offset == rest[j].1.offset + rest[j].1.len);
                assert(s[i + 1] == rest[j + 1]);
            }
        }
        assert forall|i: int| 0 <= i < s.len() implies {
            &&& (#[trigger] s[i]).1.req == req
            &&& s[i].0 == va + (s[i].1.offset - offset)
            &&& (s[i].0 as int) % (ps as int) + s[i].1.len <= ps
        } by {
            if i > 0 {
                assert(s[i] == rest[i - 1]);
            }
        }
    }
}

/// The pieces of every request tile it: one piece or more, in order, each within
/// one page, together exactly the request's bytes. A request that runs past the
/// end of the address space is one piece, the whole request.
pub proof fn lemma_request_tiles(va: u64, len: usize, req: usize, ps: u64)
    requires
        ps > 0,
    ensures
        !wraps(va, len as nat) ==> tiles(request_pieces(va, len, req, ps), va as int, len as nat, req, 0, ps),
        wraps(va, len as nat) ==> request_pieces(va, len, req, ps) == seq![(va, Chunk { req, offset: 0, len })],
{
    if !wraps(va, len as nat) {
        lemma_split_tiles(va as int, len as nat, req, 0, ps);
    }
}

/// A batch in which no request crosses a page boundary has one piece per
/// request, so one outcome per request.
pub proof fn lemma_one_piece_per_request(
    t: X86ScopedVirtualTranslate,
    mem: Seq<u8>,
    reqs: Seq<(u64, usize)>,
    ps: u64,
)
    requires
        ps > 0,
        forall|i: int| 0 <= i < reqs.len() ==> #[trigger] reqs[i].0 % ps + reqs[i].1 <= ps,
    ensures
        batch_pieces(reqs, ps).len() == reqs.len(),
        t.successes(mem, batch_pieces(reqs, ps)).len() + t.failures(
            mem,
            batch_pieces(reqs, ps),
        ).len() == reqs.len(),
    decreases reqs.len(),
{
    if reqs.len() > 0 {
        let i = reqs.len() - 1;
        assert(reqs[i].0 % ps + reqs[i].1 <= ps);
        lemma_one_piece_per_request(t, mem, reqs.drop_last(), ps);
        assert(request_pieces(reqs[i].0, reqs[i].1, i as usize, ps).len() == 1);
    }
    lemma_coverage(t, mem, batch_pieces(reqs, ps));
}

/// Translating a batch gives what translating its two parts gives, one after
/// the other: no piece's outcome depends on another piece.
pub proof fn lemma_isolation(
    t: X86ScopedVirtualTranslate,
    mem: Seq<u8>,
    a: Seq<(u64, Chunk)>,
    b: Seq<(u64, Chunk)>,
)
    ensures
        t.successes(mem, a + b) == t.successes(mem, a) + t.successes(mem, b),
        t.failures(mem, a + b) == t.failures(mem, a) + t.failures(mem, b),
    decreases b.len(),
{
    if b.len() == 0 {
        assert(a + b =~= a);
        assert(t.successes(mem, a) + t.successes(mem, b) =~= t.successes(mem, a));
        assert(t.failures(mem, a) + t.failures(mem, b) =~= t.failures(mem, a));
    } else {
        lemma_isolation(t, mem, a, b.drop_last());
        assert((a + b).drop_last() =~= a + b.drop_last());
        assert((a + b).last() == b.last());
        assert(t.successes(mem, a + b) =~= t.successes(mem, a) + t.successes(mem, b));
        assert(t.failures(mem, a + b) =~= t.failures(mem, a) + t.failures(mem, b));
    }
}

/// A request of `len` bytes that starts `k` bytes before a page boundary, with
/// `k < len`, and ends within the next page, becomes exactly two pieces: the
/// first `k` bytes, and the rest from the start of the next page.
pub proof fn lemma_boundary_split(va: u64, len: usize, req: usize, k: u64)
    requires
        0 < k < len,
        len - k <= 4096,
        va % 4096 == 4096 - k,
        !wraps(va, len as nat),
    ensures
        request_pieces(va, len, req, 4096) == seq![
            (va, Chunk { req, offset: 0, len: k as usize }),
            ((va + k) as u64, Chunk { req, offset: k as usize, len: (len - k) as usize }),
        ],
        (va + k) % 4096 == 0,
{
    let rest = split_from(va + k, (len - k) as nat, req, k as nat, 4096);
    assert((va + k) % 4096 == 0);
    assert(rest == seq![
        ((va + k) as u64, Chunk { req, offset: k as usize, len: (len - k) as usize }),
    ]);
    assert(request_pieces(va, len, req, 4096) =~= seq![
        (va, Chunk { req, offset: 0, len: k as usize }),
        ((va + k) as u64, Chunk { req, offset: k as usize, len: (len - k) as usize }),
    ]);
}

/// Once a piece of a run cannot be read, the run as a whole fails with that error.
proof fn lemma_read_error_stays(t: X86ScopedVirtualTranslate, mem: Seq<u8>, s: Seq<Translated>, n: int)
    requires
        0 < n <= s.len(),
        t.read_translated(mem, s.take(n)) is Err,
    ensures
        t.read_translated(mem, s) == t.read_translated(mem, s.take(n)),
    decreases s.len() - n,
{
    if n < s.len() {
        assert(s.take(n + 1).drop_last() =~= s.take(n));
        lemma_read_error_stays(t, mem, s, n + 1);
    } else {
        assert(s.take(n) =~= s);
    }
}

/// Translating the same batch over two memories with the same contents gives
/// the same outcomes: what a cache holds, or earlier translations, change nothing.
pub proof fn lemma_idempotent<M1: PhysicalMemory, M2: PhysicalMemory>(
    t: X86ScopedVirtualTranslate,
    m1: M1,
    m2: M2,
    reqs: Seq<(u64, usize)>,
)
    requires
        m1.contents() == m2.contents(),
    ensures
        t.successes(m1.contents(), batch_pieces(reqs, t.spec_split_size())) == t.successes(
            m2.contents(),
            batch_pieces(reqs, t.spec_split_size()),
        ),
        t.failures(m1.contents(), batch_pieces(reqs, t.spec_split_size())) == t.failures(
            m2.contents(),
            batch_pieces(reqs, t.spec_split_size()),
        ),
{
}

/// A read that crosses one page boundary is the bytes behind the first page's
/// part followed by the bytes behind the second page's part.
pub proof fn lemma_boundary_read(t: X86ScopedVirtualTranslate, mem: Seq<u8>, va: u64, len: usize, k: u64)
    requires
        t.arch.mmu.wf(),
        0 < k < len,
        len - k <= 4096,
        va % 4096 == 4096 - k,
        !wraps(va, len as nat),
        t.arch.mmu.walk(mem, t.dtb.0, va) is Ok,
        t.arch.mmu.walk(mem, t.dtb.0, (va + k) as u64) is Ok,
        read_ok(mem, t.arch.mmu.walk(mem, t.dtb.0, va)->Ok_0.address, k as nat),
        read_ok(mem, t.arch.mmu.walk(mem, t.dtb.0, (va + k) as u64)->Ok_0.address, (len - k) as nat),
    ensures
        t.spec_virt_read(mem, va, len) == Ok::<Seq<u8>, Error>(
            read_bytes(mem, t.arch.mmu.walk(mem, t.dtb.0, va)->Ok_0.address, k as nat) + read_bytes(
                mem,
                t.arch.mmu.walk(mem, t.dtb.0, (va + k) as u64)->Ok_0.address,
                (len - k) as nat,
            ),
        ),
        forall|i: int|
            0 <= i < len ==> #[trigger] t.arch.mmu.walk(mem, t.dtb.0, (va + i) as u64) is Ok
                && t.spec_virt_read(mem, va, len)->Ok_0[i] == mem[t.arch.mmu.walk(
                mem,
                t.dtb.0,
                (va + i) as u64,
            )->Ok_0.address as int],
{
    let shift = t.arch.mmu.page_shift;
    assert(1u64 << shift == 4096) by (bit_vector)
        requires
            shift == 12,
    ;
    let m = t.arch.mmu;
    let reqs = seq![(va, len)];
    assert(reqs.drop_last() =~= Seq::<(u64, usize)>::empty());
    assert(batch_pieces(reqs.drop_last(), 4096) == Seq::<(u64, Chunk)>::empty());
    lemma_boundary_split(va, len, 0, k);
    let rp = request_pieces(va, len, 0, 4096);
    let ps = batch_pieces(reqs, 4096);
    assert(ps == Seq::<(u64, Chunk)>::empty() + rp);
    assert(ps =~= rp);
    let p1 = ps[0];
    let p2 = ps[1];
    let one = seq![p1];
    assert(ps.drop_last() =~= one);
    assert(one.drop_last() =~= Seq::<(u64, Chunk)>::empty());
    let pa1 = m.walk(mem, t.dtb.0, va)->Ok_0;
    let pa2 = m.walk(mem, t.dtb.0, (va + k) as u64)->Ok_0;
    assert(t.piece_result(mem, p1) == Ok::<PhysicalAddress, Error>(pa1));
    assert(t.piece_result(mem, p2) == Ok::<PhysicalAddress, Error>(pa2));
    assert(one.last() == p1);
    assert(t.failures(mem, one.drop_last()) == Seq::<Failed>::empty());
    assert(t.successes(mem, one.drop_last()) == Seq::<Translated>::empty());
    assert(t.failures(mem, one) == Seq::<Failed>::empty());
    assert(t.failures(mem, ps) == Seq::<Failed>::empty());
    let s1 = t.successes(mem, one);
    assert(s1 == Seq::<Translated>::empty().push((pa1, p1.1)));
    let s = t.successes(mem, ps);
    assert(s == s1.push((pa2, p2.1)));
    assert(s.drop_last() =~= s1);
    assert(s1.drop_last() =~= Seq::<Translated>::empty());
    let b1 = read_bytes(mem, pa1.address, k as nat);
    assert(p1.1.len == k as usize);
    assert(s1.last() == (pa1, p1.1));
    assert(t.read_translated(mem, s1.drop_last()) == Ok::<Seq<u8>, Error>(Seq::<u8>::empty()));
    assert(t.read_translated(mem, s1) == Ok::<Seq<u8>, Error>(Seq::<u8>::empty() + b1));
    assert(Seq::<u8>::empty() + b1 =~= b1);
    let b2 = read_bytes(mem, pa2.address, (len - k) as nat);
    let v = b1 + b2;
    assert(t.spec_virt_read(mem, va, len) == Ok::<Seq<u8>, Error>(v));
    assert forall|i: int|
        0 <= i < len implies #[trigger] m.walk(mem, t.dtb.0, (va + i) as u64) is Ok && v[i]
            == mem[m.walk(mem, t.dtb.0, (va + i) as u64)->Ok_0.address as int] by {
        if i < k {
            lemma_walk_same_page_top(m, mem, t.dtb.0, va, i as u64);
        } else {
            let j = (i - k) as u64;
            let vb = (va + k) as u64;
            lemma_walk_same_page_top(m, mem, t.dtb.0, vb, j);
            assert((vb + j) as u64 == (va + i) as u64);
        }
    }
}

/// Pieces laid out from `va`: each starts at `va` plus its offset, stays in one
/// base page, and begins where the one before it ends, the first at offset zero.
pub open spec fn laid_out(s: Seq<(u64, Chunk)>, va: u64) -> bool {
    &&& s.len() > 0 ==> s[0].1.offset == 0
    &&& forall|i: int| 0 <= i < s.len() - 1 ==> #[trigger] s[i + 1].1.offset == s[i].1.offset + s[i].1.len
    &&& forall|i: int|
        0 <= i < s.len() ==> {
            &&& (#[trigger] s[i]).0 == va + s[i].1.offset
            &&& (s[i].0 as int) % 4096 + s[i].1.len <= 4096
        }
}

/// Where the last of the pieces ends.
pub open spec fn pieces_end(s: Seq<(u64, Chunk)>) -> nat {
    if s.len() == 0 {
        0
    } else {
        (s.last().1.offset + s.last().1.len) as nat
    }
}

impl X86ScopedVirtualTranslate {
    /// The byte that virtual address `va` shows: the byte at its translation,
    /// where it translates to an address inside `mem`.
    pub open spec fn virt_byte(self, mem: Seq<u8>, va: u64) -> Option<u8> {
        match self.arch.mmu.walk(mem, self.dtb.0, va) {
            Ok(pa) => if pa.address < mem.len() {
                Some(mem[pa.address as int])
            } else {
                None
            },
            Err(_) => None,
        }
    }
}

proof fn lemma_laid_out_bytes(t: X86ScopedVirtualTranslate, mem: Seq<u8>, s: Seq<(u64, Chunk)>, va: u64)
    requires
        t.arch.mmu.wf(),
        laid_out(s, va),
        t.failures(mem, s).len() == 0,
        t.read_translated(mem, t.successes(mem, s)) is Ok,
    ensures
        t.read_translated(mem, t.successes(mem, s))->Ok_0.len() == pieces_end(s),
        forall|i: int|
            0 <= i < pieces_end(s) ==> #[trigger] t.virt_byte(mem, (va + i) as u64) == Some(
                t.read_translated(mem, t.successes(mem, s))->Ok_0[i],
            ),
    decreases s.len(),
{
    if s.len() > 0 {
        let prev = s.drop_last();
        let p = s.last();
        assert(laid_out(prev, va)) by {
            assert forall|i: int| 0 <= i < prev.len() - 1 implies #[trigger] prev[i + 1].1.offset
                == prev[i].1.offset + prev[i].1.len by {
                assert(s[i + 1].1.offset == s[i].1.offset + s[i].1.len);
            }
            assert forall|i: int| 0 <= i < prev.len() implies {
                &&& (#[trigger] prev[i]).0 == va + prev[i].1.offset
                &&& (prev[i].0 as int) % 4096 + prev[i].1.len <= 4096
            } by {
                assert(prev[i] == s[i]);
            }
        }
        let pr = t.piece_result(mem, p);
        if pr is Err {
            assert(t.failures(mem, s).len() > 0);
        }
        let pa = pr->Ok_0;
        assert(t.failures(mem, prev).len() == 0);
        assert(t.successes(mem, s) == t.successes(mem, prev).push((pa, p.1)));
        assert(t.successes(mem, s).drop_last() =~= t.successes(mem, prev));
        lemma_laid_out_bytes(t, mem, prev, va);
        let prefix = t.read_translated(mem, t.successes(mem, prev))->Ok_0;
        let v = t.read_translated(mem, t.successes(mem, s))->Ok_0;
        let b = read_bytes(mem, pa.address, p.1.len as nat);
        assert(v == prefix + b);
        if s.len() > 1 {
            let k = s.len() - 2;
            assert(s[k + 1].1.offset == s[k].1.offset + s[k].1.len);
        }
        assert(prefix.len() == p.1.offset);
        assert(p.0 == va + p.1.offset);
        assert(!wraps(p.0, p.1.len as nat));
        assert forall|i: int| 0 <= i < pieces_end(s) implies #[trigger] t.virt_byte(
            mem,
            (va + i) as u64,
        ) == Some(v[i]) by {
            if i >= prefix.len() {
                let j = (i - p.1.offset) as u64;
                lemma_walk_same_page_top(t.arch.mmu, mem, t.dtb.0, p.0, j);
                assert((p.0 + j) as u64 == (va + i) as u64);
            }
        }
    }
}

/// Every byte that a read of `len` bytes from `va` returns is the byte that its
/// own virtual address translates to: splitting at page boundaries and joining
/// the parts reads the same as reading byte by byte.
pub proof fn lemma_virt_read_bytes(t: X86ScopedVirtualTranslate, mem: Seq<u8>, va: u64, len: usize)
    requires
        t.arch.mmu.wf(),
        t.spec_virt_read(mem, va, len) is Ok,
    ensures
        t.spec_virt_read(mem, va, len)->Ok_0.len() == len,
        forall|i: int|
            0 <= i < len ==> #[trigger] t.virt_byte(mem, (va + i) as u64) == Some(
                t.spec_virt_read(mem, va, len)->Ok_0[i],
            ),
{
    let shift = t.arch.mmu.page_shift;
    assert(1u64 << shift == 4096) by (bit_vector)
        requires
            shift == 12,
    ;
    let reqs = seq![(va, len)];
    assert(reqs.drop_last() =~= Seq::<(u64, usize)>::empty());
    assert(batch_pieces(reqs.drop_last(), 4096) == Seq::<(u64, Chunk)>::empty());
    let rp = request_pieces(va, len, 0, 4096);
    let ps = batch_pieces(reqs, 4096);
    assert(ps == Seq::<(u64, Chunk)>::empty() + rp);
    assert(ps =~= rp);
    lemma_request_tiles(va, len, 0, 4096);
    if wraps(va, len as nat) {
        let p = (va, Chunk { req: 0, offset: 0, len });
        assert(ps.drop_last() =~= Seq::<(u64, Chunk)>::empty());
        assert(ps.last() == p);
        assert(t.failures(mem, ps.drop_last()) == Seq::<Failed>::empty());
        assert(t.failures(mem, ps).len() == 1);
    } else {
        assert(laid_out(ps, va));
        lemma_laid_out_bytes(t, mem, ps, va);
    }
}

} // verus!
