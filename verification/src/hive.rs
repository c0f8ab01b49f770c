//! Registry hive files: cells in 4096-byte bins behind a base block.
//!
//! A cell starts with its size, negated, and never crosses a page. Offsets of
//! cells are relative to the first page ("bin space").

use crate::bytes::{
    get32, group_le_len, le32, le64, overlay, push_bytes, push_u32, push_u64, push_zeros,
    put_bytes, put_u32, read_u32, zeros,
};
use vstd::prelude::*;

verus! {

/// The pages of a hive under construction: their bytes, the first free
/// offset, and the key nodes written so far.
#[verifier::ext_equal]
pub struct Bins {
    pub bytes: Seq<u8>,
    pub next: int,
    pub nks: Seq<int>,
}

/// Bytes that a cell with `n` bytes of payload takes: size word and payload,
/// rounded up to a multiple of 8.
pub open spec fn cell_size(n: int) -> int {
    (n + 11) / 8 * 8
}

/// The largest payload that fits in a page.
pub open spec fn max_payload() -> int {
    4060
}

impl Bins {
    /// One empty page.
    pub open spec fn empty() -> Bins {
        Bins { bytes: zeros(4096), next: 0x20, nks: seq![] }
    }

    pub open spec fn wf(self) -> bool {
        &&& self.bytes.len() % 4096 == 0
        &&& self.bytes.len() - 4096 + 0x20 <= self.next <= self.bytes.len()
        &&& self.next % 8 == 0
        &&& self.next >= 0x20
    }

    /// The rest of the last page becomes a free cell, and a page is added.
    pub open spec fn new_page(self) -> Bins {
        let pad = self.bytes.len() - self.next;
        let filled = if pad > 0 {
            overlay(self.bytes, self.next, le32(pad))
        } else {
            self.bytes
        };
        Bins { bytes: filled + zeros(4096), next: self.bytes.len() as int + 0x20, ..self }
    }

    /// The pages with room for a cell of `need` bytes at `next`.
    pub open spec fn room(self, need: int) -> Bins {
        if self.next + need > self.bytes.len() {
            self.new_page()
        } else {
            self
        }
    }

    /// The pages after a cell with `payload` was allocated.
    #[verifier::opaque]
    pub open spec fn alloc_cell(self, payload: Seq<u8>) -> Bins {
        let need = cell_size(payload.len() as int);
        let b = self.room(need);
        Bins {
            bytes: overlay(
                overlay(b.bytes, b.next, le32(0x1_0000_0000 - need)),
                b.next + 4,
                payload,
            ),
            next: b.next + need,
            ..b
        }
    }

    /// The offset of the cell that `alloc_cell` makes.
    #[verifier::opaque]
    pub open spec fn cell_at(self, payload: Seq<u8>) -> int {
        self.room(cell_size(payload.len() as int)).next
    }

    /// The pages after the payload of `cell` got `v` at `off`.
    pub open spec fn patch(self, cell: int, off: int, v: int) -> Bins {
        Bins { bytes: overlay(self.bytes, cell + 4 + off, le32(v)), ..self }
    }

    /// The same with `idx` recorded as a key node.
    pub open spec fn with_nk(self, idx: int) -> Bins {
        Bins { nks: self.nks.push(idx), ..self }
    }
}

/// What `alloc_cell` keeps, and where its cell lies.
pub proof fn lemma_alloc(b: Bins, payload: Seq<u8>)
    requires
        b.wf(),
        payload.len() <= max_payload(),
    ensures
        b.alloc_cell(payload).wf(),
        b.alloc_cell(payload).nks == b.nks,
        b.cell_at(payload) % 8 == 0,
        b.next <= b.cell_at(payload) <= b.next + 4096,
        b.cell_at(payload) % 4096 >= 0x20,
        b.alloc_cell(payload).next == b.cell_at(payload) + cell_size(payload.len() as int),
        b.cell_at(payload) / 4096 == (b.alloc_cell(payload).next - 1) / 4096,
        b.cell_at(payload) + 4 + payload.len() <= b.alloc_cell(payload).next,
        b.bytes.len() <= b.alloc_cell(payload).bytes.len() <= b.bytes.len() + 4096,
        b.alloc_cell(payload).next <= b.next + 8192,
        b.alloc_cell(payload).bytes.subrange(
            b.cell_at(payload) + 4,
            b.cell_at(payload) + 4 + payload.len(),
        ) == payload,
        b.alloc_cell(payload).bytes.subrange(b.cell_at(payload), b.cell_at(payload) + 4) == le32(
            0x1_0000_0000 - cell_size(payload.len() as int),
        ),
        forall|i: int|
            0 <= i < b.next ==> #[trigger] b.alloc_cell(payload).bytes[i] == b.bytes[i],
{
    broadcast use group_le_len;
    reveal(Bins::alloc_cell);
    reveal(Bins::cell_at);
    let need = cell_size(payload.len() as int);
    let r = b.room(need);
    let a = b.alloc_cell(payload);
    assert(8 <= need <= 4064);
    assert(a.bytes.subrange(r.next + 4, r.next + 4 + payload.len()) =~= payload);
    assert(a.bytes.subrange(r.next, r.next + 4) =~= le32(0x1_0000_0000 - need));
}

/// The pages after cells with these payloads were allocated, one after another.
pub open spec fn filled(payloads: Seq<Seq<u8>>) -> Bins
    decreases payloads.len(),
{
    if payloads.len() == 0 {
        Bins::empty()
    } else {
        filled(payloads.drop_last()).alloc_cell(payloads.last())
    }
}

/// The offset of cell `i` of these.
pub open spec fn cell_of(payloads: Seq<Seq<u8>>, i: int) -> int {
    filled(payloads.take(i)).cell_at(payloads[i])
}

/// Whether cell `i` of these lies in one page, behind the page's header, and
/// holds its size, negated, and its payload.
pub open spec fn cell_stands(payloads: Seq<Seq<u8>>, i: int) -> bool {
    let at = cell_of(payloads, i);
    let n = payloads[i].len() as int;
    let bytes = filled(payloads).bytes;
    &&& at >= 0x20
    &&& at % 8 == 0
    &&& at % 4096 >= 0x20
    &&& at % 4096 + cell_size(n) <= 4096
    &&& at + cell_size(n) <= filled(payloads).next <= bytes.len()
    &&& bytes.subrange(at, at + 4) == le32(0x1_0000_0000 - cell_size(n))
    &&& bytes.subrange(at + 4, at + 4 + n) == payloads[i]
}

/// However many cells are allocated, each lies in one page behind the page's
/// header, holds its size and its payload for good, and lies behind all that
/// were allocated before it.
pub proof fn law_cells_stand_apart(payloads: Seq<Seq<u8>>)
    requires
        forall|i: int| 0 <= i < payloads.len() ==> (#[trigger] payloads[i]).len() <= max_payload(),
    ensures
        filled(payloads).wf(),
        forall|i: int| 0 <= i < payloads.len() ==> #[trigger] cell_stands(payloads, i),
        forall|i: int, j: int|
            0 <= i < j < payloads.len() ==> #[trigger] cell_of(payloads, i) + cell_size(
                payloads[i].len() as int,
            ) <= #[trigger] cell_of(payloads, j),
    decreases payloads.len(),
{
    if payloads.len() > 0 {
        let front = payloads.drop_last();
        let last = payloads[payloads.len() - 1];
        let m = payloads.len() - 1;
        assert(payloads.last() == last);
        assert forall|i: int| 0 <= i < front.len() implies (#[trigger] front[i]).len()
            <= max_payload() by {
            assert(front[i] == payloads[i]);
        }
        law_cells_stand_apart(front);
        let b = filled(front);
        let c = filled(payloads);
        lemma_alloc(b, last);
        assert(payloads.take(m) =~= front);
        assert(cell_of(payloads, m) == b.cell_at(last));
        assert forall|i: int| 0 <= i < m implies cell_of(payloads, i) == #[trigger] cell_of(
            front,
            i,
        ) by {
            assert(payloads.take(i) =~= front.take(i));
            assert(payloads[i] == front[i]);
        }
        assert forall|i: int| 0 <= i < payloads.len() implies #[trigger] cell_stands(
            payloads,
            i,
        ) by {
            let at = cell_of(payloads, i);
            let n = payloads[i].len() as int;
            if i < m {
                assert(cell_stands(front, i));
                assert(cell_of(payloads, i) == cell_of(front, i));
                assert(front[i] == payloads[i]);
                assert(c.bytes.subrange(at, at + 4) =~= b.bytes.subrange(at, at + 4));
                assert(c.bytes.subrange(at + 4, at + 4 + n) =~= b.bytes.subrange(
                    at + 4,
                    at + 4 + n,
                ));
            }
        }
        assert forall|i: int, j: int| 0 <= i < j < payloads.len() implies #[trigger] cell_of(
            payloads,
            i,
        ) + cell_size(payloads[i].len() as int) <= #[trigger] cell_of(payloads, j) by {
            assert(cell_of(payloads, i) == cell_of(front, i));
            assert(front[i] == payloads[i]);
            assert(cell_stands(front, i));
            if j < m {
                assert(cell_of(payloads, j) == cell_of(front, j));
            }
        }
    }
}

/// Pages of a hive file as they are written: each starts with an `hbin`
/// header that holds its own offset and the page size.
pub open spec fn hbin_header(at: int) -> Seq<u8> {
    seq![0x68u8, 0x62, 0x69, 0x6e] + le32(at) + le32(0x1000)
}

pub open spec fn stamped(bytes: Seq<u8>) -> Seq<u8> {
    Seq::new(
        bytes.len(),
        |i: int|
            if i % 4096 < 12 {
                hbin_header(i / 4096 * 4096)[i % 4096]
            } else {
                bytes[i]
            },
    )
}

proof fn lemma_stamped_page(bytes: Seq<u8>, at: int)
    requires
        at % 4096 == 0,
        0 <= at,
        at + 4096 <= bytes.len(),
    ensures
        stamped(bytes).subrange(at, at + 4096) == hbin_header(at) + bytes.subrange(
            at + 12,
            at + 4096,
        ),
        stamped(bytes).take(at + 4096) == stamped(bytes).take(at) + (hbin_header(at)
            + bytes.subrange(at + 12, at + 4096)),
{
    broadcast use group_le_len;
    let page = hbin_header(at) + bytes.subrange(at + 12, at + 4096);
    assert(hbin_header(at).len() == 12);
    assert forall|j: int| 0 <= j < 4096 implies #[trigger] stamped(bytes)[at + j] == page[j] by {
        assert((at + j) / 4096 * 4096 == at);
        assert((at + j) % 4096 == j);
    }
    assert(stamped(bytes).subrange(at, at + 4096) =~= page);
    assert(stamped(bytes).take(at + 4096) =~= stamped(bytes).take(at) + stamped(bytes).subrange(
        at,
        at + 4096,
    ));
}

/// The base block without its checksum.
#[verifier::opaque]
pub open spec fn base_block(filetime: int, root_cell: int, bins_len: int) -> Seq<u8> {
    seq![0x72u8, 0x65, 0x67, 0x66]  // "regf"
         + le32(1) + le32(1) + le64(filetime) + le32(1) + le32(3)  // version 1.3
         + le32(0) + le32(1) + le32(root_cell) + le32(bins_len) + le32(1) + seq![
        0x42u8,
        0x43,
        0x44,
    ]  // "BCD"
         + zeros(4045)
}

/// XOR of the first `n` dwords.
pub open spec fn xor_dwords(b: Seq<u8>, n: nat) -> u32
    decreases n,
{
    if n == 0 {
        0
    } else {
        xor_dwords(b, (n - 1) as nat) ^ (get32(b, 4 * (n - 1)) as u32)
    }
}

/// The hive file: base block with its checksum, then the pages.
pub open spec fn hive_file(b: Bins, filetime: int, root_cell: int) -> Seq<u8> {
    let base = base_block(filetime, root_cell, b.bytes.len() as int);
    overlay(base, 0x1FC, le32(xor_dwords(base, 127) as int)) + stamped(b.bytes)
}

/// Hive cell allocator.
pub struct Hive {
    bytes: Vec<u8>,
    next_free: usize,
    nks: Vec<u32>,
}

impl View for Hive {
    type V = Bins;

    closed spec fn view(&self) -> Bins {
        Bins {
            bytes: self.bytes@,
            next: self.next_free as int,
            nks: self.nks@.map_values(|x: u32| x as int),
        }
    }
}

impl Hive {
    pub fn new() -> (h: Hive)
        ensures
            h@ == Bins::empty(),
    {
        let mut bytes: Vec<u8> = Vec::new();
        push_zeros(&mut bytes, 4096);
        let h = Hive { bytes, next_free: 0x20, nks: Vec::new() };
        assert(h@ =~= Bins::empty());
        h
    }

    /// Allocates a cell holding `payload` and returns its offset.
    pub fn alloc_cell(&mut self, payload: &[u8]) -> (idx: u32)
        requires
            old(self)@.wf(),
            payload@.len() <= max_payload(),
            old(self)@.bytes.len() <= 0xFFFF_E000,
        ensures
            final(self)@ == old(self)@.alloc_cell(payload@),
            idx == old(self)@.cell_at(payload@),
    {
        broadcast use group_le_len;
        reveal(Bins::alloc_cell);
        reveal(Bins::cell_at);
        let ghost start = self@;
        let need: usize = (payload.len() + 11) / 8 * 8;
        let end: usize = self.bytes.len();
        if self.next_free + need > end {
            // Pad the tail of this page with a free cell, start a new page.
            let pad: usize = end - self.next_free;
            if pad > 0 {
                put_u32(&mut self.bytes, self.next_free, pad as u32);
            }
            push_zeros(&mut self.bytes, 4096);
            self.next_free = end + 0x20;
        }
        let ghost r = start.room(need as int);
        assert(self@ =~= r);
        let idx: usize = self.next_free;
        put_u32(&mut self.bytes, idx, (0x1_0000_0000u64 - need as u64) as u32);
        put_bytes(&mut self.bytes, idx + 4, payload);
        self.next_free = idx + need;
        assert(self@ =~= start.alloc_cell(payload@));
        idx as u32
    }

    /// Overwrites four bytes of the payload of the cell at `cell`.
    pub fn patch_u32(&mut self, cell: u32, rec_off: usize, value: u32)
        requires
            cell + 4 + rec_off + 4 <= old(self)@.bytes.len(),
            rec_off < 4096,
            cell <= 0x7FFF_F000,
        ensures
            final(self)@ == old(self)@.patch(cell as int, rec_off as int, value as int),
    {
        broadcast use group_le_len;
        put_u32(&mut self.bytes, cell as usize + 4 + rec_off, value);
    }

    /// Records a key node, whose security index is set once it is known.
    pub fn record_nk(&mut self, idx: u32)
        ensures
            final(self)@ == old(self)@.with_nk(idx as int),
    {
        self.nks.push(idx);
        assert(self@ =~= old(self)@.with_nk(idx as int));
    }

    pub fn nk_count(&self) -> (n: usize)
        ensures
            n == self@.nks.len(),
    {
        self.nks.len()
    }

    /// The key node recorded at `i`.
    pub fn nk(&self, i: usize) -> (idx: u32)
        requires
            i < self@.nks.len(),
        ensures
            idx == self@.nks[i as int],
    {
        self.nks[i]
    }

    /// The complete hive file.
    pub fn finish(self, filetime: u64, root_cell: u32) -> (out: Vec<u8>)
        requires
            self@.wf(),
            self@.bytes.len() <= 0x7FFF_F000,
        ensures
            out@ == hive_file(self@, filetime as int, root_cell as int),
    {
        broadcast use group_le_len;
        let ghost b = self@;
        let n: usize = self.bytes.len();
        let mut out: Vec<u8> = Vec::new();
        out.push(0x72);
        out.push(0x65);
        out.push(0x67);
        out.push(0x66);
        push_u32(&mut out, 1);
        push_u32(&mut out, 1);
        push_u64(&mut out, filetime);
        push_u32(&mut out, 1);
        push_u32(&mut out, 3);
        push_u32(&mut out, 0);
        push_u32(&mut out, 1);
        push_u32(&mut out, root_cell);
        push_u32(&mut out, n as u32);
        push_u32(&mut out, 1);
        out.push(0x42);
        out.push(0x43);
        out.push(0x44);
        push_zeros(&mut out, 4045);
        let ghost base = base_block(filetime as int, root_cell as int, n as int);
        proof {
            reveal(base_block);
            assert(out@ =~= base);
        }

        let mut sum: u32 = 0;
        let mut k: usize = 0;
        while k < 127
            invariant
                k <= 127,
                out@ == base,
                out.len() == 4096,
                sum == xor_dwords(base, k as nat),
            decreases 127 - k,
        {
            sum = sum ^ read_u32(&out, 4 * k);
            k += 1;
        }
        put_u32(&mut out, 0x1FC, sum);
        let ghost head = out@;

        let mut i: usize = 0;
        while i < n
            invariant
                i <= n,
                i % 4096 == 0,
                n == self.bytes.len(),
                n % 4096 == 0,
                n <= 0x7FFF_F000,
                b == self@,
                out@ == head + stamped(b.bytes).take(i as int),
            decreases n - i,
        {
            let ghost before = out@;
            out.push(0x68);
            out.push(0x62);
            out.push(0x69);
            out.push(0x6e);
            push_u32(&mut out, i as u32);
            push_u32(&mut out, 0x1000);
            let rest: &[u8] = vstd::slice::slice_subrange(self.bytes.as_slice(), i + 12, i + 4096);
            push_bytes(&mut out, rest);
            proof {
                assert(out@ =~= before + (hbin_header(i as int) + b.bytes.subrange(
                    i + 12,
                    i + 4096,
                )));
                lemma_stamped_page(b.bytes, i as int);
            }
            i += 4096;
            assert(out@ =~= head + stamped(b.bytes).take(i as int));
        }
        assert(stamped(b.bytes).take(n as int) =~= stamped(b.bytes));
        out
    }
}

} // verus!
