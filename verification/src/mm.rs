//! What the process layer knows of address spaces.

use crate::config::PAGE_SIZE;
use std::collections::BTreeMap;
use vstd::prelude::*;

verus! {

/// An address space, known by its token.
#[derive(Clone, Copy, PartialEq, Eq, Structural, Debug)]
pub struct MemorySet {
    /// The value that selects the address space.
    pub token: usize,
}

impl MemorySet {
    /// The token of the address space.
    pub fn token(&self) -> (token: usize)
        ensures
            token == self.token,
    {
        self.token
    }
}

/// Bytes to be stored in a user address space.
pub struct UserWrite {
    /// Token of the address space.
    pub token: usize,
    /// Where the first byte goes.
    pub addr: usize,
    /// What is stored.
    pub bytes: Vec<u8>,
}

/// What a [`UserWrite`] stores and where.
#[verifier::ext_equal]
pub struct StoreSpec {
    /// Token of the address space.
    pub token: usize,
    /// Where the first byte goes.
    pub addr: int,
    /// What is stored.
    pub bytes: Seq<u8>,
}

impl View for UserWrite {
    type V = StoreSpec;

    open spec fn view(&self) -> StoreSpec {
        StoreSpec { token: self.token, addr: self.addr as int, bytes: self.bytes@ }
    }
}

/// The memory of an address space after a store in it.
pub open spec fn store(mem: spec_fn(int) -> u8, w: StoreSpec) -> spec_fn(int) -> u8 {
    |a: int|
        if w.addr <= a < w.addr + w.bytes.len() {
            w.bytes[a - w.addr]
        } else {
            mem(a)
        }
}

/// The memory of an address space after several stores in it, the first one first.
pub open spec fn store_all(mem: spec_fn(int) -> u8, ws: Seq<StoreSpec>) -> spec_fn(int) -> u8
    decreases ws.len(),
{
    if ws.len() == 0 {
        mem
    } else {
        store(store_all(mem, ws.drop_last()), ws.last())
    }
}

/// Memory holds the bytes at an address.
pub open spec fn holds(mem: spec_fn(int) -> u8, addr: int, bytes: Seq<u8>) -> bool {
    forall|a: int| addr <= a < addr + bytes.len() ==> #[trigger] mem(a) == bytes[a - addr]
}

/// What a page may be used for.
#[derive(Clone, Copy, PartialEq, Eq, Structural, Debug)]
pub struct MapPermission {
    /// Reading.
    pub r: bool,
    /// Writing.
    pub w: bool,
    /// Executing.
    pub x: bool,
    /// Any of these from user mode.
    pub u: bool,
}

/// How a virtual page is mapped.
#[derive(Clone, Copy, PartialEq, Eq, Structural, Debug)]
pub struct PageTableEntry {
    /// Whether the entry maps the page at all.
    pub valid: bool,
    /// What the page may be used for.
    pub flags: MapPermission,
}

impl PageTableEntry {
    /// User mode may read the page, or write it if `writable` is set.
    pub open spec fn permits(self, writable: bool) -> bool {
        self.valid && self.flags.u && if writable {
            self.flags.w
        } else {
            self.flags.r
        }
    }
}

/// The page table of an address space: its entries, by virtual page number.
pub struct PageTable {
    token: usize,
    entries: BTreeMap<usize, PageTableEntry>,
}

/// The abstract state of a [`PageTable`].
#[verifier::ext_equal]
pub struct PageTableState {
    /// Token of the address space.
    pub token: usize,
    /// The entries, by virtual page number.
    pub entries: Map<usize, PageTableEntry>,
}

impl View for PageTable {
    type V = PageTableState;

    closed spec fn view(&self) -> PageTableState {
        PageTableState { token: self.token, entries: self.entries@ }
    }
}

impl PageTable {
    /// The token of the address space.
    pub fn token(&self) -> (token: usize)
        ensures
            token == self@.token,
    {
        self.token
    }

    /// The table of an address space, without entries yet.
    pub fn empty(token: usize) -> (table: Self)
        ensures
            table@ == (PageTableState { token, entries: Map::empty() }),
    {
        PageTable { token, entries: BTreeMap::new() }
    }

    /// Sets the entry of a page.
    pub fn set_entry(&mut self, vpn: usize, pte: PageTableEntry)
        ensures
            final(self)@ == (PageTableState {
                entries: old(self)@.entries.insert(vpn, pte),
                ..old(self)@
            }),
    {
        broadcast use vstd::std_specs::btree::group_btree_axioms;

        self.entries.insert(vpn, pte);
    }

    /// The entry of a page.
    pub fn translate(&self, vpn: usize) -> (pte: Option<PageTableEntry>)
        ensures
            pte == if self@.entries.contains_key(vpn) {
                Some(self@.entries[vpn])
            } else {
                None
            },
    {
        broadcast use vstd::std_specs::btree::group_btree_axioms;

        match self.entries.get(&vpn) {
            Some(pte) => Some(*pte),
            None => None,
        }
    }
}

/// User mode may use the byte at `addr`.
pub open spec fn byte_accessible(
    table: Map<usize, PageTableEntry>,
    addr: int,
    writable: bool,
) -> bool {
    let vpn = (addr / PAGE_SIZE as int) as usize;
    table.contains_key(vpn) && table[vpn].permits(writable)
}

/// The range ends within the address space, and user mode may use each of its bytes.
pub open spec fn range_accessible(
    table: Map<usize, PageTableEntry>,
    start: int,
    len: int,
    writable: bool,
) -> bool {
    len == 0 || start + len <= usize::MAX && forall|a: int|
        start <= a < start + len ==> #[trigger] byte_accessible(table, a, writable)
}

/// The range is empty, does not extend into the last page of the address space, or is not
/// accessible anyway. The page after that last one has no address.
pub open spec fn range_in_reach(
    table: Map<usize, PageTableEntry>,
    start: int,
    len: int,
    writable: bool,
) -> bool {
    len == 0 || start + len <= usize::MAX - PAGE_SIZE + 1 || !range_accessible(
        table,
        start,
        len,
        writable,
    )
}

/// The bytes of the first `n` chunks.
pub open spec fn chunks_size(lens: Seq<usize>, n: int) -> int
    decreases n,
{
    if n <= 0 {
        0
    } else {
        chunks_size(lens, n - 1) + lens[n - 1]
    }
}

/// Splits the bytes of a value over the chunks of memory that a user buffer consists of.
pub fn write_user_value(src: &Vec<u8>, chunk_lens: &Vec<usize>) -> (pieces: Vec<Vec<u8>>)
    requires
        chunks_size(chunk_lens@, chunk_lens@.len() as int) == src@.len(),
    ensures
        pieces@.len() == chunk_lens@.len(),
        forall|i: int|
            0 <= i < pieces@.len() ==> (#[trigger] pieces@[i])@ == src@.subrange(
                chunks_size(chunk_lens@, i),
                chunks_size(chunk_lens@, i + 1),
            ),
        forall|i: int|
            0 <= i < pieces@.len() ==> (#[trigger] pieces@[i])@.len() == chunk_lens@[i],
        pieces@.map_values(|piece: Vec<u8>| piece@).flatten() == src@,
{
    let mut pieces: Vec<Vec<u8>> = Vec::new();
    let size: usize = src.len();
    let mut offset: usize = 0;
    let mut i: usize = 0;
    while i < chunk_lens.len()
        invariant
            i <= chunk_lens@.len(),
            size == src@.len(),
            chunks_size(chunk_lens@, chunk_lens@.len() as int) == src@.len(),
            offset == chunks_size(chunk_lens@, i as int),
            offset <= src@.len(),
            pieces@.len() == i,
            forall|k: int|
                0 <= k < i ==> (#[trigger] pieces@[k])@ == src@.subrange(
                    chunks_size(chunk_lens@, k),
                    chunks_size(chunk_lens@, k + 1),
                ),
        decreases chunk_lens@.len() - i,
    {
        proof {
            lemma_chunks_size(chunk_lens@, i + 1, chunk_lens@.len() as int);
        }
        let len: usize = chunk_lens[i];
        let mut piece: Vec<u8> = Vec::new();
        let mut k: usize = 0;
        while k < len
            invariant
                k <= len,
                size == src@.len(),
                offset + len <= size,
                piece@ == src@.subrange(offset as int, offset + k),
            decreases len - k,
        {
            piece.push(src[offset + k]);
            k += 1;
            assert(piece@ =~= src@.subrange(offset as int, offset + k));
        }
        pieces.push(piece);
        offset += len;
        i += 1;
    }
    proof {
        let views = pieces@.map_values(|piece: Vec<u8>| piece@);
        assert forall|k: int| 0 <= k < pieces@.len() implies (#[trigger] pieces@[k])@.len()
            == chunk_lens@[k] by {
            lemma_chunks_size(chunk_lens@, k, k + 1);
            lemma_chunks_size(chunk_lens@, k + 1, chunk_lens@.len() as int);
        }
        assert forall|k: int| 0 <= k < views.len() implies #[trigger] views[k] == src@.subrange(
            chunks_size(chunk_lens@, k),
            chunks_size(chunk_lens@, k + 1),
        ) by {
            assert(pieces@[k]@ == views[k]);
        }
        law_pieces_join_to_value(src@, chunk_lens@, views);
    }
    pieces
}

/// More chunks hold at least as many bytes.
proof fn lemma_chunks_size(lens: Seq<usize>, m: int, n: int)
    requires
        0 <= m <= n <= lens.len(),
    ensures
        0 <= chunks_size(lens, m) <= chunks_size(lens, n),
    decreases n,
{
    if m < n {
        lemma_chunks_size(lens, m, n - 1);
    } else if n > 0 {
        lemma_chunks_size(lens, n - 1, n - 1);
    }
}

/// Several pieces in one.
pub open spec fn joined(pieces: Seq<Seq<u8>>, n: int) -> Seq<u8>
    decreases n,
{
    if n <= 0 {
        Seq::empty()
    } else {
        joined(pieces, n - 1) + pieces[n - 1]
    }
}

/// The pieces of a value put together give the value again.
pub proof fn law_pieces_join_to_value(src: Seq<u8>, lens: Seq<usize>, pieces: Seq<Seq<u8>>)
    requires
        chunks_size(lens, lens.len() as int) == src.len(),
        pieces.len() == lens.len(),
        forall|i: int|
            0 <= i < pieces.len() ==> #[trigger] pieces[i] == src.subrange(
                chunks_size(lens, i),
                chunks_size(lens, i + 1),
            ),
    ensures
        joined(pieces, pieces.len() as int) == src,
        pieces.flatten() == src,
        forall|i: int| 0 <= i < pieces.len() ==> (#[trigger] pieces[i]).len() == lens[i],
{
    lemma_joined(src, lens, pieces, pieces.len() as int);
    assert(src.subrange(0, src.len() as int) =~= src);
    lemma_joined_is_flat(pieces, pieces.len() as int);
    assert(pieces.take(pieces.len() as int) =~= pieces);
    pieces.lemma_flatten_and_flatten_alt_are_equivalent();
    assert forall|i: int| 0 <= i < pieces.len() implies (#[trigger] pieces[i]).len() == lens[i] by {
        lemma_chunks_size(lens, i, i + 1);
        lemma_chunks_size(lens, i + 1, lens.len() as int);
    }
}

/// Joining pieces is flattening their list.
proof fn lemma_joined_is_flat(pieces: Seq<Seq<u8>>, n: int)
    requires
        0 <= n <= pieces.len(),
    ensures
        joined(pieces, n) == pieces.take(n).flatten_alt(),
    decreases n,
{
    if n > 0 {
        lemma_joined_is_flat(pieces, n - 1);
        assert(pieces.take(n).drop_last() =~= pieces.take(n - 1));
    }
}

proof fn lemma_joined(src: Seq<u8>, lens: Seq<usize>, pieces: Seq<Seq<u8>>, n: int)
    requires
        0 <= n <= pieces.len(),
        chunks_size(lens, lens.len() as int) == src.len(),
        pieces.len() == lens.len(),
        forall|i: int|
            0 <= i < pieces.len() ==> #[trigger] pieces[i] == src.subrange(
                chunks_size(lens, i),
                chunks_size(lens, i + 1),
            ),
    ensures
        joined(pieces, n) == src.subrange(0, chunks_size(lens, n)),
    decreases n,
{
    lemma_chunks_size(lens, n, lens.len() as int);
    if n > 0 {
        lemma_joined(src, lens, pieces, n - 1);
        lemma_chunks_size(lens, n - 1, n);
        assert(pieces[n - 1] == src.subrange(chunks_size(lens, n - 1), chunks_size(lens, n)));
        assert(joined(pieces, n) =~= src.subrange(0, chunks_size(lens, n)));
    } else {
        assert(joined(pieces, n) =~= src.subrange(0, chunks_size(lens, n)));
    }
}

/// The chunks of a buffer hold as many bytes as all of them together.
pub proof fn law_chunks_add_up(lens: Seq<usize>)
    ensures
        chunks_size(lens, lens.len() as int) == lens.fold_left(0int, |sum: int, len: usize| sum + len),
{
    lemma_chunks_fold(lens, lens.len() as int);
    assert(lens.take(lens.len() as int) =~= lens);
}

proof fn lemma_chunks_fold(lens: Seq<usize>, n: int)
    requires
        0 <= n <= lens.len(),
    ensures
        chunks_size(lens, n) == lens.take(n).fold_left(0int, |sum: int, len: usize| sum + len),
    decreases n,
{
    if n > 0 {
        lemma_chunks_fold(lens, n - 1);
        assert(lens.take(n).drop_last() =~= lens.take(n - 1));
    }
}

/// A range may be used exactly when it ends within the address space and every page that holds a
/// byte of it is mapped for user mode with the right that is asked for.
pub proof fn law_range_is_accessible_by_pages(
    table: Map<usize, PageTableEntry>,
    start: usize,
    len: usize,
    writable: bool,
)
    ensures
        len == 0 ==> range_accessible(table, start as int, len as int, writable),
        range_accessible(table, start as int, len as int, writable) && len > 0 ==> start + len
            <= usize::MAX,
        forall|vpn: usize|
            #![trigger table.contains_key(vpn)]
            #![trigger table[vpn]]
            range_accessible(table, start as int, len as int, writable) && len > 0 && start / 4096
                <= vpn && vpn * 4096 < start + len ==> table.contains_key(vpn)
                && table[vpn].valid && table[vpn].flags.u && (writable ==> table[vpn].flags.w) && (
            !writable ==> table[vpn].flags.r),
        len > 0 && start + len <= usize::MAX && !range_accessible(
            table,
            start as int,
            len as int,
            writable,
        ) ==> exists|vpn: usize|
            #![trigger table.contains_key(vpn)]
            #![trigger table[vpn]]
            start / 4096 <= vpn && vpn * 4096 < start + len && !(table.contains_key(vpn)
                && table[vpn].valid && table[vpn].flags.u && (writable ==> table[vpn].flags.w) && (
            !writable ==> table[vpn].flags.r)),
{
    if range_accessible(table, start as int, len as int, writable) {
        assert forall|vpn: usize|
            #![trigger table.contains_key(vpn)]
            #![trigger table[vpn]]
            len > 0 && start / 4096 <= vpn && vpn * 4096 < start + len implies table.contains_key(
            vpn,
        ) && table[vpn].valid && table[vpn].flags.u && (writable
            ==> table[vpn].flags.w) && (!writable ==> table[vpn].flags.r) by {
            if len > 0 {
                let a = if vpn == start / 4096 {
                    start as int
                } else {
                    vpn * 4096
                };
                assert(a / 4096 == vpn);
                assert(byte_accessible(table, a, writable));
                assert(table[vpn].permits(writable));
            }
        }
    } else if start + len <= usize::MAX {
        let a = choose|a: int|
            start <= a < start + len && !#[trigger] byte_accessible(table, a, writable);
        let vpn = (a / 4096) as usize;
        assert(vpn * 4096 < start + len);
        assert(!(table.contains_key(vpn) && table[vpn].permits(writable)));
    }
}

/// A single byte may be used exactly when it is not the last of the address space and its page is
/// mapped for user mode with the right that is asked for.
pub proof fn law_byte_is_accessible_by_page(
    table: Map<usize, PageTableEntry>,
    addr: usize,
    writable: bool,
)
    ensures
        range_accessible(table, addr as int, 1, writable) <==> addr < usize::MAX
            && table.contains_key(addr / 4096) && table[addr / 4096].valid && table[addr
            / 4096].flags.u && (if writable {
            table[addr / 4096].flags.w
        } else {
            table[addr / 4096].flags.r
        }),
{
    if addr < usize::MAX {
        assert(byte_accessible(table, addr as int, writable) <==> table.contains_key(addr / 4096)
            && table[addr / 4096].permits(writable));
    }
}

/// The ranges that cannot be asked about are those that may be used and reach into the last page
/// of the address space.
pub proof fn law_ranges_out_of_reach(
    table: Map<usize, PageTableEntry>,
    start: usize,
    len: usize,
    writable: bool,
)
    ensures
        !range_in_reach(table, start as int, len as int, writable) <==> len > 0 && start + len
            > usize::MAX - 4095 && range_accessible(table, start as int, len as int, writable),
{
}

/// After a store the stored bytes are read back, and no others have changed. Of several stores the
/// last one counts.
pub proof fn law_stores_read_back(mem: spec_fn(int) -> u8, ws: Seq<StoreSpec>, w: StoreSpec, a: int)
    ensures
        0 <= a - w.addr < w.bytes.len() ==> store_all(mem, ws.push(w))(a) == w.bytes[a - w.addr],
        !(0 <= a - w.addr < w.bytes.len()) ==> store_all(mem, ws.push(w))(a) == store_all(mem, ws)(
            a,
        ),
        store_all(mem, Seq::empty())(a) == mem(a),
        store_all(mem, seq![w]) == store(mem, w),
{
    assert(ws.push(w).drop_last() =~= ws);
    assert(seq![w].drop_last() =~= Seq::<StoreSpec>::empty());
    assert(store_all(mem, seq![w].drop_last()) == mem);
}

/// Memory holds bytes at an address exactly when reading as many there gives them.
pub proof fn law_held_bytes_are_read(mem: spec_fn(int) -> u8, addr: int, bytes: Seq<u8>)
    ensures
        holds(mem, addr, bytes) <==> Seq::new(bytes.len(), |k: int| mem(addr + k)) == bytes,
{
    let read = Seq::new(bytes.len(), |k: int| mem(addr + k));
    if holds(mem, addr, bytes) {
        assert forall|k: int| 0 <= k < bytes.len() implies read[k] == bytes[k] by {
            assert(mem(addr + k) == bytes[k]);
        }
        assert(read =~= bytes);
    }
    if read == bytes {
        assert forall|a: int| addr <= a < addr + bytes.len() implies #[trigger] mem(a) == bytes[a
            - addr] by {
            assert(read[a - addr] == mem(addr + (a - addr)));
        }
    }
}

} // verus!
