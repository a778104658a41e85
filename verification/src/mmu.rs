//! Three-level page tables.
//!
//! A virtual address is cut into three 9-bit indices and a 12-bit page
//! offset. The root table is indexed by the highest index and points to
//! level-1 tables, which point to level-0 tables, whose entries are the
//! leaves: a physical page number with permission bits.
//!
//! An address space owns the level-1 and level-0 tables it creates, each bound
//! to the physical page it was given by the page allocator. It does not own
//! the pages its leaves point to.

use crate::page::PageAllocator;
use vstd::prelude::*;

verus! {

/// Number of entries in a table.
pub const TABLE_LEN: usize = 512;

/// Permission and status bits of a page-table entry, alone and in the
/// combinations that mappings use.
#[derive(Clone, Copy, Debug, PartialEq, Eq, Structural)]
pub enum EntryBits {
    Empty,
    Valid,
    Read,
    Write,
    Execute,
    User,
    Global,
    Access,
    Dirty,
    ReadWrite,
    ReadExecute,
    ReadWriteExecute,
    UserReadWrite,
    UserReadExecute,
    UserReadWriteExecute,
}

impl EntryBits {
    pub open spec fn spec_val(self) -> u64 {
        match self {
            EntryBits::Empty => 0,
            EntryBits::Valid => 1,
            EntryBits::Read => 2,
            EntryBits::Write => 4,
            EntryBits::Execute => 8,
            EntryBits::User => 16,
            EntryBits::Global => 32,
            EntryBits::Access => 64,
            EntryBits::Dirty => 128,
            EntryBits::ReadWrite => 6,
            EntryBits::ReadExecute => 10,
            EntryBits::ReadWriteExecute => 14,
            EntryBits::UserReadWrite => 22,
            EntryBits::UserReadExecute => 26,
            EntryBits::UserReadWriteExecute => 30,
        }
    }

    /// The bits as they stand in an entry.
    pub fn val(self) -> (r: u64)
        ensures
            r == self.spec_val(),
    {
        match self {
            EntryBits::Empty => 0,
            EntryBits::Valid => 1,
            EntryBits::Read => 2,
            EntryBits::Write => 4,
            EntryBits::Execute => 8,
            EntryBits::User => 16,
            EntryBits::Global => 32,
            EntryBits::Access => 64,
            EntryBits::Dirty => 128,
            EntryBits::ReadWrite => 6,
            EntryBits::ReadExecute => 10,
            EntryBits::ReadWriteExecute => 14,
            EntryBits::UserReadWrite => 22,
            EntryBits::UserReadExecute => 26,
            EntryBits::UserReadWriteExecute => 30,
        }
    }
}

/// One page-table entry: a physical page number above ten flag bits.
#[derive(Clone, Copy, Debug, PartialEq, Eq, Structural)]
pub struct Entry {
    pub entry: u64,
}

/// The entry of a leaf that points to the page of `paddr` with the
/// permissions `bits`; it is marked valid, accessed and dirty.
pub open spec fn spec_leaf_entry(paddr: u64, bits: u64) -> u64 {
    (((paddr >> 12) & 0xfff_ffff_ffff) << 10) | (bits & 0x3ff) | 0xc1
}

/// The page of `paddr` as a leaf can hold it: bits 12 to 55.
pub open spec fn page_base(paddr: u64) -> u64 {
    paddr & 0x00ff_ffff_ffff_f000
}

impl Entry {
    /// The valid bit is set.
    pub open spec fn valid(self) -> bool {
        self.entry & 1 != 0
    }

    /// One of read, write and execute is set: the entry ends the walk.
    pub open spec fn leaf(self) -> bool {
        self.entry & 0xe != 0
    }

    /// None of read, write and execute is set: the entry, if valid, points
    /// to the next table.
    pub open spec fn branch(self) -> bool {
        self.entry & 0xe == 0
    }

    /// The physical address that the entry points to.
    pub open spec fn target(self) -> u64 {
        (self.entry << 2) & !0xfffu64
    }

    /// All bits of `access` are set in the entry.
    pub open spec fn grants(self, access: u64) -> bool {
        self.entry & access == access
    }

    /// The physical address to which a valid leaf sends `vaddr`.
    pub open spec fn resolve(self, vaddr: u64) -> u64 {
        self.target() | (vaddr & 0xfff)
    }

    pub fn is_valid(&self) -> (r: bool)
        ensures
            r == self.valid(),
    {
        self.entry & 1 != 0
    }

    pub fn is_invalid(&self) -> (r: bool)
        ensures
            r == !self.valid(),
    {
        !self.is_valid()
    }

    pub fn is_leaf(&self) -> (r: bool)
        ensures
            r == self.leaf(),
    {
        self.entry & 0xe != 0
    }

    pub fn is_branch(&self) -> (r: bool)
        ensures
            r == self.branch(),
    {
        !self.is_leaf()
    }

    pub fn set_entry(&mut self, entry: u64)
        ensures
            final(self).entry == entry,
    {
        self.entry = entry;
    }

    pub fn get_entry(&self) -> (r: u64)
        ensures
            r == self.entry,
    {
        self.entry
    }
}

/// The three table indices of a virtual address, highest level first.
pub open spec fn vpn(vaddr: u64) -> (int, int, int) {
    (
        ((vaddr >> 30) & 0x1ff) as int,
        ((vaddr >> 21) & 0x1ff) as int,
        ((vaddr >> 12) & 0x1ff) as int,
    )
}

/// Builds the leaf entry for the page of `paddr` with permissions `bits`.
pub fn leaf_entry(paddr: u64, bits: u64) -> (e: Entry)
    ensures
        e.entry == spec_leaf_entry(paddr, bits),
        e.valid(),
        bits & 0xe != 0 ==> e.leaf(),
        e.target() == page_base(paddr),
        forall|access: u64| access & !0x3ffu64 == 0 ==> (e.grants(access) <==> (bits | 0xc1)
            & access == access),
{
    let ppn0: u64 = (paddr >> 12) & 0x1ff;
    let ppn1: u64 = (paddr >> 21) & 0x1ff;
    let ppn2: u64 = (paddr >> 30) & 0x3ff_ffff;
    let entry: u64 = (ppn2 << 28) | (ppn1 << 19) | (ppn0 << 10) | (bits & 0x3ff) | 0xc1;
    proof {
        assert(entry == spec_leaf_entry(paddr, bits)) by (bit_vector)
            requires
                ppn0 == (paddr >> 12) & 0x1ff,
                ppn1 == (paddr >> 21) & 0x1ff,
                ppn2 == (paddr >> 30) & 0x3ff_ffff,
                entry == (ppn2 << 28) | (ppn1 << 19) | (ppn0 << 10) | (bits & 0x3ff) | 0xc1,
        ;
        lemma_leaf_entry(paddr, bits);
    }
    Entry { entry }
}

/// What a leaf entry holds: it is valid, it is a leaf when `bits` names a
/// permission, and it points to the page of `paddr`.
pub proof fn lemma_leaf_entry(paddr: u64, bits: u64)
    ensures
        (Entry { entry: spec_leaf_entry(paddr, bits) }).valid(),
        bits & 0xe != 0 ==> (Entry { entry: spec_leaf_entry(paddr, bits) }).leaf(),
        (Entry { entry: spec_leaf_entry(paddr, bits) }).target() == page_base(paddr),
        forall|access: u64| access & !0x3ffu64 == 0 ==> ((Entry {
            entry: spec_leaf_entry(paddr, bits),
        }).grants(access) <==> (bits | 0xc1) & access == access),
{
    let e = spec_leaf_entry(paddr, bits);
    assert(e & 1 != 0) by (bit_vector)
        requires
            e == (((paddr >> 12) & 0xfff_ffff_ffff) << 10) | (bits & 0x3ff) | 0xc1,
    ;
    assert(bits & 0xe != 0 ==> e & 0xe != 0) by (bit_vector)
        requires
            e == (((paddr >> 12) & 0xfff_ffff_ffff) << 10) | (bits & 0x3ff) | 0xc1,
    ;
    assert((e << 2) & !0xfffu64 == paddr & 0x00ff_ffff_ffff_f000) by (bit_vector)
        requires
            e == (((paddr >> 12) & 0xfff_ffff_ffff) << 10) | (bits & 0x3ff) | 0xc1,
    ;
    assert forall|access: u64| access & !0x3ffu64 == 0 implies ((Entry { entry: e }).grants(access)
        <==> (bits | 0xc1) & access == access) by {
        assert(access & !0x3ffu64 == 0 ==> (e & access == access <==> (bits | 0xc1) & access
            == access)) by (bit_vector)
            requires
                e == (((paddr >> 12) & 0xfff_ffff_ffff) << 10) | (bits & 0x3ff) | 0xc1,
        ;
    }
}

/// The three table indices of `vaddr` as the tables are indexed with them.
fn indices(vaddr: u64) -> (r: (usize, usize, usize))
    ensures
        (r.0 as int, r.1 as int, r.2 as int) == vpn(vaddr),
        r.0 < 512,
        r.1 < 512,
        r.2 < 512,
{
    let i2: u64 = (vaddr >> 30) & 0x1ff;
    let i1: u64 = (vaddr >> 21) & 0x1ff;
    let i0: u64 = (vaddr >> 12) & 0x1ff;
    proof {
        assert((vaddr >> 30) & 0x1ff < 512) by (bit_vector);
        assert((vaddr >> 21) & 0x1ff < 512) by (bit_vector);
        assert((vaddr >> 12) & 0x1ff < 512) by (bit_vector);
    }
    (i2 as usize, i1 as usize, i0 as usize)
}

/// An address at which a table can stand: a page address other than zero.
pub open spec fn table_addr_ok(addr: u64) -> bool {
    addr != 0 && addr % 4096 == 0
}

/// A level-0 table: 512 entries, each invalid or a leaf.
struct LeafTable {
    addr: u64,
    entries: Vec<Entry>,
}

impl LeafTable {
    spec fn wf(&self) -> bool {
        &&& table_addr_ok(self.addr)
        &&& self.entries@.len() == 512
        &&& forall|i: int|
            0 <= i < 512 ==> (#[trigger] self.entries@[i]).valid() ==> self.entries@[i].leaf()
    }

    /// The entry at `j0`, if it is valid.
    spec fn slot(&self, j0: int) -> Option<Entry> {
        if 0 <= j0 < 512 && self.entries@[j0].valid() {
            Some(self.entries@[j0])
        } else {
            None
        }
    }

    /// An empty table in the page at `addr`.
    fn new(addr: u64) -> (t: LeafTable)
        requires
            table_addr_ok(addr),
        ensures
            t.wf(),
            t.addr == addr,
            forall|j0: int| t.slot(j0) is None,
    {
        let mut entries: Vec<Entry> = Vec::new();
        let mut i: usize = 0;
        while i < TABLE_LEN
            invariant
                i <= 512,
                entries@.len() == i,
                forall|j: int| 0 <= j < i ==> (#[trigger] entries@[j]).entry == 0,
            decreases 512 - i,
        {
            entries.push(Entry { entry: 0 });
            i = i + 1;
        }
        proof {
            assert(0u64 & 1 == 0) by (bit_vector);
        }
        LeafTable { addr, entries }
    }
}

impl LeafTable {
    /// Stores the valid leaf `e` at `i0`.
    fn set(&mut self, i0: usize, e: Entry)
        requires
            old(self).wf(),
            i0 < 512,
            e.valid(),
            e.leaf(),
        ensures
            final(self).wf(),
            final(self).addr == old(self).addr,
            forall|j0: int|
                #[trigger] final(self).slot(j0) == if j0 == i0 {
                    Some(e)
                } else {
                    old(self).slot(j0)
                },
    {
        self.entries[i0] = e;
    }
}

/// A level-1 table: 512 slots, each empty or holding a level-0 table.
struct MidTable {
    addr: u64,
    tables: Vec<Option<LeafTable>>,
}

impl MidTable {
    spec fn wf(&self) -> bool {
        &&& table_addr_ok(self.addr)
        &&& self.tables@.len() == 512
        &&& forall|i: int|
            0 <= i < 512 ==> (#[trigger] self.tables@[i]) is Some ==> self.tables@[i]->0.wf()
    }

    /// Address of the level-0 table in slot `j1`.
    spec fn leaf_addr(&self, j1: int) -> Option<u64> {
        if 0 <= j1 < 512 && self.tables@[j1] is Some {
            Some(self.tables@[j1]->0.addr)
        } else {
            None
        }
    }

    spec fn slot(&self, j1: int, j0: int) -> Option<Entry> {
        if 0 <= j1 < 512 && self.tables@[j1] is Some {
            self.tables@[j1]->0.slot(j0)
        } else {
            None
        }
    }

    /// An empty table in the page at `addr`.
    fn new(addr: u64) -> (t: MidTable)
        requires
            table_addr_ok(addr),
        ensures
            t.wf(),
            t.addr == addr,
            forall|j1: int| t.leaf_addr(j1) is None,
            forall|j1: int, j0: int| t.slot(j1, j0) is None,
    {
        let mut tables: Vec<Option<LeafTable>> = Vec::new();
        let mut i: usize = 0;
        while i < TABLE_LEN
            invariant
                i <= 512,
                tables@.len() == i,
                forall|j: int| 0 <= j < i ==> (#[trigger] tables@[j]) is None,
            decreases 512 - i,
        {
            tables.push(None);
            i = i + 1;
        }
        MidTable { addr, tables }
    }
}

impl MidTable {
    /// Stores the valid leaf `e` at `(i1, i0)`, in a new level-0 table where
    /// slot `i1` holds none.
    fn install(&mut self, alloc: &mut PageAllocator, i1: usize, i0: usize, e: Entry)
        requires
            old(self).wf(),
            old(alloc).wf(),
            i1 < 512,
            i0 < 512,
            e.valid(),
            e.leaf(),
            old(self).leaf_addr(i1 as int) is None ==> old(alloc).free_pages() >= 1,
        ensures
            final(self).wf(),
            final(alloc).wf(),
            final(self).addr == old(self).addr,
            final(alloc).num_pages() == old(alloc).num_pages(),
            final(alloc).grown_from(
                *old(alloc),
                if old(self).leaf_addr(i1 as int) is None {
                    1nat
                } else {
                    0nat
                },
            ),
            final(alloc).free_pages() == old(alloc).free_pages() - if old(self).leaf_addr(
                i1 as int,
            ) is None {
                1int
            } else {
                0int
            },
            forall|j1: int|
                #[trigger] final(self).leaf_addr(j1) == if j1 == i1 && old(self).leaf_addr(j1)
                    is None {
                    Some(old(alloc).nth_page(0) as u64)
                } else {
                    old(self).leaf_addr(j1)
                },
            forall|j1: int, j0: int|
                #[trigger] final(self).slot(j1, j0) == if j1 == i1 && j0 == i0 {
                    Some(e)
                } else {
                    old(self).slot(j1, j0)
                },
    {
        proof {
            reveal_with_fuel(crate::page::pages_after, 2);
            reveal_with_fuel(crate::page::memory_after, 2);
        }
        if self.tables[i1].is_none() {
            let page = alloc.zalloc_one();
            self.tables[i1] = Some(LeafTable::new(page));
        }
        match &mut self.tables[i1] {
            Some(leaf) => {
                leaf.set(i0, e);
            },
            None => {},
        }
    }
}

impl MidTable {
    /// Addresses of the level-0 tables in the slots below `n`, lowest slot
    /// first.
    spec fn leaf_pages(&self, n: int) -> Seq<u64>
        decreases n,
    {
        if n <= 0 {
            Seq::empty()
        } else {
            match self.leaf_addr(n - 1) {
                Some(a) => self.leaf_pages(n - 1).push(a),
                None => self.leaf_pages(n - 1),
            }
        }
    }

    /// Releases the pages of the level-0 tables, lowest slot first, and then
    /// the page of this table.
    fn free(self, alloc: &mut PageAllocator)
        requires
            self.wf(),
            old(alloc).wf(),
        ensures
            final(alloc).wf(),
            final(alloc).start() == old(alloc).start(),
            final(alloc).memory() == old(alloc).memory(),
            final(alloc).num_pages() == old(alloc).num_pages(),
            final(alloc).pages() == crate::page::release_all(
                old(alloc).start(),
                old(alloc).pages(),
                self.leaf_pages(512).push(self.addr),
            ),
    {
        let mut j1: usize = 0;
        while j1 < TABLE_LEN
            invariant
                j1 <= 512,
                self.wf(),
                alloc.wf(),
                alloc.start() == old(alloc).start(),
                alloc.memory() == old(alloc).memory(),
                alloc.num_pages() == old(alloc).num_pages(),
                alloc.pages() == crate::page::release_all(
                    old(alloc).start(),
                    old(alloc).pages(),
                    self.leaf_pages(j1 as int),
                ),
            decreases 512 - j1,
        {
            match &self.tables[j1] {
                Some(leaf) => {
                    alloc.dealloc(leaf.addr);
                    proof {
                        let next = self.leaf_pages(j1 + 1);
                        assert(next.drop_last() =~= self.leaf_pages(j1 as int));
                    }
                },
                None => {},
            }
            j1 = j1 + 1;
        }
        alloc.dealloc(self.addr);
        proof {
            let all = self.leaf_pages(512).push(self.addr);
            assert(all.drop_last() =~= self.leaf_pages(512));
        }
    }
}

/// The root of an address space: 512 slots, each empty or holding a level-1
/// table.
pub struct Table {
    addr: u64,
    tables: Vec<Option<MidTable>>,
}

impl Table {
    /// Address of the page that holds the root table.
    pub closed spec fn addr(&self) -> u64 {
        self.addr
    }

    pub closed spec fn wf(&self) -> bool {
        &&& table_addr_ok(self.addr)
        &&& self.tables@.len() == 512
        &&& forall|i: int|
            0 <= i < 512 ==> (#[trigger] self.tables@[i]) is Some ==> self.tables@[i]->0.wf()
    }

    /// Address of the level-1 table in slot `j2` of the root.
    pub closed spec fn mid_addr(&self, j2: int) -> Option<u64> {
        if 0 <= j2 < 512 && self.tables@[j2] is Some {
            Some(self.tables@[j2]->0.addr)
        } else {
            None
        }
    }

    /// Address of the level-0 table in slot `j1` of the level-1 table in slot
    /// `j2`.
    pub closed spec fn leaf_addr(&self, j2: int, j1: int) -> Option<u64> {
        if 0 <= j2 < 512 && self.tables@[j2] is Some {
            self.tables@[j2]->0.leaf_addr(j1)
        } else {
            None
        }
    }

    /// The valid leaf entry that the indices `(j2, j1, j0)` lead to.
    pub closed spec fn slot(&self, j2: int, j1: int, j0: int) -> Option<Entry> {
        if 0 <= j2 < 512 && self.tables@[j2] is Some {
            self.tables@[j2]->0.slot(j1, j0)
        } else {
            None
        }
    }

    /// The valid leaf entry that translates `vaddr`.
    pub open spec fn entry_for(&self, vaddr: u64) -> Option<Entry> {
        self.slot(vpn(vaddr).0, vpn(vaddr).1, vpn(vaddr).2)
    }

    /// The physical address of `vaddr` in this address space.
    pub open spec fn translate(&self, vaddr: u64) -> Option<u64> {
        match self.entry_for(vaddr) {
            Some(e) => Some(e.resolve(vaddr)),
            None => None,
        }
    }

    /// The physical address of `vaddr` for an access that needs the
    /// permission bits `access`.
    pub open spec fn translate_for(&self, vaddr: u64, access: u64) -> Option<u64> {
        match self.entry_for(vaddr) {
            Some(e) => if e.grants(access) {
                Some(e.resolve(vaddr))
            } else {
                None
            },
            None => None,
        }
    }

    /// Addresses of the level-0 tables in the slots below `n` of the level-1
    /// table in slot `j2`, lowest slot first.
    pub open spec fn leaf_pages(&self, j2: int, n: int) -> Seq<u64>
        decreases n,
    {
        if n <= 0 {
            Seq::empty()
        } else {
            match self.leaf_addr(j2, n - 1) {
                Some(a) => self.leaf_pages(j2, n - 1).push(a),
                None => self.leaf_pages(j2, n - 1),
            }
        }
    }

    /// Addresses of the tables that hang below the slots under `n` of the
    /// root: slot by slot, the level-0 tables and then their level-1 table.
    pub open spec fn pages_below(&self, n: int) -> Seq<u64>
        decreases n,
    {
        if n <= 0 {
            Seq::empty()
        } else {
            match self.mid_addr(n - 1) {
                Some(a) => self.pages_below(n - 1) + self.leaf_pages(n - 1, 512).push(a),
                None => self.pages_below(n - 1),
            }
        }
    }

    /// Addresses of all tables that the address space owns below its root, in
    /// the order in which `unmap` releases them.
    pub open spec fn branch_pages(&self) -> Seq<u64> {
        self.pages_below(512)
    }

    /// The level-0 tables of slot `j2`, counted through the root or through
    /// the level-1 table itself, are the same.
    proof fn lemma_leaf_pages(&self, j2: int, n: int)
        requires
            0 <= j2 < 512,
            self.tables@.len() == 512,
            self.tables@[j2] is Some,
        ensures
            self.leaf_pages(j2, n) == self.tables@[j2]->0.leaf_pages(n),
        decreases n,
    {
        if n > 0 {
            self.lemma_leaf_pages(j2, n - 1);
        }
    }

    /// Nothing is mapped and no table hangs below the root.
    pub open spec fn is_empty(&self) -> bool {
        forall|j2: int| self.mid_addr(j2) is None
    }

    /// How many tables a mapping of `vaddr` has to create: none, the level-0
    /// table, or the level-1 table and the level-0 table.
    pub open spec fn missing_tables(&self, vaddr: u64) -> int {
        if self.mid_addr(vpn(vaddr).0) is None {
            2
        } else if self.leaf_addr(vpn(vaddr).0, vpn(vaddr).1) is None {
            1
        } else {
            0
        }
    }

    /// What an address space is made of: tables at page addresses, level-0
    /// tables below level-1 tables only, and valid leaves in level-0 tables
    /// only.
    pub proof fn lemma_structure(&self)
        requires
            self.wf(),
        ensures
            table_addr_ok(self.addr()),
            forall|j2: int| #[trigger]
                self.mid_addr(j2) is Some ==> 0 <= j2 < 512 && table_addr_ok(
                    self.mid_addr(j2)->0,
                ),
            forall|j2: int, j1: int| #[trigger]
                self.leaf_addr(j2, j1) is Some ==> 0 <= j1 < 512 && self.mid_addr(j2) is Some
                    && table_addr_ok(self.leaf_addr(j2, j1)->0),
            forall|j2: int, j1: int, j0: int| #[trigger]
                self.slot(j2, j1, j0) is Some ==> 0 <= j0 < 512 && self.leaf_addr(j2, j1) is Some
                    && self.slot(j2, j1, j0)->0.valid() && self.slot(j2, j1, j0)->0.leaf(),
    {
    }

    /// An empty address space whose root stands in the page at `addr`.
    pub fn new(addr: u64) -> (t: Table)
        requires
            table_addr_ok(addr),
        ensures
            t.wf(),
            t.addr() == addr,
            t.is_empty(),
            forall|vaddr: u64| t.translate(vaddr) is None,
    {
        let mut tables: Vec<Option<MidTable>> = Vec::new();
        let mut i: usize = 0;
        while i < TABLE_LEN
            invariant
                i <= 512,
                tables@.len() == i,
                forall|j: int| 0 <= j < i ==> (#[trigger] tables@[j]) is None,
            decreases 512 - i,
        {
            tables.push(None);
            i = i + 1;
        }
        Table { addr, tables }
    }

    /// Address of the page that holds the root table.
    pub fn get_addr(&self) -> (r: u64)
        ensures
            r == self.addr(),
    {
        self.addr
    }

    /// The valid leaf entry that translates `vaddr`, if there is one.
    fn find(&self, vaddr: u64) -> (r: Option<Entry>)
        requires
            self.wf(),
        ensures
            r == self.entry_for(vaddr),
    {
        let (i2, i1, i0) = indices(vaddr);
        match &self.tables[i2] {
            None => None,
            Some(mid) => match &mid.tables[i1] {
                None => None,
                Some(leaf) => {
                    let e = leaf.entries[i0];
                    if e.is_valid() {
                        Some(e)
                    } else {
                        None
                    }
                },
            },
        }
    }
}

/// `after` is `before` with the page of `vaddr` mapped by the leaf `e`: the
/// tables that the walk to the leaf lacked stand in the pages that the
/// allocator `alloc` hands out next, and nothing else has changed.
pub open spec fn mapped(before: Table, after: Table, alloc: PageAllocator, vaddr: u64, e: Entry) -> bool {
    let (i2, i1, i0) = vpn(vaddr);
    let missing = before.missing_tables(vaddr);
    &&& after.addr() == before.addr()
    &&& forall|j2: int|
        #[trigger] after.mid_addr(j2) == if j2 == i2 && missing == 2 {
            Some(alloc.nth_page(0) as u64)
        } else {
            before.mid_addr(j2)
        }
    &&& forall|j2: int, j1: int|
        #[trigger] after.leaf_addr(j2, j1) == if j2 == i2 && j1 == i1 && missing >= 1 {
            Some(alloc.nth_page((missing - 1) as nat) as u64)
        } else {
            before.leaf_addr(j2, j1)
        }
    &&& forall|j2: int, j1: int, j0: int|
        #[trigger] after.slot(j2, j1, j0) == if j2 == i2 && j1 == i1 && j0 == i0 {
            Some(e)
        } else {
            before.slot(j2, j1, j0)
        }
}

/// Maps the page of `vaddr` to the page of `paddr` with the permissions
/// `bits`, of which one of read, write and execute is set. The level-1 and
/// level-0 tables that the walk lacks are created in pages taken from `alloc`.
/// Where `alloc` has fewer free pages than tables are lacking, nothing is
/// changed and the result is false.
pub fn map(root: &mut Table, alloc: &mut PageAllocator, vaddr: u64, paddr: u64, bits: u64) -> (ok:
    bool)
    requires
        old(root).wf(),
        old(alloc).wf(),
        bits & 0xe != 0,
    ensures
        final(root).wf(),
        final(alloc).wf(),
        final(alloc).num_pages() == old(alloc).num_pages(),
        ok == (old(alloc).free_pages() >= old(root).missing_tables(vaddr)),
        !ok ==> *final(root) == *old(root) && *final(alloc) == *old(alloc),
        ok ==> final(alloc).grown_from(*old(alloc), old(root).missing_tables(vaddr) as nat),
        ok ==> final(alloc).free_pages() == old(alloc).free_pages() - old(root).missing_tables(
            vaddr,
        ),
        ok ==> mapped(
            *old(root),
            *final(root),
            *old(alloc),
            vaddr,
            Entry { entry: spec_leaf_entry(paddr, bits) },
        ),
{
    let (i2, i1, i0) = indices(vaddr);
    let needed: usize = match &root.tables[i2] {
        None => 2,
        Some(mid) => if mid.tables[i1].is_none() {
            1
        } else {
            0
        },
    };
    proof {
        crate::page::lemma_taken_count_bound(alloc.pages(), alloc.num_pages());
        reveal_with_fuel(crate::page::pages_after, 3);
        reveal_with_fuel(crate::page::memory_after, 3);
    }
    if needed > 0 && alloc.count_free() < needed {
        return false;
    }
    let e = leaf_entry(paddr, bits);
    if root.tables[i2].is_none() {
        let page = alloc.zalloc_one();
        root.tables[i2] = Some(MidTable::new(page));
    }
    match &mut root.tables[i2] {
        Some(mid) => {
            mid.install(alloc, i1, i0, e);
        },
        None => {},
    }
    true
}

/// Tears the address space down to its root: releases the page of every
/// level-1 and level-0 table to `alloc` and leaves the root empty. The root's
/// own page and the pages that the leaves pointed to stay as they are.
pub fn unmap(root: &mut Table, alloc: &mut PageAllocator)
    requires
        old(root).wf(),
        old(alloc).wf(),
    ensures
        final(root).wf(),
        final(root).addr() == old(root).addr(),
        final(root).is_empty(),
        forall|vaddr: u64| final(root).translate(vaddr) is None,
        final(alloc).wf(),
        final(alloc).start() == old(alloc).start(),
        final(alloc).memory() == old(alloc).memory(),
        final(alloc).num_pages() == old(alloc).num_pages(),
        final(alloc).pages() == crate::page::release_all(
            old(alloc).start(),
            old(alloc).pages(),
            old(root).branch_pages(),
        ),
{
    let mut j2: usize = 0;
    while j2 < TABLE_LEN
        invariant
            j2 <= 512,
            root.wf(),
            old(root).wf(),
            root.addr == old(root).addr,
            root.tables@.len() == 512,
            forall|k: int| 0 <= k < j2 ==> (#[trigger] root.tables@[k]) is None,
            forall|k: int| j2 <= k < 512 ==> #[trigger] root.tables@[k] == old(root).tables@[k],
            alloc.wf(),
            alloc.start() == old(alloc).start(),
            alloc.memory() == old(alloc).memory(),
            alloc.num_pages() == old(alloc).num_pages(),
            alloc.pages() == crate::page::release_all(
                old(alloc).start(),
                old(alloc).pages(),
                old(root).pages_below(j2 as int),
            ),
        decreases 512 - j2,
    {
        let taken = root.tables[j2].take();
        match taken {
            Some(mid) => {
                proof {
                    old(root).lemma_leaf_pages(j2 as int, 512);
                    crate::page::lemma_release_all_concat(
                        old(alloc).start(),
                        old(alloc).pages(),
                        old(root).pages_below(j2 as int),
                        mid.leaf_pages(512).push(mid.addr),
                    );
                }
                mid.free(alloc);
            },
            None => {},
        }
        j2 = j2 + 1;
    }
}

/// One mapping to make: the page of `vaddr` to the page of `paddr` with the
/// permissions `bits`.
#[derive(Clone, Copy, Debug, PartialEq, Eq, Structural)]
pub struct Mapping {
    pub vaddr: u64,
    pub paddr: u64,
    pub bits: u64,
}

/// The leaf that the indices `j` lead to once the first `n` mappings of
/// `plan` have been made one after the other; `None` where none of them is
/// for the indices `j`.
pub open spec fn planned_leaf(plan: Seq<Mapping>, n: int, j: (int, int, int)) -> Option<Entry>
    decreases n,
{
    if n <= 0 {
        None
    } else if vpn(plan[n - 1].vaddr) == j {
        Some(Entry { entry: spec_leaf_entry(plan[n - 1].paddr, plan[n - 1].bits) })
    } else {
        planned_leaf(plan, n - 1, j)
    }
}

/// Every combination of permission bits that has a name, but for the
/// valid bit, the user bit and the status bits alone, names a permission.
pub proof fn lemma_permissions()
    ensures
        EntryBits::Read.spec_val() & 0xe != 0,
        EntryBits::Write.spec_val() & 0xe != 0,
        EntryBits::Execute.spec_val() & 0xe != 0,
        EntryBits::ReadWrite.spec_val() & 0xe != 0,
        EntryBits::ReadExecute.spec_val() & 0xe != 0,
        EntryBits::ReadWriteExecute.spec_val() & 0xe != 0,
        EntryBits::UserReadWrite.spec_val() & 0xe != 0,
        EntryBits::UserReadExecute.spec_val() & 0xe != 0,
        EntryBits::UserReadWriteExecute.spec_val() & 0xe != 0,
        22u64 & 0xe != 0,
        30u64 & 0xe != 0,
{
    assert(2u64 & 0xe != 0 && 4u64 & 0xe != 0 && 8u64 & 0xe != 0 && 6u64 & 0xe != 0 && 10u64 & 0xe
        != 0 && 14u64 & 0xe != 0 && 22u64 & 0xe != 0 && 26u64 & 0xe != 0 && 30u64 & 0xe != 0)
        by (bit_vector);
}

/// `after` translates as `before` does, but for the pages of the first `n`
/// mappings of `plan`, which have been made one after the other.
pub open spec fn plan_mapped(before: Table, after: Table, plan: Seq<Mapping>, n: int) -> bool {
    &&& after.addr() == before.addr()
    &&& forall|j2: int, j1: int, j0: int|
        #[trigger] after.slot(j2, j1, j0) == match planned_leaf(plan, n, (j2, j1, j0)) {
            Some(e) => Some(e),
            None => before.slot(j2, j1, j0),
        }
}

/// One of the first `k` mappings of `plan` leads through slot `j2` of the
/// root.
pub open spec fn mid_planned(plan: Seq<Mapping>, k: int, j2: int) -> bool
    decreases k,
{
    k > 0 && (vpn(plan[k - 1].vaddr).0 == j2 || mid_planned(plan, k - 1, j2))
}

/// One of the first `k` mappings of `plan` leads through slot `j1` of the
/// level-1 table in slot `j2` of the root.
pub open spec fn leaf_planned(plan: Seq<Mapping>, k: int, j2: int, j1: int) -> bool
    decreases k,
{
    k > 0 && ((vpn(plan[k - 1].vaddr).0 == j2 && vpn(plan[k - 1].vaddr).1 == j1) || leaf_planned(
        plan,
        k - 1,
        j2,
        j1,
    ))
}

/// Index of the first of the first `k` mappings of `plan` that leads
/// through slot `j2` of the root, where there is one.
pub open spec fn first_mid(plan: Seq<Mapping>, k: int, j2: int) -> int
    decreases k,
{
    if k <= 0 {
        0
    } else if mid_planned(plan, k - 1, j2) {
        first_mid(plan, k - 1, j2)
    } else {
        k - 1
    }
}

/// Index of the first of the first `k` mappings of `plan` that leads
/// through slot `j1` of the level-1 table in slot `j2` of the root, where
/// there is one.
pub open spec fn first_leaf(plan: Seq<Mapping>, k: int, j2: int, j1: int) -> int
    decreases k,
{
    if k <= 0 {
        0
    } else if leaf_planned(plan, k - 1, j2, j1) {
        first_leaf(plan, k - 1, j2, j1)
    } else {
        k - 1
    }
}

/// Number of tables that mapping `k` of `plan` has to create when the
/// mappings before it have been made in the address space `root`.
pub open spec fn missing_at(root: Table, plan: Seq<Mapping>, k: int) -> int {
    let (i2, i1, i0) = vpn(plan[k].vaddr);
    if root.mid_addr(i2) is None && !mid_planned(plan, k, i2) {
        2
    } else if root.leaf_addr(i2, i1) is None && !leaf_planned(plan, k, i2, i1) {
        1
    } else {
        0
    }
}

/// Number of tables that the first `k` mappings of `plan` create in the
/// address space `root`.
pub open spec fn tables_for(root: Table, plan: Seq<Mapping>, k: int) -> nat
    decreases k,
{
    if k <= 0 {
        0
    } else {
        (tables_for(root, plan, k - 1) + missing_at(root, plan, k - 1)) as nat
    }
}

/// Number of mappings of `plan`, from mapping `k` on, that can be made in
/// the address space `root` with `free` free pages for tables: the index of
/// the first mapping that lacks a page for a table, or the length of the
/// plan.
pub open spec fn plan_reach(root: Table, plan: Seq<Mapping>, free: int, k: int) -> int
    decreases plan.len() - k,
{
    if k < 0 || k >= plan.len() {
        plan.len() as int
    } else if free - tables_for(root, plan, k) < missing_at(root, plan, k) {
        k
    } else {
        plan_reach(root, plan, free, k + 1)
    }
}

/// `after` is `before` with the first `k` mappings of `plan` made one after
/// the other: it translates accordingly, and each table that the mappings
/// needed stands in the page that `alloc` handed out for it, in the order
/// in which the tables were needed.
pub open spec fn plan_built(
    before: Table,
    after: Table,
    alloc: PageAllocator,
    plan: Seq<Mapping>,
    k: int,
) -> bool {
    &&& plan_mapped(before, after, plan, k)
    &&& forall|j2: int|
        #[trigger] after.mid_addr(j2) == if before.mid_addr(j2) is Some {
            before.mid_addr(j2)
        } else if 0 <= j2 < 512 && mid_planned(plan, k, j2) {
            Some(alloc.nth_page(tables_for(before, plan, first_mid(plan, k, j2))) as u64)
        } else {
            None
        }
    &&& forall|j2: int, j1: int|
        #[trigger] after.leaf_addr(j2, j1) == if before.leaf_addr(j2, j1) is Some {
            before.leaf_addr(j2, j1)
        } else if 0 <= j2 < 512 && 0 <= j1 < 512 && leaf_planned(plan, k, j2, j1) {
            let i = first_leaf(plan, k, j2, j1);
            Some(
                alloc.nth_page(
                    (tables_for(before, plan, i) + missing_at(before, plan, i) - 1) as nat,
                ) as u64,
            )
        } else {
            None
        }
}

/// `table` is an address space with its root at `root` that was built from
/// nothing by the mappings of `plan`: it translates as the plan says, and
/// its tables, `tables` in number, stand in the pages that an allocator with
/// the descriptors `pages` for the pages from `start` on handed out for
/// them, one by one in the order in which the mappings needed them.
pub open spec fn built_from_empty(
    table: Table,
    root: u64,
    start: int,
    pages: Seq<crate::page::Page>,
    plan: Seq<Mapping>,
    tables: nat,
) -> bool {
    exists|empty: Table, alloc: PageAllocator|
        #![trigger plan_built(empty, table, alloc, plan, plan.len() as int)]
        {
            &&& empty.wf()
            &&& empty.is_empty()
            &&& empty.addr() == root
            &&& alloc.start() == start
            &&& alloc.pages() == pages
            &&& plan_built(empty, table, alloc, plan, plan.len() as int)
            &&& tables == tables_for(empty, plan, plan.len() as int)
        }
}

/// The indices of an address are table indices.
pub proof fn lemma_vpn_bound(vaddr: u64)
    ensures
        0 <= vpn(vaddr).0 < 512,
        0 <= vpn(vaddr).1 < 512,
        0 <= vpn(vaddr).2 < 512,
{
    assert((vaddr >> 30) & 0x1ff < 512 && (vaddr >> 21) & 0x1ff < 512 && (vaddr >> 12) & 0x1ff
        < 512) by (bit_vector);
}

/// One more mapping of a plan. Where `cur` is `before` with the first `k`
/// mappings of `plan` made and `next` is `cur` with mapping `k` made, `next`
/// is `before` with the first `k + 1` mappings made; and mapping `k` needed
/// as many tables as the plan says.
pub proof fn lemma_plan_step(
    before: Table,
    cur: Table,
    next: Table,
    alloc: PageAllocator,
    alloc_k: PageAllocator,
    plan: Seq<Mapping>,
    k: int,
)
    requires
        before.wf(),
        0 <= k < plan.len(),
        plan_built(before, cur, alloc, plan, k),
        alloc_k.grown_from(alloc, tables_for(before, plan, k)),
        mapped(
            cur,
            next,
            alloc_k,
            plan[k].vaddr,
            Entry { entry: spec_leaf_entry(plan[k].paddr, plan[k].bits) },
        ),
    ensures
        cur.missing_tables(plan[k].vaddr) == missing_at(before, plan, k),
        plan_built(before, next, alloc, plan, k + 1),
{
    let (i2, i1, i0) = vpn(plan[k].vaddr);
    let t = tables_for(before, plan, k);
    let missing = cur.missing_tables(plan[k].vaddr);
    lemma_vpn_bound(plan[k].vaddr);
    before.lemma_structure();
    assert(cur.mid_addr(i2) is None <==> before.mid_addr(i2) is None && !mid_planned(plan, k, i2));
    assert(cur.leaf_addr(i2, i1) is None <==> before.leaf_addr(i2, i1) is None && !leaf_planned(
        plan,
        k,
        i2,
        i1,
    ));
    assert(missing == missing_at(before, plan, k));
    crate::page::lemma_pages_after_add(alloc.pages(), alloc.memory(), t, 0);
    crate::page::lemma_pages_after_add(alloc.pages(), alloc.memory(), t, 1);
    assert(alloc_k.nth_page(0) == alloc.nth_page(t));
    assert(alloc_k.nth_page(1) == alloc.nth_page(t + 1));
    assert forall|j2: int|
        #[trigger] next.mid_addr(j2) == if before.mid_addr(j2) is Some {
            before.mid_addr(j2)
        } else if 0 <= j2 < 512 && mid_planned(plan, k + 1, j2) {
            Some(alloc.nth_page(tables_for(before, plan, first_mid(plan, k + 1, j2))) as u64)
        } else {
            None
        } by {
        let c = cur.mid_addr(j2);
    }
    assert forall|j2: int, j1: int|
        #[trigger] next.leaf_addr(j2, j1) == if before.leaf_addr(j2, j1) is Some {
            before.leaf_addr(j2, j1)
        } else if 0 <= j2 < 512 && 0 <= j1 < 512 && leaf_planned(plan, k + 1, j2, j1) {
            let i = first_leaf(plan, k + 1, j2, j1);
            Some(
                alloc.nth_page(
                    (tables_for(before, plan, i) + missing_at(before, plan, i) - 1) as nat,
                ) as u64,
            )
        } else {
            None
        } by {
        let c = cur.leaf_addr(j2, j1);
    }
    assert forall|j2: int, j1: int, j0: int|
        #[trigger] next.slot(j2, j1, j0) == match planned_leaf(plan, k + 1, (j2, j1, j0)) {
            Some(e) => Some(e),
            None => before.slot(j2, j1, j0),
        } by {
        assert(cur.slot(j2, j1, j0) == match planned_leaf(plan, k, (j2, j1, j0)) {
            Some(e) => Some(e),
            None => before.slot(j2, j1, j0),
        });
    }
}

/// A mapping creates two tables at most.
pub proof fn lemma_tables_for_bound(root: Table, plan: Seq<Mapping>, k: int)
    ensures
        tables_for(root, plan, k) <= 2 * k || k < 0,
    decreases k,
{
    if k > 0 {
        lemma_tables_for_bound(root, plan, k - 1);
    }
}

/// What `map_plan` does and answers: `done` mappings of `plan` are made,
/// as many as there was room for the tables of, and `after_alloc` has handed
/// out the pages of these tables.
pub open spec fn plan_done(
    before: Table,
    after: Table,
    alloc_before: PageAllocator,
    alloc_after: PageAllocator,
    plan: Seq<Mapping>,
    done: int,
) -> bool {
    &&& done == plan_reach(before, plan, alloc_before.free_pages(), 0)
    &&& 0 <= done <= plan.len()
    &&& plan_built(before, after, alloc_before, plan, done)
    &&& alloc_after.grown_from(alloc_before, tables_for(before, plan, done))
    &&& alloc_after.free_pages() == alloc_before.free_pages() - tables_for(before, plan, done)
}

/// Makes the mappings of `plan` one after the other, until all are made or
/// one of them finds no free page for a table that it needs. The result is
/// the number of mappings that were made.
pub fn map_plan(root: &mut Table, alloc: &mut PageAllocator, plan: &Vec<Mapping>) -> (done: usize)
    requires
        old(root).wf(),
        old(alloc).wf(),
        forall|k: int| 0 <= k < plan@.len() ==> (#[trigger] plan@[k]).bits & 0xe != 0,
    ensures
        final(root).wf(),
        final(alloc).wf(),
        final(alloc).num_pages() == old(alloc).num_pages(),
        plan_done(*old(root), *final(root), *old(alloc), *final(alloc), plan@, done as int),
{
    let n = plan.len();
    let mut k: usize = 0;
    proof {
        old(root).lemma_structure();
    }
    while k < n
        invariant
            k <= n,
            n == plan@.len(),
            forall|i: int| 0 <= i < plan@.len() ==> (#[trigger] plan@[i]).bits & 0xe != 0,
            old(root).wf(),
            root.wf(),
            alloc.wf(),
            alloc.num_pages() == old(alloc).num_pages(),
            plan_built(*old(root), *root, *old(alloc), plan@, k as int),
            alloc.grown_from(*old(alloc), tables_for(*old(root), plan@, k as int)),
            alloc.free_pages() == old(alloc).free_pages() - tables_for(
                *old(root),
                plan@,
                k as int,
            ),
            plan_reach(*old(root), plan@, old(alloc).free_pages(), 0) == plan_reach(
                *old(root),
                plan@,
                old(alloc).free_pages(),
                k as int,
            ),
        decreases n - k,
    {
        let ghost cur = *root;
        let ghost alloc_k = *alloc;
        let m = plan[k];
        let ok = map(root, alloc, m.vaddr, m.paddr, m.bits);
        proof {
            if ok {
                lemma_plan_step(*old(root), cur, *root, *old(alloc), alloc_k, plan@, k as int);
                lemma_grown_twice(
                    *old(alloc),
                    alloc_k,
                    *alloc,
                    tables_for(*old(root), plan@, k as int),
                    missing_at(*old(root), plan@, k as int) as nat,
                );
            } else {
                lemma_plan_missing(*old(root), cur, *old(alloc), plan@, k as int);
            }
        }
        if !ok {
            return k;
        }
        k = k + 1;
    }
    n
}

/// The address space with the first `k` mappings of a plan made lacks as
/// many tables for mapping `k` as the plan says.
pub proof fn lemma_plan_missing(
    before: Table,
    cur: Table,
    alloc: PageAllocator,
    plan: Seq<Mapping>,
    k: int,
)
    requires
        before.wf(),
        0 <= k < plan.len(),
        plan_built(before, cur, alloc, plan, k),
    ensures
        cur.missing_tables(plan[k].vaddr) == missing_at(before, plan, k),
{
    let (i2, i1, i0) = vpn(plan[k].vaddr);
    lemma_vpn_bound(plan[k].vaddr);
    assert(cur.mid_addr(i2) is None <==> before.mid_addr(i2) is None && !mid_planned(plan, k, i2));
    assert(cur.leaf_addr(i2, i1) is None <==> before.leaf_addr(i2, i1) is None && !leaf_planned(
        plan,
        k,
        i2,
        i1,
    ));
}

/// With two free pages for each mapping, every mapping of a plan can be
/// made.
pub proof fn lemma_plan_reach_all(root: Table, plan: Seq<Mapping>, free: int, k: int)
    requires
        0 <= k <= plan.len(),
        free >= 2 * plan.len(),
    ensures
        plan_reach(root, plan, free, k) == plan.len(),
    decreases plan.len() - k,
{
    if k < plan.len() {
        lemma_tables_for_bound(root, plan, k);
        lemma_plan_reach_all(root, plan, free, k + 1);
    }
}

/// Makes the mappings of `plan` one after the other. `alloc` has to have two
/// free pages for each of them, so that none of them can fail for want of a
/// table.
pub fn map_all(root: &mut Table, alloc: &mut PageAllocator, plan: &Vec<Mapping>)
    requires
        old(root).wf(),
        old(alloc).wf(),
        old(alloc).free_pages() >= 2 * plan@.len(),
        forall|k: int| 0 <= k < plan@.len() ==> (#[trigger] plan@[k]).bits & 0xe != 0,
    ensures
        final(root).wf(),
        final(alloc).wf(),
        final(alloc).num_pages() == old(alloc).num_pages(),
        plan_built(*old(root), *final(root), *old(alloc), plan@, plan@.len() as int),
        final(alloc).grown_from(
            *old(alloc),
            tables_for(*old(root), plan@, plan@.len() as int),
        ),
        final(alloc).free_pages() == old(alloc).free_pages() - tables_for(
            *old(root),
            plan@,
            plan@.len() as int,
        ),
        tables_for(*old(root), plan@, plan@.len() as int) <= 2 * plan@.len(),
{
    proof {
        lemma_plan_reach_all(*old(root), plan@, old(alloc).free_pages(), 0);
        lemma_tables_for_bound(*old(root), plan@, plan@.len() as int);
    }
    let _ = map_plan(root, alloc, plan);
}

/// The mappings of the `n` pages from `first` on to themselves, with the
/// permissions `bits`.
pub open spec fn id_plan(first: u64, bits: u64, n: int) -> Seq<Mapping> {
    Seq::new(
        n as nat,
        |i: int|
            Mapping { vaddr: (first + i * 4096) as u64, paddr: (first + i * 4096) as u64, bits },
    )
}

/// Number of pages that `id_map_range` maps for the addresses from `start`
/// up to `end`.
pub open spec fn id_page_count(start: u64, end: u64) -> int {
    (crate::page::spec_align_val(end as int, 12) - (start - start % 4096)) / 4096
}

/// Maps every page that holds an address of `[start, end)` to itself with
/// the permissions `bits`, lowest page first. The result is true when all of
/// them were mapped. It is false when `alloc` ran out of pages for the tables
/// of one of them: the pages before it are mapped then, and nothing more.
pub fn id_map_range(
    root: &mut Table,
    alloc: &mut PageAllocator,
    start: u64,
    end: u64,
    bits: u64,
) -> (ok: bool)
    requires
        old(root).wf(),
        old(alloc).wf(),
        start <= end,
        end + 4095 <= u64::MAX,
        bits & 0xe != 0,
    ensures
        final(root).wf(),
        final(alloc).wf(),
        final(alloc).num_pages() == old(alloc).num_pages(),
        ({
            let plan = id_plan(
                (start - start % 4096) as u64,
                bits,
                id_page_count(start, end),
            );
            let done = plan_reach(*old(root), plan, old(alloc).free_pages(), 0);
            &&& ok == (done == plan.len())
            &&& plan_done(*old(root), *final(root), *old(alloc), *final(alloc), plan, done)
        }),
{
    let first: u64 = start & !0xfffu64;
    proof {
        assert(start & !0xfffu64 == start - start % 4096) by (bit_vector);
        vstd::arithmetic::power2::lemma2_to64();
        old(root).lemma_structure();
    }
    let last: u64 = crate::page::align_val(end, 12);
    let count: u64 = (last - first) / crate::page::PAGE_SIZE;
    let ghost plan = id_plan(first, bits, count as int);
    let mut memaddr: u64 = first;
    let mut k: u64 = 0;
    while k < count
        invariant
            k <= count,
            count == id_page_count(start, end),
            first == start - start % 4096,
            first + count * 4096 <= last,
            memaddr == first + k * 4096,
            bits & 0xe != 0,
            plan == id_plan(first, bits, count as int),
            old(root).wf(),
            root.wf(),
            alloc.wf(),
            alloc.num_pages() == old(alloc).num_pages(),
            plan_built(*old(root), *root, *old(alloc), plan, k as int),
            alloc.grown_from(*old(alloc), tables_for(*old(root), plan, k as int)),
            alloc.free_pages() == old(alloc).free_pages() - tables_for(*old(root), plan, k as int),
            plan_reach(*old(root), plan, old(alloc).free_pages(), 0) == plan_reach(
                *old(root),
                plan,
                old(alloc).free_pages(),
                k as int,
            ),
        decreases count - k,
    {
        let ghost cur = *root;
        let ghost alloc_k = *alloc;
        let ok = map(root, alloc, memaddr, memaddr, bits);
        proof {
            assert(plan[k as int].vaddr == memaddr && plan[k as int].paddr == memaddr
                && plan[k as int].bits == bits);
            if ok {
                lemma_plan_step(*old(root), cur, *root, *old(alloc), alloc_k, plan, k as int);
                lemma_grown_twice(
                    *old(alloc),
                    alloc_k,
                    *alloc,
                    tables_for(*old(root), plan, k as int),
                    missing_at(*old(root), plan, k as int) as nat,
                );
            } else {
                lemma_plan_missing(*old(root), cur, *old(alloc), plan, k as int);
            }
        }
        if !ok {
            return false;
        }
        memaddr = memaddr + 4096;
        k = k + 1;
    }
    true
}

/// Once the page of `vaddr` is mapped to the page of `paddr`, every address
/// `other` of that page translates to the same offset
/// in the page of `paddr`; `vaddr` itself translates to `paddr` where
/// `paddr` fits in 56 bits and has the page offset of `vaddr`. An address of
/// any other page translates as it did before: one that was never mapped is
/// still not found.
pub proof fn lemma_map_round_trip(
    before: Table,
    after: Table,
    alloc: PageAllocator,
    vaddr: u64,
    paddr: u64,
    bits: u64,
    other: u64,
)
    requires
        mapped(before, after, alloc, vaddr, Entry { entry: spec_leaf_entry(paddr, bits) }),
    ensures
        after.translate(vaddr) == Some(page_base(paddr) | (vaddr & 0xfff)),
        paddr < 0x100_0000_0000_0000 && paddr % 4096 == vaddr % 4096 ==> after.translate(vaddr)
            == Some(paddr),
        vpn(other) == vpn(vaddr) ==> after.translate(other) == Some(
            page_base(paddr) | (other & 0xfff),
        ),
        vpn(other) != vpn(vaddr) ==> after.translate(other) == before.translate(other),
        vpn(other) != vpn(vaddr) && before.translate(other) is None ==> after.translate(other)
            is None,
{
    lemma_leaf_entry(paddr, bits);
    assert(paddr < 0x100_0000_0000_0000 && paddr % 4096 == vaddr % 4096 ==> (paddr
        & 0x00ff_ffff_ffff_f000) | (vaddr & 0xfff) == paddr) by (bit_vector);
    let (i2, i1, i0) = vpn(vaddr);
    let (o2, o1, o0) = vpn(other);
    assert(after.slot(i2, i1, i0) == Some(Entry { entry: spec_leaf_entry(paddr, bits) }));
    assert(after.slot(o2, o1, o0) == if o2 == i2 && o1 == i1 && o0 == i0 {
        Some(Entry { entry: spec_leaf_entry(paddr, bits) })
    } else {
        before.slot(o2, o1, o0)
    });
}

/// Growing by `a` pages and then by `b` pages is growing by `a + b` pages.
pub proof fn lemma_grown_twice(
    first: PageAllocator,
    second: PageAllocator,
    third: PageAllocator,
    a: nat,
    b: nat,
)
    requires
        second.grown_from(first, a),
        third.grown_from(second, b),
    ensures
        third.grown_from(first, a + b),
{
    crate::page::lemma_pages_after_add(first.pages(), first.memory(), a, b);
}

/// Walks the address space for `vaddr` and returns the physical address it
/// is mapped to; `None` as soon as the walk meets an invalid entry.
pub fn virt_to_phys(root: &Table, vaddr: u64) -> (r: Option<u64>)
    requires
        root.wf(),
    ensures
        r == root.translate(vaddr),
{
    match root.find(vaddr) {
        Some(e) => Some(((e.entry << 2) & !0xfffu64) | (vaddr & 0xfff)),
        None => None,
    }
}

/// Walks the address space for an access to `vaddr` that needs the permission
/// bits `access`; `None` as soon as the walk meets an invalid entry or a leaf
/// that lacks one of the bits.
pub fn walk(root: &Table, vaddr: u64, access: u64) -> (r: Option<u64>)
    requires
        root.wf(),
    ensures
        r == root.translate_for(vaddr, access),
{
    match root.find(vaddr) {
        Some(e) => {
            if e.entry & access == access {
                Some(((e.entry << 2) & !0xfffu64) | (vaddr & 0xfff))
            } else {
                None
            }
        },
        None => None,
    }
}

} // verus!
