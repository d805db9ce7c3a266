use vstd::prelude::*;
use crate::consts::{MAX_PPN, MAX_VPN, PAGE_SIZE};
use crate::interrupt::Hart;
use crate::memory::alloc_frame;
use crate::memory::frame_allocator::SegmentTreeAllocator;
use crate::memory::phys::PhysMemory;

verus! {

/// One entry of a page table: a physical page number and the eight flags of
/// the hardware format.
#[derive(Clone, Copy, Debug, PartialEq, Eq, Structural)]
pub struct PageEntry {
    pub ppn: u64,
    pub valid: bool,
    pub readable: bool,
    pub writable: bool,
    pub executable: bool,
    pub user: bool,
    pub global: bool,
    pub accessed: bool,
    pub dirty: bool,
}

/// The 64-bit word that the hardware reads for an entry: the flags V, R, W, X,
/// U, G, A, D in bits 0 to 7, the page number from bit 10 up.
pub open spec fn entry_bits(e: PageEntry) -> u64 {
    (e.ppn << 10) | (if e.valid { 0x01u64 } else { 0 }) | (if e.readable { 0x02u64 } else { 0 }) | (if e.writable {
        0x04u64
    } else {
        0
    }) | (if e.executable { 0x08u64 } else { 0 }) | (if e.user { 0x10u64 } else { 0 }) | (if e.global {
        0x20u64
    } else {
        0
    }) | (if e.accessed { 0x40u64 } else { 0 }) | (if e.dirty { 0x80u64 } else { 0 })
}

/// The entry that a 64-bit word of the hardware format stands for.
pub open spec fn entry_of_bits(bits: u64) -> PageEntry {
    PageEntry {
        ppn: (bits >> 10) & 0xfff_ffff_ffff,
        valid: bits & 0x01 != 0,
        readable: bits & 0x02 != 0,
        writable: bits & 0x04 != 0,
        executable: bits & 0x08 != 0,
        user: bits & 0x10 != 0,
        global: bits & 0x20 != 0,
        accessed: bits & 0x40 != 0,
        dirty: bits & 0x80 != 0,
    }
}

impl PageEntry {
    /// The entry with no flag set: an unused slot.
    pub open spec fn spec_empty() -> PageEntry {
        PageEntry {
            ppn: 0,
            valid: false,
            readable: false,
            writable: false,
            executable: false,
            user: false,
            global: false,
            accessed: false,
            dirty: false,
        }
    }

    /// The leaf that `map` writes for the frame `ppn`: valid, readable,
    /// writable and executable, accessed and dirty, for the kernel only.
    pub open spec fn spec_leaf(ppn: u64) -> PageEntry {
        PageEntry {
            ppn,
            valid: true,
            readable: true,
            writable: true,
            executable: true,
            user: false,
            global: false,
            accessed: true,
            dirty: true,
        }
    }

    /// The entry that points to the table in frame `ppn`: valid, with none of
    /// R, W and X.
    pub open spec fn spec_pointer(ppn: u64) -> PageEntry {
        PageEntry {
            ppn,
            valid: true,
            readable: false,
            writable: false,
            executable: false,
            user: false,
            global: false,
            accessed: false,
            dirty: false,
        }
    }

    /// The entry ends a translation: one of R, W and X is set.
    pub open spec fn is_leaf(&self) -> bool {
        self.readable || self.writable || self.executable
    }

    /// The entry with no flag set: an unused slot.
    #[verifier::when_used_as_spec(spec_empty)]
    pub fn empty() -> (e: PageEntry)
        ensures
            e == Self::spec_empty(),
    {
        PageEntry {
            ppn: 0,
            valid: false,
            readable: false,
            writable: false,
            executable: false,
            user: false,
            global: false,
            accessed: false,
            dirty: false,
        }
    }

    /// The leaf that `map` writes for the frame `ppn`.
    #[verifier::when_used_as_spec(spec_leaf)]
    pub fn leaf(ppn: u64) -> (e: PageEntry)
        ensures
            e == Self::spec_leaf(ppn),
    {
        PageEntry {
            ppn,
            valid: true,
            readable: true,
            writable: true,
            executable: true,
            user: false,
            global: false,
            accessed: true,
            dirty: true,
        }
    }

    /// The entry that points to the table in frame `ppn`.
    #[verifier::when_used_as_spec(spec_pointer)]
    pub fn pointer(ppn: u64) -> (e: PageEntry)
        ensures
            e == Self::spec_pointer(ppn),
    {
        PageEntry {
            ppn,
            valid: true,
            readable: false,
            writable: false,
            executable: false,
            user: false,
            global: false,
            accessed: false,
            dirty: false,
        }
    }

    /// No flag is set: the slot is unused.
    pub fn is_unused(&self) -> (r: bool)
        ensures
            r == (!self.valid && !self.is_leaf() && !self.user && !self.global && !self.accessed
                && !self.dirty && self.ppn == 0),
    {
        !self.valid && !self.readable && !self.writable && !self.executable && !self.user
            && !self.global && !self.accessed && !self.dirty && self.ppn == 0
    }

    /// Writes the flag V.
    pub fn set_present(&mut self, value: bool)
        ensures
            *final(self) == (PageEntry { valid: value, ..*old(self) }),
    {
        self.valid = value;
    }

    /// Writes the flag U.
    pub fn set_user(&mut self, value: bool)
        ensures
            *final(self) == (PageEntry { user: value, ..*old(self) }),
    {
        self.user = value;
    }

    /// Writes the flag W.
    pub fn set_writable(&mut self, value: bool)
        ensures
            *final(self) == (PageEntry { writable: value, ..*old(self) }),
    {
        self.writable = value;
    }

    /// Writes the flag X.
    pub fn set_execute(&mut self, value: bool)
        ensures
            *final(self) == (PageEntry { executable: value, ..*old(self) }),
    {
        self.executable = value;
    }

    /// Physical address of the frame that the entry names.
    pub fn target(&self) -> (pa: u64)
        requires
            self.ppn < MAX_PPN,
        ensures
            pa == self.ppn * PAGE_SIZE,
    {
        self.ppn * PAGE_SIZE
    }

    /// The entry in the hardware format.
    pub fn bits(&self) -> (b: u64)
        ensures
            b == entry_bits(*self),
    {
        let mut b: u64 = self.ppn << 10;
        if self.valid {
            b = b | 0x01;
        }
        if self.readable {
            b = b | 0x02;
        }
        if self.writable {
            b = b | 0x04;
        }
        if self.executable {
            b = b | 0x08;
        }
        if self.user {
            b = b | 0x10;
        }
        if self.global {
            b = b | 0x20;
        }
        if self.accessed {
            b = b | 0x40;
        }
        if self.dirty {
            b = b | 0x80;
        }
        proof {
            let x = self.ppn << 10;
            assert(forall|y: u64| y | 0 == y) by (bit_vector);
        }
        b
    }

    /// The entry that a word of the hardware format stands for.
    pub fn from_bits(bits: u64) -> (e: PageEntry)
        ensures
            e == entry_of_bits(bits),
    {
        PageEntry {
            ppn: (bits >> 10) & 0xfff_ffff_ffff,
            valid: bits & 0x01 != 0,
            readable: bits & 0x02 != 0,
            writable: bits & 0x04 != 0,
            executable: bits & 0x08 != 0,
            user: bits & 0x10 != 0,
            global: bits & 0x20 != 0,
            accessed: bits & 0x40 != 0,
            dirty: bits & 0x80 != 0,
        }
    }
}

/// An entry whose page number has at most 44 bits is read back unchanged from
/// its hardware format.
pub proof fn lemma_entry_bits_roundtrip(e: PageEntry)
    requires
        e.ppn < MAX_PPN,
    ensures
        entry_of_bits(entry_bits(e)) == e,
{
    let p = e.ppn;
    let f: u64 = (if e.valid { 0x01u64 } else { 0 }) | (if e.readable { 0x02u64 } else { 0 }) | (if e.writable {
        0x04u64
    } else {
        0
    }) | (if e.executable { 0x08u64 } else { 0 }) | (if e.user { 0x10u64 } else { 0 }) | (if e.global {
        0x20u64
    } else {
        0
    }) | (if e.accessed { 0x40u64 } else { 0 }) | (if e.dirty { 0x80u64 } else { 0 });
    let v = e.valid;
    let r = e.readable;
    let w = e.writable;
    let x = e.executable;
    let u = e.user;
    let g = e.global;
    let a = e.accessed;
    let d = e.dirty;
    assert({
        let b = (p << 10) | (if v { 0x01u64 } else { 0 }) | (if r { 0x02u64 } else { 0 }) | (if w {
            0x04u64
        } else {
            0
        }) | (if x { 0x08u64 } else { 0 }) | (if u { 0x10u64 } else { 0 }) | (if g {
            0x20u64
        } else {
            0
        }) | (if a { 0x40u64 } else { 0 }) | (if d { 0x80u64 } else { 0 });
        &&& (b >> 10) & 0xfff_ffff_ffff == p
        &&& (b & 0x01 != 0) == v
        &&& (b & 0x02 != 0) == r
        &&& (b & 0x04 != 0) == w
        &&& (b & 0x08 != 0) == x
        &&& (b & 0x10 != 0) == u
        &&& (b & 0x20 != 0) == g
        &&& (b & 0x40 != 0) == a
        &&& (b & 0x80 != 0) == d
    }) by (bit_vector)
        requires
            p < 0x1000_0000_0000,
    ;
}


/// The virtual page number that the translation of `va` goes by: bits 12 to
/// 38 of the address.
pub open spec fn vpn_of(va: u64) -> nat {
    ((va / PAGE_SIZE) % MAX_VPN) as nat
}

/// Value of the address-translation register that selects the table rooted in
/// frame `root`: mode 8 in the top four bits, the page number below.
pub open spec fn satp_of(root: nat) -> nat {
    0x8000_0000_0000_0000 + root
}

/// A three-level page table whose nodes live in frames of a `PhysMemory`.
///
/// The table is a tree: `nodes` records, for every frame that holds one of
/// its nodes, the level of the node (2 for the root, 0 for a node of leaves)
/// and the virtual page numbers it covers, as their common prefix.
pub struct PageTableImpl {
    root: u64,
    nodes: Ghost<Map<nat, (nat, nat)>>,
}

impl PageTableImpl {
    /// Page number of the root frame.
    pub closed spec fn root_ppn(&self) -> nat {
        self.root as nat
    }

    /// The frames that hold the nodes of the table.
    pub closed spec fn frames(&self) -> Set<nat> {
        self.nodes@.dom()
    }

    spec fn slot_inv(&self, mem: &PhysMemory, f: nat, i: nat) -> bool {
        let e = mem.entry(f, i);
        e.valid && self.nodes@[f].0 > 0 ==> {
            &&& !e.is_leaf()
            &&& self.nodes@.contains_key(e.ppn as nat)
            &&& self.nodes@[e.ppn as nat] == ((self.nodes@[f].0 - 1) as nat, self.nodes@[f].1 * 512 + i)
        }
    }

    spec fn node_inv(&self, mem: &PhysMemory, f: nat) -> bool {
        &&& mem.contains(f)
        &&& self.nodes@[f].0 <= 2
        &&& forall|i: nat| i < 512 ==> #[trigger] self.slot_inv(mem, f, i)
    }

    /// The nodes of the table form a tree in `mem`: the root is a node, every
    /// node lies in `mem`, and a valid entry above the lowest level points to
    /// the one node that covers its part of the address space.
    pub closed spec fn inv(&self, mem: &PhysMemory) -> bool {
        &&& mem.wf()
        &&& self.nodes@.contains_key(self.root as nat)
        &&& self.nodes@[self.root as nat] == (2nat, 0nat)
        &&& forall|f: nat| self.nodes@.contains_key(f) ==> #[trigger] self.node_inv(mem, f)
    }

    /// No node of the table lies in a frame that `alloc` holds free, and
    /// every frame that `alloc` holds free lies in `mem`.
    pub open spec fn backed_by(&self, mem: &PhysMemory, alloc: &SegmentTreeAllocator) -> bool {
        &&& forall|f: nat| self.frames().contains(f) ==> !alloc.is_free(f)
        &&& forall|f: nat| alloc.is_free(f) ==> mem.contains(f)
    }

    /// The root points to a node for the pages `512 * 512 * q ..`.
    pub closed spec fn l1_present(&self, mem: &PhysMemory, q: nat) -> bool {
        mem.entry(self.root as nat, q).valid
    }

    /// Frame of the node to which the root points for the pages
    /// `512 * 512 * q ..`, where it points to one.
    pub closed spec fn l1_table(&self, mem: &PhysMemory, q: nat) -> nat {
        mem.entry(self.root as nat, q).ppn as nat
    }

    /// The table holds a node of leaves for the pages `512 * q ..`.
    pub closed spec fn l0_present(&self, mem: &PhysMemory, q: nat) -> bool {
        self.l1_present(mem, q / 512) && mem.entry(self.l1_table(mem, q / 512), q % 512).valid
    }

    /// Frame of the node of leaves for the pages `512 * q ..`, where the
    /// table has one.
    pub closed spec fn l0_table(&self, mem: &PhysMemory, q: nat) -> nat {
        mem.entry(self.l1_table(mem, q / 512), q % 512).ppn as nat
    }

    /// The lowest-level entry for page `vpn`, valid or not; `None` when the
    /// table has no node of leaves that covers the page.
    pub closed spec fn lookup(&self, mem: &PhysMemory, vpn: nat) -> Option<PageEntry> {
        if self.l0_present(mem, vpn / 512) {
            Some(mem.entry(self.l0_table(mem, vpn / 512), vpn % 512))
        } else {
            None
        }
    }

    /// The valid entry that translates page `vpn`, if there is one.
    pub open spec fn translate(&self, mem: &PhysMemory, vpn: nat) -> Option<PageEntry> {
        match self.lookup(mem, vpn) {
            Some(e) => if e.valid {
                Some(e)
            } else {
                None
            },
            None => None,
        }
    }

    /// The mappings of the table: from virtual page number to the valid entry
    /// that translates it.
    pub open spec fn view(&self, mem: &PhysMemory) -> Map<nat, PageEntry> {
        Map::new(
            |vpn: nat| vpn < MAX_VPN && self.translate(mem, vpn) is Some,
            |vpn: nat| self.translate(mem, vpn).unwrap(),
        )
    }

    /// Number of nodes that `map` has to add before it can write the entry of
    /// page `vpn`.
    pub open spec fn tables_needed(&self, mem: &PhysMemory, vpn: nat) -> nat {
        if !self.l1_present(mem, vpn / 262144) {
            2
        } else if !self.l0_present(mem, vpn / 512) {
            1
        } else {
            0
        }
    }

    /// A table that is well formed in `mem` lies in a well-formed memory.
    pub proof fn lemma_inv_mem(&self, mem: &PhysMemory)
        requires
            self.inv(mem),
        ensures
            mem.wf(),
            mem.contains(self.root_ppn()),
            self.frames().contains(self.root_ppn()),
            forall|f: nat| self.frames().contains(f) ==> mem.contains(f),
    {
        assert forall|f: nat| self.frames().contains(f) implies mem.contains(f) by {
            assert(self.node_inv(mem, f));
        }
    }

    /// A node of leaves exists only below a node that the root points to.
    pub proof fn lemma_l0_below_l1(&self, mem: &PhysMemory, q: nat)
        ensures
            self.l0_present(mem, q) ==> self.l1_present(mem, q / 512),
            forall|vpn: nat| self.lookup(mem, vpn) is Some <==> self.l0_present(mem, vpn / 512),
    {
    }

    proof fn lemma_path(&self, mem: &PhysMemory, q: nat)
        requires
            self.inv(mem),
            q < 262144,
        ensures
            self.l1_present(mem, q / 512) ==> {
                &&& self.nodes@.contains_key(self.l1_table(mem, q / 512))
                &&& self.nodes@[self.l1_table(mem, q / 512)] == (1nat, q / 512)
                &&& mem.contains(self.l1_table(mem, q / 512))
            },
            self.l0_present(mem, q) ==> {
                &&& self.nodes@.contains_key(self.l0_table(mem, q))
                &&& self.nodes@[self.l0_table(mem, q)] == (0nat, q)
                &&& mem.contains(self.l0_table(mem, q))
            },
    {
        let root = self.root as nat;
        assert(self.node_inv(mem, root));
        assert(self.slot_inv(mem, root, q / 512));
        if self.l1_present(mem, q / 512) {
            let t1 = self.l1_table(mem, q / 512);
            assert(self.node_inv(mem, t1));
            assert(self.slot_inv(mem, t1, q % 512));
            if self.l0_present(mem, q) {
                let t0 = self.l0_table(mem, q);
                assert(self.node_inv(mem, t0));
            }
        }
    }
}


/// What one write to the slot `idx` of the node in frame `parent` leaves as it
/// was: the nodes that the table had, and every other slot of theirs. A node
/// that the table gains starts out with every slot unused.
spec fn step(
    p0: &PageTableImpl,
    m0: &PhysMemory,
    p1: &PageTableImpl,
    m1: &PhysMemory,
    parent: nat,
    idx: nat,
) -> bool {
    &&& p1.root == p0.root
    &&& m1.same_pages(m0)
    &&& forall|f: nat| #[trigger]
        p0.nodes@.contains_key(f) ==> p1.nodes@.contains_key(f) && p1.nodes@[f] == p0.nodes@[f]
    &&& forall|f: nat, i: nat|
        p0.nodes@.contains_key(f) && i < 512 && !(f == parent && i == idx) ==> #[trigger] m1.entry(
            f,
            i,
        ) == m0.entry(f, i)
    &&& forall|f: nat, i: nat|
        p1.nodes@.contains_key(f) && !p0.nodes@.contains_key(f) && i < 512 ==> #[trigger] m1.entry(
            f,
            i,
        ) == PageEntry::empty()
}

proof fn lemma_step_root(
    p0: &PageTableImpl,
    m0: &PhysMemory,
    p1: &PageTableImpl,
    m1: &PhysMemory,
    i2: nat,
)
    requires
        p0.inv(m0),
        p1.inv(m1),
        step(p0, m0, p1, m1, p0.root as nat, i2),
        i2 < 512,
        !m0.entry(p0.root as nat, i2).valid,
        m1.entry(p0.root as nat, i2).valid,
        !p0.nodes@.contains_key(m1.entry(p0.root as nat, i2).ppn as nat),
    ensures
        forall|q: nat| q < 512 ==> (p1.l1_present(m1, q) <==> (p0.l1_present(m0, q) || q == i2)),
        forall|q: nat| q < 262144 ==> (p1.l0_present(m1, q) <==> p0.l0_present(m0, q)),
        forall|v: nat| v < MAX_VPN ==> p1.lookup(m1, v) == p0.lookup(m0, v),
{
    let root = p0.root as nat;
    assert forall|q: nat| q < 262144 implies (p1.l0_present(m1, q) <==> p0.l0_present(m0, q)) && (
    p0.l0_present(m0, q) ==> p1.l0_table(m1, q) == p0.l0_table(m0, q) && forall|i: nat|
        i < 512 ==> m1.entry(p1.l0_table(m1, q), i) == m0.entry(p0.l0_table(m0, q), i)) by {
        p0.lemma_path(m0, q);
        p1.lemma_path(m1, q);
        if q / 512 == i2 {
            let f = m1.entry(root, i2).ppn as nat;
            assert(m1.entry(f, q % 512) == PageEntry::empty());
        } else {
            assert(m1.entry(root, q / 512) == m0.entry(root, q / 512));
            if p0.l1_present(m0, q / 512) {
                let t1 = p0.l1_table(m0, q / 512);
                assert(m1.entry(t1, q % 512) == m0.entry(t1, q % 512));
                if p0.l0_present(m0, q) {
                    let t0 = p0.l0_table(m0, q);
                    assert forall|i: nat| i < 512 implies m1.entry(t0, i) == m0.entry(t0, i) by {}
                }
            }
        }
    }
    assert forall|v: nat| v < MAX_VPN implies p1.lookup(m1, v) == p0.lookup(m0, v) by {
        let q = v / 512;
        assert(q < 262144);
        if p0.l0_present(m0, q) {
            assert(m1.entry(p1.l0_table(m1, q), v % 512) == m0.entry(p0.l0_table(m0, q), v % 512));
        }
    }
    assert forall|q: nat| q < 512 implies (p1.l1_present(m1, q) <==> (p0.l1_present(m0, q) || q
        == i2)) by {
        if q != i2 {
            assert(m1.entry(root, q) == m0.entry(root, q));
        }
    }
}

proof fn lemma_step_mid(
    p0: &PageTableImpl,
    m0: &PhysMemory,
    p1: &PageTableImpl,
    m1: &PhysMemory,
    q0: nat,
)
    requires
        p0.inv(m0),
        p1.inv(m1),
        q0 < 262144,
        p0.l1_present(m0, q0 / 512),
        step(p0, m0, p1, m1, p0.l1_table(m0, q0 / 512), q0 % 512),
        !p0.l0_present(m0, q0),
        m1.entry(p0.l1_table(m0, q0 / 512), q0 % 512).valid,
        !p0.nodes@.contains_key(m1.entry(p0.l1_table(m0, q0 / 512), q0 % 512).ppn as nat),
    ensures
        forall|q: nat| q < 512 ==> (p1.l1_present(m1, q) <==> p0.l1_present(m0, q)),
        forall|q: nat| q < 262144 ==> (p1.l0_present(m1, q) <==> (p0.l0_present(m0, q) || q == q0)),
        forall|v: nat| v < MAX_VPN && v / 512 != q0 ==> p1.lookup(m1, v) == p0.lookup(m0, v),
        forall|v: nat|
            v < MAX_VPN && v / 512 == q0 ==> p1.lookup(m1, v) == Some(PageEntry::empty())
                && p0.lookup(m0, v) is None,
{
    let root = p0.root as nat;
    let t1 = p0.l1_table(m0, q0 / 512);
    p0.lemma_path(m0, q0);
    assert(t1 != root);
    assert forall|q: nat| q < 512 implies m1.entry(root, q) == m0.entry(root, q) by {}
    assert forall|q: nat| q < 262144 implies (p1.l0_present(m1, q) <==> (p0.l0_present(m0, q) || q
        == q0)) && (p0.l0_present(m0, q) ==> p1.l0_table(m1, q) == p0.l0_table(m0, q) && forall|
        i: nat,
    |
        i < 512 ==> m1.entry(p1.l0_table(m1, q), i) == m0.entry(p0.l0_table(m0, q), i)) && (q == q0
        ==> forall|i: nat| i < 512 ==> m1.entry(p1.l0_table(m1, q), i) == PageEntry::empty()) by {
        p0.lemma_path(m0, q);
        p1.lemma_path(m1, q);
        assert(m1.entry(root, q / 512) == m0.entry(root, q / 512));
        if q == q0 {
            let f = m1.entry(t1, q0 % 512).ppn as nat;
            assert forall|i: nat| i < 512 implies m1.entry(f, i) == PageEntry::empty() by {}
        } else if p0.l1_present(m0, q / 512) {
            let u1 = p0.l1_table(m0, q / 512);
            if u1 == t1 {
                assert(q / 512 == q0 / 512);
                assert(q % 512 != q0 % 512);
            }
            assert(m1.entry(u1, q % 512) == m0.entry(u1, q % 512));
            if p0.l0_present(m0, q) {
                let t0 = p0.l0_table(m0, q);
                assert(t0 != t1);
                assert forall|i: nat| i < 512 implies m1.entry(t0, i) == m0.entry(t0, i) by {}
            }
        }
    }
    assert forall|v: nat| v < MAX_VPN && v / 512 != q0 implies p1.lookup(m1, v) == p0.lookup(
        m0,
        v,
    ) by {
        let q = v / 512;
        assert(q < 262144);
        if p0.l0_present(m0, q) {
            assert(m1.entry(p1.l0_table(m1, q), v % 512) == m0.entry(p0.l0_table(m0, q), v % 512));
        }
    }
    assert forall|v: nat| v < MAX_VPN && v / 512 == q0 implies p1.lookup(m1, v) == Some(
        PageEntry::empty(),
    ) && p0.lookup(m0, v) is None by {
        assert(m1.entry(p1.l0_table(m1, q0), v % 512) == PageEntry::empty());
    }
}

proof fn lemma_step_leaf(
    p0: &PageTableImpl,
    m0: &PhysMemory,
    p1: &PageTableImpl,
    m1: &PhysMemory,
    vpn: nat,
)
    requires
        p0.inv(m0),
        vpn < MAX_VPN,
        p0.l0_present(m0, vpn / 512),
        step(p0, m0, p1, m1, p0.l0_table(m0, vpn / 512), vpn % 512),
        p1.nodes@ == p0.nodes@,
        m1.wf(),
    ensures
        p1.inv(m1),
        forall|q: nat| q < 512 ==> (p1.l1_present(m1, q) <==> p0.l1_present(m0, q)),
        forall|q: nat| q < 262144 ==> (p1.l0_present(m1, q) <==> p0.l0_present(m0, q)),
        forall|v: nat| v < MAX_VPN && v != vpn ==> p1.lookup(m1, v) == p0.lookup(m0, v),
        p1.lookup(m1, vpn) == Some(m1.entry(p0.l0_table(m0, vpn / 512), vpn % 512)),
{
    let root = p0.root as nat;
    let t0 = p0.l0_table(m0, vpn / 512);
    p0.lemma_path(m0, vpn / 512);
    assert(t0 != root);
    assert forall|q: nat| q < 512 implies m1.entry(root, q) == m0.entry(root, q) by {}
    assert forall|f: nat| p1.nodes@.contains_key(f) implies #[trigger] p1.node_inv(m1, f) by {
        assert(p0.node_inv(m0, f));
        assert forall|i: nat| i < 512 implies #[trigger] p1.slot_inv(m1, f, i) by {
            assert(p0.slot_inv(m0, f, i));
        }
    }
    assert forall|q: nat| q < 262144 implies (p1.l0_present(m1, q) <==> p0.l0_present(m0, q)) && (
    p0.l1_present(m0, q / 512) ==> p1.l0_table(m1, q) == p0.l0_table(m0, q)) by {
        p0.lemma_path(m0, q);
        assert(m1.entry(root, q / 512) == m0.entry(root, q / 512));
        if p0.l1_present(m0, q / 512) {
            let u1 = p0.l1_table(m0, q / 512);
            assert(u1 != t0);
            assert(m1.entry(u1, q % 512) == m0.entry(u1, q % 512));
        }
    }
    assert forall|v: nat| v < MAX_VPN && v != vpn implies p1.lookup(m1, v) == p0.lookup(m0, v) by {
        let q = v / 512;
        assert(q < 262144);
        p0.lemma_path(m0, q);
        if p0.l0_present(m0, q) {
            let u0 = p0.l0_table(m0, q);
            if u0 == t0 {
                assert(q == vpn / 512);
                assert(v % 512 != vpn % 512);
            }
            assert(m1.entry(u0, v % 512) == m0.entry(u0, v % 512));
        }
    }
    assert(vpn / 512 < 262144);
}


impl PageTableImpl {
    /// A table with a root node in a fresh frame and no mapping.
    pub fn new_bare(mem: &mut PhysMemory, alloc: &mut SegmentTreeAllocator) -> (pt: PageTableImpl)
        requires
            old(mem).wf(),
            old(alloc).wf(),
            old(alloc).free_set().len() >= 1,
            forall|f: nat| old(alloc).is_free(f) ==> old(mem).contains(f),
        ensures
            pt.inv(final(mem)),
            final(alloc).wf(),
            pt.backed_by(final(mem), final(alloc)),
            final(alloc).lo() == old(alloc).lo(),
            final(alloc).hi() == old(alloc).hi(),
            old(alloc).is_free(pt.root_ppn()),
            forall|q: nat| q < pt.root_ppn() ==> !old(alloc).is_free(q),
            forall|q: nat| final(alloc).is_free(q) <==> (old(alloc).is_free(q) && q != pt.root_ppn()),
            final(alloc).free_set().len() == old(alloc).free_set().len() - 1,
            pt.frames() == set![pt.root_ppn()],
            pt.view(final(mem)) == Map::<nat, PageEntry>::empty(),
            forall|q: nat| q < 512 ==> !pt.l1_present(final(mem), q),
            forall|q: nat| q < 262144 ==> !pt.l0_present(final(mem), q),
            final(mem).same_pages(old(mem)),
            forall|p: nat, i: nat|
                final(mem).contains(p) && i < 512 && p != pt.root_ppn()
                    ==> #[trigger] final(mem).entry(p, i) == old(mem).entry(p, i),
    {
        let frame = alloc_frame(alloc).unwrap();
        let root = frame.number();
        mem.zero_table(root);
        let pt = PageTableImpl { root, nodes: Ghost(Map::empty().insert(root as nat, (2nat, 0nat))) };
        proof {
            assert forall|f: nat| pt.nodes@.contains_key(f) implies #[trigger] pt.node_inv(
                mem,
                f,
            ) by {
                assert forall|i: nat| i < 512 implies #[trigger] pt.slot_inv(mem, f, i) by {
                    assert(mem.entry(f, i) == PageEntry::empty());
                }
            }
            assert(pt.frames() =~= set![pt.root_ppn()]);
            assert forall|q: nat| q < 512 implies !pt.l1_present(mem, q) by {
                assert(mem.entry(root as nat, q) == PageEntry::empty());
            }
            assert forall|q: nat| q < 262144 implies !pt.l0_present(mem, q) by {
                assert(!pt.l1_present(mem, q / 512));
            }
            assert forall|v: nat| v < MAX_VPN implies pt.translate(mem, v) is None by {
                assert(!pt.l0_present(mem, v / 512));
            }
            assert(pt.view(mem) =~= Map::<nat, PageEntry>::empty());
        }
        pt
    }

    /// Value of the address-translation register that selects this table.
    pub fn token(&self, mem: &PhysMemory) -> (satp: u64)
        requires
            self.inv(mem),
        ensures
            satp == satp_of(self.root_ppn()),
    {
        proof {
            assert(self.node_inv(mem, self.root as nat));
            mem.lemma_bounds();
        }
        0x8000_0000_0000_0000u64 + self.root
    }

    /// Makes this table the one that the hart translates addresses by.
    pub fn activate(&self, mem: &PhysMemory, hart: &mut Hart)
        requires
            self.inv(mem),
        ensures
            final(hart).satp == satp_of(self.root_ppn()),
            final(hart).sstatus == old(hart).sstatus,
            final(hart).sscratch == old(hart).sscratch,
            final(hart).stvec == old(hart).stvec,
            final(hart).sie == old(hart).sie,
    {
        hart.satp = self.token(mem);
    }

    /// The frames of the nodes through which the page of `va` is
    /// translated: the root, the node of the middle level and the node of
    /// leaves, as far as the table has them.
    pub fn path(&self, mem: &PhysMemory, va: u64) -> (r: (u64, Option<u64>, Option<u64>))
        requires
            self.inv(mem),
        ensures
            r.0 == self.root_ppn(),
            r.1 is Some <==> self.l1_present(mem, vpn_of(va) / 262144),
            r.1 matches Some(t) ==> t == self.l1_table(mem, vpn_of(va) / 262144)
                && self.frames().contains(t as nat) && mem.contains(t as nat),
            r.2 is Some <==> self.l0_present(mem, vpn_of(va) / 512),
            r.2 matches Some(t) ==> t == self.l0_table(mem, vpn_of(va) / 512)
                && self.frames().contains(t as nat) && mem.contains(t as nat),
    {
        let vpn: u64 = (va / PAGE_SIZE) % MAX_VPN;
        proof {
            self.lemma_path(mem, vpn as nat / 512);
            assert(self.node_inv(mem, self.root as nat));
            assert((vpn as nat / 512) / 512 == vpn as nat / 262144);
        }
        let e2 = mem.read_entry(self.root, (vpn / 262144) as usize);
        if !e2.valid {
            return (self.root, None, None);
        }
        let e1 = mem.read_entry(e2.ppn, ((vpn / 512) % 512) as usize);
        if !e1.valid {
            return (self.root, Some(e2.ppn), None);
        }
        (self.root, Some(e2.ppn), Some(e1.ppn))
    }

    /// Frame of the node of leaves that covers page `vpn`, if the table has
    /// one.
    fn leaf_table(&self, mem: &PhysMemory, vpn: u64) -> (r: Option<u64>)
        requires
            self.inv(mem),
            vpn < MAX_VPN,
        ensures
            r is Some <==> self.l0_present(mem, vpn as nat / 512),
            r matches Some(t0) ==> t0 == self.l0_table(mem, vpn as nat / 512) && mem.contains(
                t0 as nat,
            ) && self.nodes@.contains_key(t0 as nat),
    {
        proof {
            self.lemma_path(mem, vpn as nat / 512);
            assert(self.node_inv(mem, self.root as nat));
        }
        let i2: usize = (vpn / 262144) as usize;
        let i1: usize = ((vpn / 512) % 512) as usize;
        let e2 = mem.read_entry(self.root, i2);
        if !e2.valid {
            return None;
        }
        let e1 = mem.read_entry(e2.ppn, i1);
        if !e1.valid {
            return None;
        }
        Some(e1.ppn)
    }

    /// The lowest-level entry for the page of `va`, valid or not; `None` when
    /// the table has no node of leaves that covers the page.
    pub fn get_entry(&self, mem: &PhysMemory, va: u64) -> (r: Option<PageEntry>)
        requires
            self.inv(mem),
        ensures
            r == self.lookup(mem, vpn_of(va)),
    {
        let vpn: u64 = (va / PAGE_SIZE) % MAX_VPN;
        match self.leaf_table(mem, vpn) {
            Some(t0) => Some(mem.read_entry(t0, (vpn % 512) as usize)),
            None => None,
        }
    }

    /// The node below slot `idx` of the node in frame `parent`; where the slot
    /// is unused, a fresh frame is taken for the node first.
    fn ensure_child(
        &mut self,
        mem: &mut PhysMemory,
        alloc: &mut SegmentTreeAllocator,
        parent: u64,
        idx: usize,
    ) -> (child: u64)
        requires
            old(self).inv(old(mem)),
            old(alloc).wf(),
            old(self).backed_by(old(mem), old(alloc)),
            old(self).nodes@.contains_key(parent as nat),
            old(self).nodes@[parent as nat].0 > 0,
            idx < 512,
            !old(mem).entry(parent as nat, idx as nat).valid ==> old(alloc).free_set().len() >= 1,
        ensures
            final(self).inv(final(mem)),
            final(alloc).wf(),
            final(self).backed_by(final(mem), final(alloc)),
            final(alloc).lo() == old(alloc).lo(),
            final(alloc).hi() == old(alloc).hi(),
            step(old(self), old(mem), final(self), final(mem), parent as nat, idx as nat),
            final(mem).entry(parent as nat, idx as nat).valid,
            child == final(mem).entry(parent as nat, idx as nat).ppn,
            old(mem).entry(parent as nat, idx as nat).valid ==> {
                &&& final(mem).same_tables(old(mem))
                &&& final(self).nodes@ == old(self).nodes@
                &&& forall|q: nat| final(alloc).is_free(q) <==> old(alloc).is_free(q)
                &&& final(alloc).free_set().len() == old(alloc).free_set().len()
            },
            !old(mem).entry(parent as nat, idx as nat).valid ==> {
                &&& old(alloc).is_free(child as nat)
                &&& !old(self).nodes@.contains_key(child as nat)
                &&& final(self).nodes@ == old(self).nodes@.insert(
                    child as nat,
                    (
                        (old(self).nodes@[parent as nat].0 - 1) as nat,
                        (old(self).nodes@[parent as nat].1 * 512 + idx) as nat,
                    ),
                )
                &&& forall|q: nat| final(alloc).is_free(q) <==> (old(alloc).is_free(q) && q != child)
                &&& final(alloc).free_set().len() == old(alloc).free_set().len() - 1
            },
            forall|p: nat, i: nat|
                final(mem).contains(p) && i < 512 && !final(self).nodes@.contains_key(p)
                    ==> #[trigger] final(mem).entry(p, i) == old(mem).entry(p, i),
    {
        proof {
            assert(self.node_inv(mem, parent as nat));
            assert(self.slot_inv(mem, parent as nat, idx as nat));
        }
        let e = mem.read_entry(parent, idx);
        if e.valid {
            proof {
                assert(final(alloc).free_set() =~= old(alloc).free_set());
            }
            return e.ppn;
        }
        let frame = alloc_frame(alloc).unwrap();
        let child = frame.number();
        mem.zero_table(child);
        let ghost mid = *mem;
        mem.write_entry(parent, idx, PageEntry::pointer(child));
        proof {
            assert(mem.same_pages(old(mem))) by {
                assert forall|ppn: nat, off: nat| mem.contains(ppn) && off < 4096 implies #[trigger] mem.byte(
                    ppn,
                    off,
                ) == old(mem).byte(ppn, off) by {
                    assert(mem.byte(ppn, off) == mid.byte(ppn, off));
                    assert(mid.byte(ppn, off) == old(mem).byte(ppn, off));
                }
            }
            assert forall|f: nat, i: nat|
                old(self).nodes@.contains_key(f) && i < 512 && !(f == parent && i == idx) implies #[trigger] mem.entry(
                f,
                i,
            ) == old(mem).entry(f, i) by {
                assert(old(self).node_inv(old(mem), f));
                assert(mem.entry(f, i) == mid.entry(f, i));
                assert(mid.entry(f, i) == old(mem).entry(f, i));
            }
            assert forall|i: nat| i < 512 implies #[trigger] mem.entry(child as nat, i)
                == PageEntry::empty() by {
                assert(mem.entry(child as nat, i) == mid.entry(child as nat, i));
            }
            assert forall|p: nat, i: nat|
                mem.contains(p) && i < 512 && p != child && !(p == parent && i == idx) implies #[trigger] mem.entry(
                p,
                i,
            ) == old(mem).entry(p, i) by {
                assert(mem.entry(p, i) == mid.entry(p, i));
                assert(mid.entry(p, i) == old(mem).entry(p, i));
            }
            let level = (self.nodes@[parent as nat].0 - 1) as nat;
            let prefix = (self.nodes@[parent as nat].1 * 512 + idx) as nat;
            assert(!self.nodes@.contains_key(child as nat));
            self.nodes = Ghost(self.nodes@.insert(child as nat, (level, prefix)));
            assert forall|f: nat| self.nodes@.contains_key(f) implies #[trigger] self.node_inv(
                mem,
                f,
            ) by {
                if f == child {
                    assert forall|i: nat| i < 512 implies #[trigger] self.slot_inv(mem, f, i) by {
                        assert(mem.entry(f, i) == PageEntry::empty());
                    }
                } else {
                    assert(old(self).node_inv(old(mem), f));
                    assert forall|i: nat| i < 512 implies #[trigger] self.slot_inv(mem, f, i) by {
                        assert(old(self).slot_inv(old(mem), f, i));
                        if !(f == parent && i == idx) {
                            assert(mem.entry(f, i) == old(mem).entry(f, i));
                        }
                    }
                }
            }
        }
        child
    }
}


proof fn lemma_same(p0: &PageTableImpl, m0: &PhysMemory, p1: &PageTableImpl, m1: &PhysMemory)
    requires
        p0.inv(m0),
        p1.root == p0.root,
        m1.same_tables(m0),
    ensures
        forall|q: nat| q < 512 ==> (p1.l1_present(m1, q) <==> p0.l1_present(m0, q)),
        forall|q: nat| q < 262144 ==> (p1.l0_present(m1, q) <==> p0.l0_present(m0, q)),
        forall|q: nat|
            q < 262144 && p0.l1_present(m0, q / 512) ==> p1.l0_table(m1, q) == p0.l0_table(m0, q),
        forall|q: nat| q < 512 ==> p1.l1_table(m1, q) == p0.l1_table(m0, q),
        forall|v: nat| v < MAX_VPN ==> p1.lookup(m1, v) == p0.lookup(m0, v),
{
    let root = p0.root as nat;
    assert(p0.node_inv(m0, root));
    assert forall|q: nat| q < 512 implies m1.entry(root, q) == m0.entry(root, q) by {}
    assert forall|q: nat| q < 262144 implies (p1.l0_present(m1, q) <==> p0.l0_present(m0, q)) && (
    p0.l1_present(m0, q / 512) ==> p1.l0_table(m1, q) == p0.l0_table(m0, q)) by {
        p0.lemma_path(m0, q);
        assert(m1.entry(root, q / 512) == m0.entry(root, q / 512));
        if p0.l1_present(m0, q / 512) {
            let t1 = p0.l1_table(m0, q / 512);
            assert(m1.entry(t1, q % 512) == m0.entry(t1, q % 512));
        }
    }
    assert forall|v: nat| v < MAX_VPN implies p1.lookup(m1, v) == p0.lookup(m0, v) by {
        let q = v / 512;
        assert(q < 262144);
        p0.lemma_path(m0, q);
        if p0.l0_present(m0, q) {
            let t0 = p0.l0_table(m0, q);
            assert(m1.entry(t0, v % 512) == m0.entry(t0, v % 512));
        }
    }
}

impl PageTableImpl {
    /// Maps the page of `va` to the frame of `pa`, adding the nodes that the
    /// path to the entry still lacks, and returns the entry written.
    pub fn map(
        &mut self,
        mem: &mut PhysMemory,
        alloc: &mut SegmentTreeAllocator,
        va: u64,
        pa: u64,
    ) -> (e: PageEntry)
        requires
            old(self).inv(old(mem)),
            old(alloc).wf(),
            old(self).backed_by(old(mem), old(alloc)),
            old(alloc).free_set().len() >= old(self).tables_needed(old(mem), vpn_of(va)),
        ensures
            final(self).inv(final(mem)),
            final(alloc).wf(),
            final(self).backed_by(final(mem), final(alloc)),
            final(alloc).lo() == old(alloc).lo(),
            final(alloc).hi() == old(alloc).hi(),
            final(self).root_ppn() == old(self).root_ppn(),
            e == PageEntry::leaf(pa / PAGE_SIZE),
            final(self).lookup(final(mem), vpn_of(va)) == Some(e),
            final(self).view(final(mem)) == old(self).view(old(mem)).insert(vpn_of(va), e),
            forall|q: nat|
                q < 512 ==> (final(self).l1_present(final(mem), q) <==> (old(self).l1_present(
                    old(mem),
                    q,
                ) || q == vpn_of(va) / 262144)),
            forall|q: nat|
                q < 262144 ==> (final(self).l0_present(final(mem), q) <==> (old(self).l0_present(
                    old(mem),
                    q,
                ) || q == vpn_of(va) / 512)),
            final(alloc).free_set().len() == old(alloc).free_set().len() - old(self).tables_needed(
                old(mem),
                vpn_of(va),
            ),
            forall|f: nat| final(alloc).is_free(f) ==> old(alloc).is_free(f),
            forall|f: nat| #[trigger]
                old(self).frames().contains(f) ==> final(self).frames().contains(f),
            forall|f: nat| #[trigger]
                final(self).frames().contains(f) ==> old(self).frames().contains(f) || (old(alloc).is_free(f)
                    && !final(alloc).is_free(f)),
            forall|f: nat|
                old(alloc).is_free(f) && !#[trigger] final(alloc).is_free(f) ==> final(self).frames().contains(f),
            final(mem).same_pages(old(mem)),
            forall|p: nat, i: nat|
                final(mem).contains(p) && i < 512 && !final(self).frames().contains(p)
                    ==> #[trigger] final(mem).entry(p, i) == old(mem).entry(p, i),
    {
        let vpn: u64 = (va / PAGE_SIZE) % MAX_VPN;
        let i2: usize = (vpn / 262144) as usize;
        let i1: usize = ((vpn / 512) % 512) as usize;
        let i0: usize = (vpn % 512) as usize;
        let ghost q0 = vpn as nat / 512;
        let ghost p0 = *self;
        let ghost m0 = *mem;
        proof {
            assert(q0 / 512 == i2 && q0 % 512 == i1);
            assert(self.node_inv(mem, self.root as nat));
        }
        let root = self.root;
        let t1 = self.ensure_child(mem, alloc, root, i2);
        let ghost p1 = *self;
        let ghost m1 = *mem;
        proof {
            if m0.entry(root as nat, i2 as nat).valid {
                lemma_same(&p0, &m0, &p1, &m1);
            } else {
                lemma_step_root(&p0, &m0, &p1, &m1, i2 as nat);
                assert(m1.entry(t1 as nat, i1 as nat) == PageEntry::empty());
            }
            assert(p1.node_inv(&m1, root as nat));
            assert(p1.slot_inv(&m1, root as nat, i2 as nat));
            assert(p1.l1_present(&m1, q0 / 512));
            assert(t1 == p1.l1_table(&m1, q0 / 512));
        }
        let t0 = self.ensure_child(mem, alloc, t1, i1);
        let ghost p2 = *self;
        let ghost m2 = *mem;
        proof {
            if m1.entry(t1 as nat, i1 as nat).valid {
                lemma_same(&p1, &m1, &p2, &m2);
            } else {
                lemma_step_mid(&p1, &m1, &p2, &m2, q0);
            }
            assert(p2.l1_present(&m2, q0 / 512));
            assert(p2.l0_present(&m2, q0));
            p2.lemma_path(&m2, q0);
            assert(m2.entry(root as nat, i2 as nat) == m1.entry(root as nat, i2 as nat)) by {
                p1.lemma_path(&m1, q0);
            }
            assert(t0 == p2.l0_table(&m2, q0));
        }
        let e = PageEntry::leaf(pa / PAGE_SIZE);
        mem.write_entry(t0, i0, e);
        proof {
            assert(step(&p2, &m2, self, mem, t0 as nat, i0 as nat)) by {
                assert forall|f: nat, i: nat|
                    p2.nodes@.contains_key(f) && i < 512 && !(f == t0 && i == i0) implies #[trigger] mem.entry(
                    f,
                    i,
                ) == m2.entry(f, i) by {
                    assert(p2.node_inv(&m2, f));
                }
            }
            lemma_step_leaf(&p2, &m2, self, mem, vpn as nat);
            assert forall|v: nat| v < MAX_VPN implies self.translate(mem, v) == (if v == vpn {
                Some(e)
            } else {
                p0.translate(&m0, v)
            }) by {}
            assert(self.view(mem) =~= p0.view(&m0).insert(vpn as nat, e));
            assert(mem.same_pages(&m0)) by {
                assert forall|ppn: nat, off: nat| mem.contains(ppn) && off < 4096 implies #[trigger] mem.byte(
                    ppn,
                    off,
                ) == m0.byte(ppn, off) by {
                    assert(mem.byte(ppn, off) == m2.byte(ppn, off));
                    assert(m2.byte(ppn, off) == m1.byte(ppn, off));
                    assert(m1.byte(ppn, off) == m0.byte(ppn, off));
                }
            }
            assert forall|p: nat, i: nat|
                mem.contains(p) && i < 512 && !self.frames().contains(p) implies #[trigger] mem.entry(
                p,
                i,
            ) == m0.entry(p, i) by {
                assert(mem.entry(p, i) == m2.entry(p, i));
                assert(m2.entry(p, i) == m1.entry(p, i));
                assert(m1.entry(p, i) == m0.entry(p, i));
            }
        }
        e
    }

    /// Writes `e` as the lowest-level entry for the page of `va`.
    pub fn set_entry(&self, mem: &mut PhysMemory, va: u64, e: PageEntry)
        requires
            self.inv(old(mem)),
            self.lookup(old(mem), vpn_of(va)) is Some,
        ensures
            self.inv(final(mem)),
            self.lookup(final(mem), vpn_of(va)) == Some(e),
            forall|v: nat|
                v < MAX_VPN && v != vpn_of(va) ==> self.lookup(final(mem), v) == self.lookup(
                    old(mem),
                    v,
                ),
            e.valid ==> self.view(final(mem)) == self.view(old(mem)).insert(vpn_of(va), e),
            !e.valid ==> self.view(final(mem)) == self.view(old(mem)).remove(vpn_of(va)),
            forall|q: nat|
                q < 512 ==> (self.l1_present(final(mem), q) <==> self.l1_present(old(mem), q)),
            forall|q: nat|
                q < 262144 ==> (self.l0_present(final(mem), q) <==> self.l0_present(old(mem), q)),
            final(mem).same_pages(old(mem)),
            forall|p: nat, i: nat|
                final(mem).contains(p) && i < 512 && !self.frames().contains(p)
                    ==> #[trigger] final(mem).entry(p, i) == old(mem).entry(p, i),
    {
        let vpn: u64 = (va / PAGE_SIZE) % MAX_VPN;
        let ghost m0 = *mem;
        let t0 = self.leaf_table(mem, vpn).unwrap();
        mem.write_entry(t0, (vpn % 512) as usize, e);
        proof {
            assert(step(self, &m0, self, mem, t0 as nat, vpn as nat % 512)) by {
                assert forall|f: nat, i: nat|
                    self.nodes@.contains_key(f) && i < 512 && !(f == t0 && i == vpn as nat % 512) implies #[trigger] mem.entry(
                    f,
                    i,
                ) == m0.entry(f, i) by {
                    assert(self.node_inv(&m0, f));
                }
            }
            lemma_step_leaf(self, &m0, self, mem, vpn as nat);
            if e.valid {
                assert(self.view(mem) =~= self.view(&m0).insert(vpn as nat, e));
            } else {
                assert(self.view(mem) =~= self.view(&m0).remove(vpn as nat));
            }
        }
    }

    /// Clears the lowest-level entry for the page of `va`. The nodes on the
    /// path to it stay.
    pub fn unmap(&self, mem: &mut PhysMemory, va: u64)
        requires
            self.inv(old(mem)),
            self.lookup(old(mem), vpn_of(va)) is Some,
        ensures
            self.inv(final(mem)),
            self.lookup(final(mem), vpn_of(va)) == Some(PageEntry::empty()),
            forall|v: nat|
                v < MAX_VPN && v != vpn_of(va) ==> self.lookup(final(mem), v) == self.lookup(
                    old(mem),
                    v,
                ),
            self.view(final(mem)) == self.view(old(mem)).remove(vpn_of(va)),
            forall|q: nat|
                q < 512 ==> (self.l1_present(final(mem), q) <==> self.l1_present(old(mem), q)),
            forall|q: nat|
                q < 262144 ==> (self.l0_present(final(mem), q) <==> self.l0_present(old(mem), q)),
            final(mem).same_pages(old(mem)),
            forall|p: nat, i: nat|
                final(mem).contains(p) && i < 512 && !self.frames().contains(p)
                    ==> #[trigger] final(mem).entry(p, i) == old(mem).entry(p, i),
    {
        self.set_entry(mem, va, PageEntry::empty());
    }
}

impl PageTableImpl {
    /// A table stays well formed, and translates as before, in a memory in
    /// which its own nodes are as they were, whatever else has changed.
    pub proof fn lemma_own_nodes_kept(&self, m0: &PhysMemory, m1: &PhysMemory)
        requires
            self.inv(m0),
            m1.wf(),
            m1.first_ppn() == m0.first_ppn(),
            m1.end_ppn() == m0.end_ppn(),
            forall|f: nat, i: nat|
                self.frames().contains(f) && i < 512 ==> #[trigger] m1.entry(f, i) == m0.entry(
                    f,
                    i,
                ),
        ensures
            self.inv(m1),
            forall|q: nat| q < 512 ==> (self.l1_present(m1, q) <==> self.l1_present(m0, q)),
            forall|q: nat| q < 262144 ==> (self.l0_present(m1, q) <==> self.l0_present(m0, q)),
            forall|v: nat| v < MAX_VPN ==> #[trigger] self.lookup(m1, v) == self.lookup(m0, v),
            forall|v: nat| v < MAX_VPN ==> #[trigger] self.translate(m1, v) == self.translate(m0, v),
            self.view(m1) == self.view(m0),
    {
        let root = self.root as nat;
        assert(self.node_inv(m0, root));
        assert forall|q: nat| q < 512 implies m1.entry(root, q) == m0.entry(root, q) by {}
        assert forall|q: nat| q < 262144 implies (self.l0_present(m1, q) <==> self.l0_present(
            m0,
            q,
        )) && (self.l1_present(m0, q / 512) ==> self.l0_table(m1, q) == self.l0_table(m0, q)) by {
            self.lemma_path(m0, q);
            assert(m1.entry(root, q / 512) == m0.entry(root, q / 512));
            if self.l1_present(m0, q / 512) {
                let t1 = self.l1_table(m0, q / 512);
                assert(m1.entry(t1, q % 512) == m0.entry(t1, q % 512));
            }
        }
        assert forall|v: nat| v < MAX_VPN implies #[trigger] self.lookup(m1, v) == self.lookup(
            m0,
            v,
        ) by {
            let q = v / 512;
            assert(q < 262144);
            self.lemma_path(m0, q);
            if self.l0_present(m0, q) {
                let t0 = self.l0_table(m0, q);
                assert(m1.entry(t0, v % 512) == m0.entry(t0, v % 512));
            }
        }
        assert forall|f: nat| self.nodes@.contains_key(f) implies #[trigger] self.node_inv(
            m1,
            f,
        ) by {
            assert(self.node_inv(m0, f));
            assert forall|i: nat| i < 512 implies #[trigger] self.slot_inv(m1, f, i) by {
                assert(self.slot_inv(m0, f, i));
                assert(m1.entry(f, i) == m0.entry(f, i));
            }
        }
        assert(self.view(m1) =~= self.view(m0));
    }

    /// A table stays well formed, and translates as before, in a memory that
    /// holds the same page-table nodes.
    pub proof fn lemma_same_tables(&self, m0: &PhysMemory, m1: &PhysMemory)
        requires
            self.inv(m0),
            m1.wf(),
            m1.same_tables(m0),
        ensures
            self.inv(m1),
            forall|q: nat| q < 512 ==> (self.l1_present(m1, q) <==> self.l1_present(m0, q)),
            forall|q: nat| q < 262144 ==> (self.l0_present(m1, q) <==> self.l0_present(m0, q)),
            forall|v: nat| v < MAX_VPN ==> #[trigger] self.lookup(m1, v) == self.lookup(m0, v),
            forall|v: nat| v < MAX_VPN ==> #[trigger] self.translate(m1, v) == self.translate(m0, v),
            self.view(m1) == self.view(m0),
    {
        assert forall|f: nat, i: nat| self.frames().contains(f) && i < 512 implies #[trigger] m1.entry(
            f,
            i,
        ) == m0.entry(f, i) by {
            assert(self.node_inv(m0, f));
        }
        self.lemma_own_nodes_kept(m0, m1);
    }
}

/// A page that was mapped is found again with the frame it was mapped to, and
/// after it was unmapped its entry is found not valid: stated of the entry
/// that `map` and `unmap` leave for the page of `va`, which is what
/// `get_entry` returns.
pub proof fn lemma_map_get_unmap(
    pt: PageTableImpl,
    mapped: PhysMemory,
    unmapped: PhysMemory,
    va: u64,
    pa: u64,
)
    requires
        pt.lookup(&mapped, vpn_of(va)) == Some(PageEntry::leaf(pa / PAGE_SIZE)),
        pt.lookup(&unmapped, vpn_of(va)) == Some(PageEntry::empty()),
    ensures
        pt.lookup(&mapped, vpn_of(va)) matches Some(e) && e.valid && e.ppn == pa / PAGE_SIZE,
        pt.lookup(&unmapped, vpn_of(va)) matches Some(e) && !e.valid,
        pt.translate(&mapped, vpn_of(va)) is Some,
        pt.translate(&unmapped, vpn_of(va)) is None,
{
}

} // verus!
