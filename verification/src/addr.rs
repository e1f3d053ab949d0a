//! Address types of the 39-bit virtual address space.

use crate::bits::{bit_range, get_bits};
use vstd::prelude::*;

verus! {

/// Bits 38..63 of `raw` are all zero or all one: the bits above bit 38
/// repeat bit 38.
pub open spec fn is_canonical(raw: u64) -> bool {
    raw >> 38 == 0 || raw >> 38 == 0x3ff_ffffu64
}

/// `raw` with bit 38 copied into every bit above it.
pub open spec fn sign_extend(raw: u64) -> u64 {
    if raw & 0x40_0000_0000 != 0 {
        raw | 0xffff_ff80_0000_0000
    } else {
        raw & 0x0000_007f_ffff_ffff
    }
}

proof fn lemma_fields(v: u64)
    by (bit_vector)
    ensures
        bit_range(v, 0, 12) == v & 0xfff,
        bit_range(v, 12, 21) == (v >> 12) & 0x1ff,
        bit_range(v, 21, 30) == (v >> 21) & 0x1ff,
        bit_range(v, 30, 39) == (v >> 30) & 0x1ff,
        bit_range(v, 38, 64) == v >> 38,
        v & 0xfff < 4096,
        (v >> 12) & 0x1ff < 512,
        (v >> 21) & 0x1ff < 512,
        (v >> 30) & 0x1ff < 512,
{
}

proof fn lemma_sign_extend(v: u64)
    by (bit_vector)
    ensures
        is_canonical(sign_extend(v)),
        sign_extend(v) & 0x7f_ffff_ffff == v & 0x7f_ffff_ffff,
        is_canonical(v) ==> sign_extend(v) == v,
{
}

/// A `u64` that is no canonical virtual address: its bits 39..63 are no
/// sign extension of bit 38. Holds the rejected value.
#[derive(Debug, Clone, Copy, PartialEq, Eq, Structural)]
pub struct VirtAddrNotValid(pub u64);

/// A canonical 39-bit virtual address.
#[derive(Debug, Clone, Copy, PartialEq, Eq, Structural, PartialOrd, Ord, Hash)]
pub struct VirtAddr(u64);

impl View for VirtAddr {
    type V = u64;

    closed spec fn view(&self) -> u64 {
        self.0
    }
}

impl VirtAddr {
    #[verifier::type_invariant]
    closed spec fn canonical(self) -> bool {
        is_canonical(self.0)
    }

    /// Wraps an address that is known to be canonical.
    pub fn new(addr: u64) -> (r: VirtAddr)
        requires
            is_canonical(addr),
        ensures
            r@ == addr,
    {
        VirtAddr(addr)
    }

    /// Accepts `addr` exactly when it is canonical, and then keeps it as it is.
    pub fn try_new(addr: u64) -> (r: Result<VirtAddr, VirtAddrNotValid>)
        ensures
            is_canonical(addr) <==> r is Ok,
            r is Ok ==> r->Ok_0@ == addr,
            r is Err ==> r->Err_0 == VirtAddrNotValid(addr),
    {
        let top: u64 = get_bits(addr, 38, 64);
        proof {
            lemma_fields(addr);
        }
        if top == 0 || top == 0x3ff_ffff {
            Ok(VirtAddr(addr))
        } else {
            Err(VirtAddrNotValid(addr))
        }
    }

    /// Makes `addr` canonical by force: bit 38 is copied into bits 39..63,
    /// whatever they held.
    pub fn new_truncate(addr: u64) -> (r: VirtAddr)
        ensures
            r@ == sign_extend(addr),
            is_canonical(r@),
            r@ & 0x7f_ffff_ffff == addr & 0x7f_ffff_ffff,
            is_canonical(addr) ==> r@ == addr,
    {
        proof {
            lemma_sign_extend(addr);
        }
        if addr & 0x40_0000_0000 != 0 {
            VirtAddr(addr | 0xffff_ff80_0000_0000)
        } else {
            VirtAddr(addr & 0x0000_007f_ffff_ffff)
        }
    }

    /// Wraps `addr` without looking at it. The caller answers for bits
    /// 39..63 being equal to bit 38.
    pub fn new_unsafe(addr: u64) -> (r: VirtAddr)
        requires
            is_canonical(addr),
        ensures
            r@ == addr,
    {
        VirtAddr(addr)
    }

    /// The address as a plain word, which is canonical.
    pub fn as_u64(self) -> (r: u64)
        ensures
            r == self@,
            is_canonical(r),
    {
        proof {
            use_type_invariant(&self);
        }
        self.0
    }

    /// The offset inside the 4 KiB page: bits 0..11.
    pub fn page_offset(self) -> (r: u64)
        ensures
            r == self@ & 0xfff,
            r < 4096,
    {
        proof {
            lemma_fields(self.0);
        }
        get_bits(self.0, 0, 12)
    }

    /// The index into the outermost table: bits 30..38.
    pub fn vpn2(self) -> (r: u16)
        ensures
            r == (self@ >> 30) & 0x1ff,
            r < 512,
    {
        proof {
            lemma_fields(self.0);
        }
        get_bits(self.0, 30, 39) as u16
    }

    /// The index into the middle table: bits 21..29.
    pub fn vpn1(self) -> (r: u16)
        ensures
            r == (self@ >> 21) & 0x1ff,
            r < 512,
    {
        proof {
            lemma_fields(self.0);
        }
        get_bits(self.0, 21, 30) as u16
    }

    /// The index into the innermost table: bits 12..20.
    pub fn vpn0(self) -> (r: u16)
        ensures
            r == (self@ >> 12) & 0x1ff,
            r < 512,
    {
        proof {
            lemma_fields(self.0);
        }
        get_bits(self.0, 12, 21) as u16
    }
}

/// A physical byte address. Any word is one.
#[derive(Debug, Clone, Copy, PartialEq, Eq, Structural)]
pub struct PhysAddr(pub u64);

impl View for PhysAddr {
    type V = u64;

    open spec fn view(&self) -> u64 {
        self.0
    }
}

impl PhysAddr {
    /// Wraps a physical address.
    pub fn new(addr: u64) -> (r: PhysAddr)
        ensures
            r@ == addr,
    {
        PhysAddr(addr)
    }

    /// The address as a plain word.
    pub fn as_u64(self) -> (r: u64)
        ensures
            r == self@,
    {
        self.0
    }
}

/// The bits of an entry that hold the physical frame number: bits 10..53.
pub const FRAME_MASK: u64 = 0x003f_ffff_ffff_fc00;

/// The permission and status bits of a page-table entry, bits 0..7 of its
/// word: Valid, Readable, Writable, Executable, UserAccessible, Global,
/// Accessed, Dirty.
#[derive(Debug, Clone, Copy, PartialEq, Eq, Structural)]
pub struct PageTableFlags {
    bits: u64,
}

/// A flag word says Valid: bit 0 is set.
pub open spec fn flags_valid(bits: u64) -> bool {
    bits & 0x1 != 0
}

/// A flag word says leaf: Valid, and at least one of Readable, Writable and
/// Executable (bits 1, 2 and 3).
pub open spec fn flags_leaf(bits: u64) -> bool {
    flags_valid(bits) && bits & 0xe != 0
}

proof fn lemma_flag_bits(a: u64, b: u64)
    by (bit_vector)
    ensures
        a & 0xff <= 0xff,
        a <= 0xff ==> a & 0xff == a,
        a <= 0xff && b <= 0xff ==> a | b <= 0xff,
        flags_valid(a) <==> a & 1 == 1,
        a & 0xe != 0 <==> (a & 2 == 2 || a & 4 == 4 || a & 8 == 8),
{
}

impl PageTableFlags {
    /// Valid alone.
    pub fn valid() -> (r: PageTableFlags)
        ensures
            r.spec_bits() == 1,
    {
        PageTableFlags { bits: 1 }
    }

    /// Readable alone.
    pub fn readable() -> (r: PageTableFlags)
        ensures
            r.spec_bits() == 2,
    {
        PageTableFlags { bits: 2 }
    }

    /// Writable alone.
    pub fn writable() -> (r: PageTableFlags)
        ensures
            r.spec_bits() == 4,
    {
        PageTableFlags { bits: 4 }
    }

    /// Executable alone.
    pub fn executable() -> (r: PageTableFlags)
        ensures
            r.spec_bits() == 8,
    {
        PageTableFlags { bits: 8 }
    }

    /// UserAccessible alone.
    pub fn user_accessible() -> (r: PageTableFlags)
        ensures
            r.spec_bits() == 16,
    {
        PageTableFlags { bits: 16 }
    }

    /// Global alone.
    pub fn global() -> (r: PageTableFlags)
        ensures
            r.spec_bits() == 32,
    {
        PageTableFlags { bits: 32 }
    }

    /// Accessed alone.
    pub fn accessed() -> (r: PageTableFlags)
        ensures
            r.spec_bits() == 64,
    {
        PageTableFlags { bits: 64 }
    }

    /// Dirty alone.
    pub fn dirty() -> (r: PageTableFlags)
        ensures
            r.spec_bits() == 128,
    {
        PageTableFlags { bits: 128 }
    }

    /// Valid, Readable and Writable.
    pub fn vrw() -> (r: PageTableFlags)
        ensures
            r.spec_bits() == 7,
    {
        PageTableFlags { bits: 7 }
    }

    /// Valid, Readable, Writable and Executable.
    pub fn vrwx() -> (r: PageTableFlags)
        ensures
            r.spec_bits() == 15,
    {
        PageTableFlags { bits: 15 }
    }

    #[verifier::type_invariant]
    closed spec fn defined_only(self) -> bool {
        self.bits <= 0xff
    }

    /// The flags as a word; only bits 0..7 can be set in it.
    pub closed spec fn spec_bits(self) -> u64 {
        self.bits
    }

    /// No flag.
    pub fn empty() -> (r: PageTableFlags)
        ensures
            r.spec_bits() == 0,
    {
        PageTableFlags { bits: 0 }
    }

    /// The flags as a word, which holds no bit above bit 7.
    #[verifier::when_used_as_spec(spec_bits)]
    pub fn bits(self) -> (r: u64)
        ensures
            r == self.spec_bits(),
            r <= 0xff,
    {
        proof {
            use_type_invariant(&self);
        }
        self.bits
    }

    /// The flags that `bits` sets, if it sets no bit that is not a flag.
    pub fn from_bits(bits: u64) -> (r: Option<PageTableFlags>)
        ensures
            bits <= 0xff <==> r is Some,
            r is Some ==> r->Some_0.spec_bits() == bits,
    {
        if bits <= 0xff {
            Some(PageTableFlags { bits })
        } else {
            None
        }
    }

    /// The flags that `bits` sets; bits that are no flag are dropped.
    pub fn from_bits_truncate(bits: u64) -> (r: PageTableFlags)
        ensures
            r.spec_bits() == bits & 0xff,
    {
        proof {
            lemma_flag_bits(bits, 0);
        }
        PageTableFlags { bits: bits & 0xff }
    }

    /// The flags of `self` together with those of `other`.
    pub fn union(self, other: PageTableFlags) -> (r: PageTableFlags)
        ensures
            r.spec_bits() == self.spec_bits() | other.spec_bits(),
    {
        proof {
            use_type_invariant(&self);
            use_type_invariant(&other);
            lemma_flag_bits(self.bits, other.bits);
        }
        PageTableFlags { bits: self.bits | other.bits }
    }

    /// Every flag of `other` is set in `self`.
    pub fn contains(self, other: PageTableFlags) -> (r: bool)
        ensures
            r == (self.spec_bits() & other.spec_bits() == other.spec_bits()),
    {
        self.bits & other.bits == other.bits
    }

    /// Valid is set.
    pub fn is_valid(self) -> (r: bool)
        ensures
            r == flags_valid(self.spec_bits()),
    {
        proof {
            lemma_flag_bits(self.bits, 0);
        }
        self.contains(PageTableFlags::valid())
    }

    /// Valid is set, and Readable, Writable or Executable with it.
    pub fn is_leaf(self) -> (r: bool)
        ensures
            r == flags_leaf(self.spec_bits()),
    {
        proof {
            lemma_flag_bits(self.bits, 0);
        }
        self.is_valid() && (self.contains(PageTableFlags::readable()) || self.contains(
            PageTableFlags::writable(),
        ) || self.contains(PageTableFlags::executable()))
    }
}

/// `addr` lies on a 4 KiB boundary.
pub open spec fn page_aligned(addr: u64) -> bool {
    addr & 0xfff == 0
}

/// `addr` fits the 56 bits that an entry's frame field can express.
pub open spec fn frame_in_range(addr: u64) -> bool {
    addr < 0x100_0000_0000_0000
}

/// The entry word for a page-aligned frame address and a flag word: the
/// frame number `frame >> 12` stands at bits 10..53, the flags at bits 0..7.
pub open spec fn pte_encode(frame: u64, flags: u64) -> u64 {
    (frame >> 2) | flags
}

/// The byte address of the frame that an entry word names: the field at
/// bits 10..53, moved up to bits 12..55.
pub open spec fn pte_addr(word: u64) -> u64 {
    ((word >> 10) & 0xfff_ffff_ffff) << 12
}

/// The flag bits of an entry word.
pub open spec fn pte_flags(word: u64) -> u64 {
    word & 0xff
}

/// The entry word says Valid.
pub open spec fn pte_valid(word: u64) -> bool {
    flags_valid(word & 0xff)
}

/// The entry word ends the walk: Valid with Readable, Writable or
/// Executable.
pub open spec fn pte_leaf(word: u64) -> bool {
    flags_leaf(word & 0xff)
}

/// Decoding an encoded entry gives back the frame and the flags: for every
/// page-aligned frame below 2^56 and every set of defined flags.
pub proof fn lemma_encode_decode(frame: u64, flags: u64)
    by (bit_vector)
    requires
        page_aligned(frame),
        flags <= 0xff,
    ensures
        frame_in_range(frame) ==> pte_addr(pte_encode(frame, flags)) == frame,
        pte_flags(pte_encode(frame, flags)) == flags,
        pte_valid(pte_encode(frame, flags)) == flags_valid(flags),
        pte_leaf(pte_encode(frame, flags)) == flags_leaf(flags),
{
}

/// What decoding yields of any word: a page-aligned address below 2^56, and
/// flags within the eight defined bits.
pub proof fn lemma_decode_bounds(word: u64)
    by (bit_vector)
    ensures
        page_aligned(pte_addr(word)),
        frame_in_range(pte_addr(word)),
        pte_flags(word) <= 0xff,
        pte_leaf(word) ==> pte_valid(word),
{
}

/// Rewriting the flags of a word keeps its frame field, and clearing them
/// leaves an entry that is not valid.
pub proof fn lemma_rewrite_flags(word: u64, flags: u64)
    by (bit_vector)
    requires
        flags <= 0xff,
    ensures
        pte_addr((word & FRAME_MASK) | flags) == pte_addr(word),
        pte_flags((word & FRAME_MASK) | flags) == flags,
        pte_addr(word & FRAME_MASK) == pte_addr(word),
        pte_flags(word & FRAME_MASK) == 0,
        !pte_valid(word & FRAME_MASK),
        !pte_valid(0),
        pte_addr(0) == 0,
{
}

proof fn lemma_entry_bits(word: u64)
    by (bit_vector)
    ensures
        bit_range(word, 10, 54) == (word >> 10) & 0xfff_ffff_ffff,
        (word >> 10) & 0xfff_ffff_ffff <= 0xfff_ffff_ffff,
{
}

/// One packed page-table entry.
#[derive(Debug, Clone, Copy, PartialEq, Eq, Structural)]
pub struct PTEntry {
    entry: u64,
}

impl View for PTEntry {
    type V = u64;

    closed spec fn view(&self) -> u64 {
        self.entry
    }
}

impl PTEntry {
    /// The zero word: not valid, nothing mapped.
    pub fn new() -> (r: PTEntry)
        ensures
            r@ == 0,
    {
        PTEntry { entry: 0 }
    }

    /// An entry with the given word.
    pub fn from_u64(word: u64) -> (r: PTEntry)
        ensures
            r@ == word,
    {
        PTEntry { entry: word }
    }

    /// Points the entry at the frame `addr` with `flags`. The address has to
    /// be page aligned; below 2^56 it is read back unchanged.
    pub fn set(&mut self, addr: PhysAddr, flags: PageTableFlags)
        requires
            page_aligned(addr@),
        ensures
            final(self)@ == pte_encode(addr@, flags.spec_bits()),
            pte_flags(final(self)@) == flags.spec_bits(),
            frame_in_range(addr@) ==> pte_addr(final(self)@) == addr@,
    {
        let a: u64 = addr.as_u64();
        let f: u64 = flags.bits();
        proof {
            lemma_encode_decode(a, f);
        }
        self.entry = (a >> 2) | f;
    }

    /// The byte address of the frame that the entry names; zero for the zero
    /// word.
    pub fn addr(&self) -> (r: PhysAddr)
        ensures
            r@ == pte_addr(self@),
            page_aligned(r@),
            frame_in_range(r@),
    {
        proof {
            lemma_entry_bits(self.entry);
            lemma_decode_bounds(self.entry);
        }
        PhysAddr::new(get_bits(self.entry, 10, 54) << 12)
    }

    /// The flags of the entry.
    pub fn flags(&self) -> (r: PageTableFlags)
        ensures
            r.spec_bits() == pte_flags(self@),
    {
        PageTableFlags::from_bits_truncate(self.entry)
    }

    /// Replaces the flags and keeps the frame field; the bits of the word
    /// that are neither are cleared.
    pub fn set_flags(&mut self, flags: PageTableFlags)
        ensures
            final(self)@ == (old(self)@ & FRAME_MASK) | flags.spec_bits(),
            pte_addr(final(self)@) == pte_addr(old(self)@),
            pte_flags(final(self)@) == flags.spec_bits(),
    {
        let f: u64 = flags.bits();
        proof {
            lemma_rewrite_flags(self.entry, f);
        }
        self.entry = (self.entry & FRAME_MASK) | f;
    }

    /// Clears the flags, so that the entry is not valid any more. The frame
    /// field stays as it was.
    pub fn set_unused(&mut self)
        ensures
            final(self)@ == old(self)@ & FRAME_MASK,
            pte_addr(final(self)@) == pte_addr(old(self)@),
            !pte_valid(final(self)@),
    {
        proof {
            lemma_rewrite_flags(self.entry, 0);
            assert((self.entry & FRAME_MASK) | 0 == self.entry & FRAME_MASK) by (bit_vector);
        }
        self.set_flags(PageTableFlags::empty());
    }

    /// Valid is set.
    pub fn is_valid(&self) -> (r: bool)
        ensures
            r == pte_valid(self@),
    {
        self.flags().is_valid()
    }

    /// The entry ends the walk at its level: Valid is set, and Readable,
    /// Writable or Executable with it.
    pub fn is_leaf(&self) -> (r: bool)
        ensures
            r == pte_leaf(self@),
    {
        self.flags().is_leaf()
    }

    /// The packed word.
    pub fn as_u64(&self) -> (r: u64)
        ensures
            r == self@,
    {
        self.entry
    }
}

/// The table in which no entry has a bit set.
pub open spec fn zero_table() -> Seq<u64> {
    Seq::new(512, |i: int| 0u64)
}

/// `table` with the flags of every entry cleared: each slot unused, each
/// frame field as it was.
pub open spec fn cleared_table(table: Seq<u64>) -> Seq<u64> {
    Seq::new(512, |i: int| table[i] & FRAME_MASK)
}

/// One node of the table tree: 512 entries, one page of memory. Its view is
/// the sequence of its 512 entry words.
#[derive(Clone, Copy)]
pub struct PageTable {
    entries: [PTEntry; 512],
}

impl View for PageTable {
    type V = Seq<u64>;

    closed spec fn view(&self) -> Seq<u64> {
        Seq::new(512, |i: int| self.entries[i]@)
    }
}

impl PageTable {
    /// The view of a table has 512 words.
    pub proof fn lemma_len(self)
        ensures
            self@.len() == 512,
    {
    }

    /// A table of 512 zero entries.
    pub fn new() -> (r: PageTable)
        ensures
            r@ == zero_table(),
    {
        let r = PageTable { entries: [PTEntry::new();512] };
        assert(r@ =~= zero_table());
        r
    }

    /// Makes every slot unused: the flags of each entry are cleared.
    pub fn zero(&mut self)
        ensures
            final(self)@ == cleared_table(old(self)@),
    {
        let mut i: usize = 0;
        while i < 512
            invariant
                i <= 512,
                forall|j: int| 0 <= j < i ==> self.entries[j]@ == old(self).entries[j]@ & FRAME_MASK,
                forall|j: int| i <= j < 512 ==> self.entries[j] == old(self).entries[j],
            decreases 512 - i,
        {
            let mut entry = self.entries[i];
            entry.set_unused();
            self.entries[i] = entry;
            i += 1;
        }
        assert(self@ =~= cleared_table(old(self)@));
    }

    /// The entries in the order of their indices.
    pub fn iter(&self) -> (r: Vec<PTEntry>)
        ensures
            r@.len() == 512,
            forall|i: int| 0 <= i < 512 ==> (#[trigger] r@[i])@ == self@[i],
    {
        let mut out: Vec<PTEntry> = Vec::new();
        let mut i: usize = 0;
        while i < 512
            invariant
                i <= 512,
                out@.len() == i,
                forall|j: int| 0 <= j < i ==> (#[trigger] out@[j])@ == self@[j],
            decreases 512 - i,
        {
            out.push(self.entries[i]);
            i += 1;
        }
        out
    }

    /// The valid entries, each with its index, in the order of the indices:
    /// what a dump of the table shows.
    pub fn valid_entries(&self) -> (r: Vec<(u16, PTEntry)>)
        ensures
            forall|k: int|
                0 <= k < r@.len() ==> (#[trigger] r@[k]).0 < 512 && r@[k].1@ == self@[r@[k].0 as int]
                    && pte_valid(r@[k].1@),
            forall|j: int, k: int| 0 <= j < k < r@.len() ==> (#[trigger] r@[j]).0 < (#[trigger] r@[k]).0,
            forall|i: int|
                0 <= i < 512 && pte_valid(#[trigger] self@[i]) ==> exists|k: int|
                    0 <= k < r@.len() && (#[trigger] r@[k]).0 == i,
    {
        let mut out: Vec<(u16, PTEntry)> = Vec::new();
        let mut i: u16 = 0;
        while i < 512
            invariant
                i <= 512,
                forall|k: int|
                    0 <= k < out@.len() ==> (#[trigger] out@[k]).0 < i && out@[k].1@ == self@[out@[k].0 as int]
                        && pte_valid(out@[k].1@),
                forall|j: int, k: int|
                    0 <= j < k < out@.len() ==> (#[trigger] out@[j]).0 < (#[trigger] out@[k]).0,
                forall|n: int|
                    0 <= n < i && pte_valid(#[trigger] self@[n]) ==> exists|k: int|
                        0 <= k < out@.len() && (#[trigger] out@[k]).0 == n,
            decreases 512 - i,
        {
            let entry = self.entries[i as usize];
            if entry.is_valid() {
                let ghost before = out@;
                out.push((i, entry));
                assert forall|n: int| 0 <= n < i + 1 && pte_valid(#[trigger] self@[n]) implies exists|
                    k: int,
                | 0 <= k < out@.len() && (#[trigger] out@[k]).0 == n by {
                    if n < i {
                        let k = choose|k: int| 0 <= k < before.len() && (#[trigger] before[k]).0 == n;
                        assert(out@[k].0 == n);
                    } else {
                        assert(out@[before.len() as int].0 == n);
                    }
                }
            }
            i += 1;
        }
        out
    }

    /// All entries at once, to be changed in place.
    pub fn iter_mut(&mut self) -> (r: &mut [PTEntry; 512])
        ensures
            forall|i: int| 0 <= i < 512 ==> (#[trigger] r@[i])@ == old(self)@[i],
            forall|i: int| 0 <= i < 512 ==> #[trigger] final(self)@[i] == final(r)@[i]@,
    {
        &mut self.entries
    }

    /// The entry at `index`, which has to be below 512.
    pub fn index(&self, index: u16) -> (r: &PTEntry)
        requires
            index < 512,
        ensures
            r@ == self@[index as int],
    {
        &self.entries[index as usize]
    }

    /// The entry at `index`, which has to be below 512, to be changed in
    /// place; the other entries stay as they are.
    pub fn index_mut(&mut self, index: u16) -> (r: &mut PTEntry)
        requires
            index < 512,
        ensures
            r@ == old(self)@[index as int],
            final(self)@ == old(self)@.update(index as int, final(r)@),
    {
        &mut self.entries[index as usize]
    }
}

} // verus!
