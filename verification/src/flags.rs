//! Access permissions and per-page state bits.

use vstd::prelude::*;

verus! {

/// The access rights that a caller asks for when it maps a range: any
/// combination of read, write and execute.
#[derive(Debug, Clone, Copy, PartialEq, Eq, Structural)]
pub enum Permissions {
    NONE,
    R,
    W,
    X,
    RW,
    RX,
    WX,
    RWX,
}

impl Permissions {
    /// The rights as a bit set: read is bit 0, write bit 1, execute bit 2.
    pub open spec fn spec_bits(self) -> u8 {
        match self {
            Permissions::NONE => 0b000,
            Permissions::R => 0b001,
            Permissions::W => 0b010,
            Permissions::X => 0b100,
            Permissions::RW => 0b011,
            Permissions::RX => 0b101,
            Permissions::WX => 0b110,
            Permissions::RWX => 0b111,
        }
    }

    /// Whether the rights include one of those in `mask`, a set of
    /// permission bits of `PageFlags`.
    pub open spec fn allows(self, mask: u32) -> bool {
        self.spec_bits() as u32 & mask != 0
    }

    #[verifier::when_used_as_spec(spec_bits)]
    pub fn bits(self) -> (r: u8)
        ensures
            r == self.spec_bits(),
    {
        match self {
            Permissions::NONE => 0b000,
            Permissions::R => 0b001,
            Permissions::W => 0b010,
            Permissions::X => 0b100,
            Permissions::RW => 0b011,
            Permissions::RX => 0b101,
            Permissions::WX => 0b110,
            Permissions::RWX => 0b111,
        }
    }
}

/// The state of one mapped page: its access rights and two markers that
/// say how the page is backed.
#[derive(Debug, Clone, Copy, PartialEq, Eq, Structural)]
pub struct PageFlags {
    bits: u32,
}

impl PageFlags {
    pub const PERM_R: u32 = 0b0000_0001;

    pub const PERM_W: u32 = 0b0000_0010;

    pub const PERM_X: u32 = 0b0000_0100;

    pub const PERM_RW: u32 = 0b0000_0011;

    pub const PERM_RX: u32 = 0b0000_0101;

    pub const PERM_WX: u32 = 0b0000_0110;

    pub const PERM_RWX: u32 = 0b0000_0111;

    /// A lazy zero page: no frame backs it, and one is allocated on the
    /// first write.
    pub const ZERO: u32 = 0b0000_1000;

    /// A page whose frame must be copied to a private one before a write.
    pub const COW: u32 = 0b0001_0000;

    /// Every bit that has a meaning.
    pub const ALL: u32 = 0b0001_1111;

    pub closed spec fn view(&self) -> u32 {
        self.bits
    }

    /// Whether some bit of `mask` is set.
    pub open spec fn has(self, mask: u32) -> bool {
        self@ & mask != 0
    }

    /// The flags without the bits of `mask`.
    pub closed spec fn without(self, mask: u32) -> PageFlags {
        PageFlags { bits: self.bits & !mask }
    }

    /// The flags with exactly the meaningful bits of `bits`.
    pub closed spec fn of(bits: u32) -> PageFlags {
        PageFlags { bits: bits & PageFlags::ALL }
    }

    /// A lazy zero page governed by `perms`.
    pub open spec fn lazy(perms: Permissions) -> PageFlags {
        PageFlags::of(PageFlags::ZERO | perms.spec_bits() as u32)
    }

    /// Whether a write must first give the page a frame of its own.
    pub open spec fn unbacked(self) -> bool {
        self.has(PageFlags::ZERO) || self.has(PageFlags::COW)
    }

    /// The flags of the page once it has a frame of its own.
    pub open spec fn backed(self) -> PageFlags {
        self.without(PageFlags::ZERO).without(PageFlags::COW)
    }

    pub fn from_bits_truncate(bits: u32) -> (r: PageFlags)
        ensures
            r == PageFlags::of(bits),
            r@ == bits & PageFlags::ALL,
    {
        PageFlags { bits: bits & PageFlags::ALL }
    }

    pub fn bits(&self) -> (r: u32)
        ensures
            r == self@,
    {
        self.bits
    }

    pub fn intersects(&self, mask: u32) -> (r: bool)
        ensures
            r == self.has(mask),
    {
        self.bits & mask != 0
    }

    pub fn remove(&mut self, mask: u32)
        ensures
            *final(self) == old(self).without(mask),
            final(self)@ == old(self)@ & !mask,
    {
        self.bits = self.bits & !mask;
    }

    /// What the flags built by `of` and `without` hold, in bits; flags are
    /// equal exactly when their bits are.
    pub proof fn lemma_bits(self, other: PageFlags, mask: u32)
        ensures
            PageFlags::of(mask)@ == mask & PageFlags::ALL,
            self.without(mask)@ == self@ & !mask,
            self@ == other@ <==> self == other,
    {
    }

    /// A lazy page carries `ZERO`, never `COW`, and the rights of `perms`
    /// bit for bit.
    pub proof fn lemma_lazy(perms: Permissions)
        ensures
            PageFlags::lazy(perms).has(PageFlags::ZERO),
            !PageFlags::lazy(perms).has(PageFlags::COW),
            PageFlags::lazy(perms).has(PageFlags::PERM_R) == perms.allows(PageFlags::PERM_R),
            PageFlags::lazy(perms).has(PageFlags::PERM_W) == perms.allows(PageFlags::PERM_W),
            PageFlags::lazy(perms).has(PageFlags::PERM_X) == perms.allows(PageFlags::PERM_X),
            PageFlags::lazy(perms)@ == 0b1000 + perms.spec_bits(),
    {
        let p: u32 = perms.spec_bits() as u32;
        assert(p < 8);
        assert(p < 8 ==> ((0b1000u32 | p) & 0b0001_1111u32) & 0b1000u32 != 0) by (bit_vector);
        assert(p < 8 ==> ((0b1000u32 | p) & 0b0001_1111u32) & 0b1_0000u32 == 0) by (bit_vector);
        assert(p < 8 ==> ((0b1000u32 | p) & 0b0001_1111u32) & 0b001u32 == p & 0b001u32)
            by (bit_vector);
        assert(p < 8 ==> ((0b1000u32 | p) & 0b0001_1111u32) & 0b010u32 == p & 0b010u32)
            by (bit_vector);
        assert(p < 8 ==> ((0b1000u32 | p) & 0b0001_1111u32) & 0b100u32 == p & 0b100u32)
            by (bit_vector);
        assert(p < 8 ==> ((0b1000u32 | p) & 0b0001_1111u32) == 0b1000u32 + p) by (bit_vector);
    }

    /// Giving a page a frame of its own clears both markers and keeps its
    /// rights.
    pub proof fn lemma_backed(self)
        ensures
            !self.backed().has(PageFlags::ZERO),
            !self.backed().has(PageFlags::COW),
            !self.backed().unbacked(),
            self.backed().has(PageFlags::PERM_R) == self.has(PageFlags::PERM_R),
            self.backed().has(PageFlags::PERM_W) == self.has(PageFlags::PERM_W),
            self.backed().has(PageFlags::PERM_X) == self.has(PageFlags::PERM_X),
            self.backed()@ == self@ & !PageFlags::ZERO & !PageFlags::COW,
    {
        let b = self.bits;
        assert(((b & !0b1000u32) & !0b1_0000u32) & 0b1000u32 == 0) by (bit_vector);
        assert(((b & !0b1000u32) & !0b1_0000u32) & 0b1_0000u32 == 0) by (bit_vector);
        assert(((b & !0b1000u32) & !0b1_0000u32) & 0b001u32 == b & 0b001u32) by (bit_vector);
        assert(((b & !0b1000u32) & !0b1_0000u32) & 0b010u32 == b & 0b010u32) by (bit_vector);
        assert(((b & !0b1000u32) & !0b1_0000u32) & 0b100u32 == b & 0b100u32) by (bit_vector);
    }
}

} // verus!
