//! The frame pool: the page-sized buffers that back mapped pages, and the
//! bitmap that says which of them are in use.

use vstd::prelude::*;
use crate::addr::PAGE_SIZE;
use crate::bitmap::{
    bitmap_clone, bitmap_get, bitmap_len, bitmap_new, bitmap_push, bitmap_reserve, bitmap_set,
    bits_of, max_bits, Bitmap,
};

verus! {

/// Page frame number: the index of a frame in the pool.
pub type PFN = u32;

/// The frame number that stands for "no frame". It never indexes the pool.
pub const INVALID_PFN: PFN = 0xFFFF_FFFF;

pub type PageFrame = [u8; PAGE_SIZE];

/// The contents of a frame that nobody has written to.
pub open spec fn zero_page() -> Seq<u8> {
    Seq::new(PAGE_SIZE as nat, |i: int| 0u8)
}

/// The most frames a pool can hold: every index stays below `INVALID_PFN`,
/// and the bitmap can hold a bit for each.
pub open spec fn max_frames() -> nat {
    if max_bits() < INVALID_PFN {
        max_bits()
    } else {
        INVALID_PFN as nat
    }
}

/// the most page frames a pool can hold.
pub fn frame_limit() -> (limit: usize)
    ensures
        limit == max_frames(),
{
    if usize::MAX / 8 < INVALID_PFN as usize {
        usize::MAX / 8
    } else {
        INVALID_PFN as usize
    }
}

/// How many bits of `bits` are set.
pub open spec fn count_set(bits: Seq<bool>) -> nat
    decreases bits.len(),
{
    if bits.len() == 0 {
        0
    } else {
        count_set(bits.drop_last()) + if bits.last() {
            1nat
        } else {
            0nat
        }
    }
}

/// The lowest index at which `bits` holds a clear bit, or the length of
/// `bits` where every bit is set.
pub open spec fn first_clear(bits: Seq<bool>) -> nat
    decreases bits.len(),
{
    if bits.len() == 0 {
        0
    } else {
        let k = first_clear(bits.drop_last());
        if k < bits.len() - 1 || !bits.last() {
            k
        } else {
            bits.len()
        }
    }
}

/// Whether `i` is where `first_clear` points: every bit below `i` is set,
/// and `i` is the length or the bit at `i` is clear.
pub open spec fn is_first_clear(bits: Seq<bool>, i: int) -> bool {
    &&& 0 <= i <= bits.len()
    &&& forall|j: int| 0 <= j < i ==> bits[j]
    &&& i < bits.len() ==> !bits[i]
}

pub proof fn lemma_first_clear(bits: Seq<bool>)
    ensures
        is_first_clear(bits, first_clear(bits) as int),
    decreases bits.len(),
{
    if bits.len() > 0 {
        let front = bits.drop_last();
        lemma_first_clear(front);
        let k = first_clear(bits) as int;
        assert forall|j: int| 0 <= j < k implies bits[j] by {
            if j < front.len() {
                assert(front[j]);
            }
        }
        if k < front.len() {
            assert(!front[k]);
        }
    }
}

pub proof fn lemma_first_clear_unique(bits: Seq<bool>, i: int)
    requires
        is_first_clear(bits, i),
    ensures
        i == first_clear(bits),
{
    lemma_first_clear(bits);
    let k = first_clear(bits) as int;
    if i < k {
        assert(bits[i]);
    } else if k < i {
        assert(bits[k]);
    }
}

pub proof fn lemma_count_set_bound(bits: Seq<bool>)
    ensures
        count_set(bits) <= bits.len(),
    decreases bits.len(),
{
    if bits.len() > 0 {
        lemma_count_set_bound(bits.drop_last());
    }
}

pub proof fn lemma_count_set_push(bits: Seq<bool>, bit: bool)
    ensures
        count_set(bits.push(bit)) == count_set(bits) + if bit {
            1nat
        } else {
            0nat
        },
{
    assert(bits.push(bit).drop_last() =~= bits);
}

pub proof fn lemma_count_set_update(bits: Seq<bool>, i: int, bit: bool)
    requires
        0 <= i < bits.len(),
    ensures
        count_set(bits.update(i, bit)) + (if bits[i] {
            1nat
        } else {
            0nat
        }) == count_set(bits) + (if bit {
            1nat
        } else {
            0nat
        }),
    decreases bits.len(),
{
    let after = bits.update(i, bit);
    if i == bits.len() - 1 {
        assert(after.drop_last() =~= bits.drop_last());
    } else {
        lemma_count_set_update(bits.drop_last(), i, bit);
        assert(after.drop_last() =~= bits.drop_last().update(i, bit));
    }
}

/// What a pool holds: the contents of each frame, and for each frame
/// whether it is in use.
#[verifier::ext_equal]
pub struct PoolView {
    pub frames: Seq<Seq<u8>>,
    pub used: Seq<bool>,
}

impl PoolView {
    /// A pool is well formed when the bitmap has one bit per frame, the
    /// pool is no larger than `max_frames`, every frame has the size of a
    /// page, and the frames that are not in use are zero.
    pub open spec fn wf(self) -> bool {
        &&& self.frames.len() == self.used.len()
        &&& self.frames.len() <= max_frames()
        &&& forall|i: int|
            0 <= i < self.frames.len() ==> (#[trigger] self.frames[i]).len() == PAGE_SIZE
        &&& forall|i: int|
            0 <= i < self.frames.len() && !self.used[i] ==> #[trigger] self.frames[i]
                == zero_page()
    }

    /// The pool without frames.
    pub open spec fn empty() -> PoolView {
        PoolView { frames: Seq::empty(), used: Seq::empty() }
    }

    /// Whether `pfn` names a frame that is in use.
    pub open spec fn allocated(self, pfn: int) -> bool {
        0 <= pfn < self.used.len() && self.used[pfn]
    }

    /// How many frames are in use.
    pub open spec fn in_use(self) -> nat {
        count_set(self.used)
    }

    /// The frame that the next allocation hands out: the lowest one that is
    /// free, or a new one behind the last where none is.
    pub open spec fn next_free(self) -> nat {
        first_clear(self.used)
    }

    /// Whether an allocation can be served: a frame is free, or the pool
    /// can still grow.
    pub open spec fn can_allocate(self) -> bool {
        self.next_free() < self.frames.len() || self.frames.len() < max_frames()
    }

    /// The pool after one allocation.
    pub open spec fn allocate(self) -> PoolView {
        let pfn = self.next_free() as int;
        if pfn < self.frames.len() {
            PoolView { frames: self.frames, used: self.used.update(pfn, true) }
        } else {
            PoolView { frames: self.frames.push(zero_page()), used: self.used.push(true) }
        }
    }

    /// The pool after frame `pfn` has been given back.
    pub open spec fn deallocate(self, pfn: int) -> PoolView {
        PoolView {
            frames: self.frames.update(pfn, zero_page()),
            used: self.used.update(pfn, false),
        }
    }

    /// The pool after frame `pfn` has been given the contents `bytes`.
    pub open spec fn with_frame(self, pfn: int, bytes: Seq<u8>) -> PoolView {
        PoolView { frames: self.frames.update(pfn, bytes), used: self.used }
    }

    /// Writing a page's worth of bytes to a frame that is in use keeps the
    /// pool well formed and the number of frames in use.
    pub proof fn lemma_with_frame(self, pfn: int, bytes: Seq<u8>)
        requires
            self.wf(),
            self.allocated(pfn),
            bytes.len() == PAGE_SIZE,
        ensures
            self.with_frame(pfn, bytes).wf(),
            self.with_frame(pfn, bytes).in_use() == self.in_use(),
    {
    }

    /// An allocation hands out a zero frame that was free, marks it used,
    /// touches no other frame, and raises the number of frames in use by
    /// one.
    pub proof fn lemma_allocate(self)
        requires
            self.wf(),
            self.can_allocate(),
        ensures
            self.allocate().wf(),
            !self.allocated(self.next_free() as int),
            self.allocate().allocated(self.next_free() as int),
            self.allocate().frames[self.next_free() as int] == zero_page(),
            self.allocate().in_use() == self.in_use() + 1,
            self.next_free() < INVALID_PFN,
            forall|i: int|
                0 <= i < self.frames.len() ==> self.allocate().frames[i] == self.frames[i],
            forall|i: int|
                0 <= i < self.frames.len() && i != self.next_free() ==> self.allocate().used[i]
                    == self.used[i],
    {
        let pfn = self.next_free() as int;
        lemma_first_clear(self.used);
        if pfn < self.frames.len() {
            lemma_count_set_update(self.used, pfn, true);
        } else {
            lemma_count_set_push(self.used, true);
        }
    }

    /// Giving back a frame that is in use zeroes it, marks it free, touches
    /// no other frame, and lowers the number of frames in use by one.
    pub proof fn lemma_deallocate(self, pfn: int)
        requires
            self.wf(),
            self.allocated(pfn),
        ensures
            self.deallocate(pfn).wf(),
            !self.deallocate(pfn).allocated(pfn),
            self.deallocate(pfn).in_use() + 1 == self.in_use(),
    {
        lemma_count_set_update(self.used, pfn, false);
    }

    /// A pool with fewer frames in use than `max_frames` can serve an
    /// allocation.
    pub proof fn lemma_room(self)
        requires
            self.wf(),
            self.in_use() < max_frames(),
        ensures
            self.can_allocate(),
    {
        lemma_first_clear(self.used);
        if self.next_free() == self.used.len() && self.frames.len() == max_frames() {
            lemma_count_set_bound(self.used);
            assert(count_set(self.used) == self.used.len()) by {
                lemma_all_set_count(self.used);
            }
        }
    }

    /// Frame reuse: a frame that is given back right after it was handed
    /// out is the one that the next allocation hands out, and it is zero
    /// again.
    pub proof fn lemma_reuse(self)
        requires
            self.wf(),
            self.can_allocate(),
        ensures
            ({
                let pfn = self.next_free() as int;
                let back = self.allocate().deallocate(pfn);
                &&& back.wf()
                &&& back.can_allocate()
                &&& back.next_free() == pfn
                &&& back.allocate().frames[pfn] == zero_page()
                &&& back.allocate().allocated(pfn)
            }),
    {
        let pfn = self.next_free() as int;
        self.lemma_allocate();
        let taken = self.allocate();
        taken.lemma_deallocate(pfn);
        let back = taken.deallocate(pfn);
        lemma_first_clear(self.used);
        assert(is_first_clear(back.used, pfn));
        lemma_first_clear_unique(back.used, pfn);
        back.lemma_allocate();
    }

    /// The first allocation from a pool without frames hands out frame 0.
    pub proof fn lemma_empty()
        ensures
            PoolView::empty().wf(),
            PoolView::empty().can_allocate(),
            PoolView::empty().next_free() == 0,
            PoolView::empty().in_use() == 0,
    {
    }
}

/// A collection of "physical" pages of memory, indexed by `PFN`.
pub struct PageFrames {
    // page frames indexed by `PFN`.
    frames: Vec<PageFrame>,
    // allocation status, indexed by `PFN`.
    // when `true`, the page is allocated.
    allocation_bitmap: Bitmap,
}

impl View for PageFrames {
    type V = PoolView;

    closed spec fn view(&self) -> PoolView {
        PoolView {
            frames: Seq::new(self.frames@.len(), |i: int| self.frames@[i]@),
            used: bits_of(self.allocation_bitmap),
        }
    }
}

impl Default for PageFrames {
    fn default() -> (r: Self)
        ensures
            r@ == PoolView::empty(),
            r.wf(),
    {
        let r = PageFrames { frames: Vec::new(), allocation_bitmap: bitmap_new() };
        assert(r@.frames =~= Seq::<Seq<u8>>::empty());
        r
    }
}

impl Clone for PageFrames {
    fn clone(&self) -> (r: Self)
        ensures
            r@ == self@,
    {
        let mut frames: Vec<PageFrame> = Vec::new();
        let n = self.frames.len();
        let mut i: usize = 0;
        while i < n
            invariant
                n == self.frames@.len(),
                i <= n,
                frames@.len() == i,
                forall|j: int| 0 <= j < i ==> frames@[j] == self.frames@[j],
            decreases n - i,
        {
            frames.push(self.frames[i]);
            i += 1;
        }
        let r = PageFrames { frames, allocation_bitmap: bitmap_clone(&self.allocation_bitmap) };
        assert(r@.frames =~= self@.frames);
        r
    }
}

impl PageFrames {
    pub open spec fn wf(&self) -> bool {
        self@.wf()
    }

    /// suggest that `page_count` pages will be allocated soon.
    /// useful to avoid frequent reallocations.
    pub fn reserve(&mut self, page_count: u32)
        requires
            old(self).wf(),
        ensures
            final(self).wf(),
            final(self)@ == old(self)@,
    {
        self.frames.reserve(page_count as usize);
        let len = bitmap_len(&self.allocation_bitmap);
        // the bitmap takes the hint only where it can hold that many bits.
        if page_count as usize <= usize::MAX / 8 - len {
            bitmap_reserve(&mut self.allocation_bitmap, page_count as usize);
        }
        assert(self@.frames =~= old(self)@.frames);
    }

    /// the lowest PFN whose page frame is not allocated, if there is one.
    fn first_free(&self) -> (found: Option<usize>)
        requires
            self.wf(),
        ensures
            match found {
                Some(pfn) => pfn < self@.frames.len() && pfn == self@.next_free(),
                None => self@.next_free() == self@.frames.len(),
            },
    {
        let len = bitmap_len(&self.allocation_bitmap);
        let mut i: usize = 0;
        while i < len
            invariant
                self.wf(),
                len == self@.used.len(),
                i <= len,
                forall|j: int| 0 <= j < i ==> self@.used[j],
            decreases len - i,
        {
            match bitmap_get(&self.allocation_bitmap, i) {
                Some(false) => {
                    proof {
                        lemma_first_clear_unique(self@.used, i as int);
                    }
                    return Some(i);
                },
                _ => {},
            }
            i += 1;
        }
        proof {
            lemma_first_clear_unique(self@.used, len as int);
        }
        None
    }

    /// allocate a new page frame, returning the PFN.
    /// page frame contents will be empty.
    pub fn allocate(&mut self) -> (pfn: PFN)
        requires
            old(self).wf(),
            old(self)@.can_allocate(),
        ensures
            final(self).wf(),
            final(self)@ == old(self)@.allocate(),
            pfn == old(self)@.next_free(),
            pfn != INVALID_PFN,
            !old(self)@.allocated(pfn as int),
            final(self)@.allocated(pfn as int),
            final(self)@.frames[pfn as int] == zero_page(),
            final(self)@.in_use() == old(self)@.in_use() + 1,
    {
        proof {
            self@.lemma_allocate();
        }
        let maybe_free_index = self.first_free();

        if let Some(pfn) = maybe_free_index {
            bitmap_set(&mut self.allocation_bitmap, pfn, true);
            assert(self@.frames =~= old(self)@.allocate().frames);
            pfn as PFN
        } else {
            self.frames.push([0u8; PAGE_SIZE]);
            bitmap_push(&mut self.allocation_bitmap, true);
            assert(self.frames@.last()@ =~= zero_page());
            assert(self@.frames =~= old(self)@.allocate().frames);
            (self.frames.len() - 1) as PFN
        }
    }

    /// deallocate a page by its PFN.
    /// the page must be allocated.
    pub fn deallocate(&mut self, pfn: PFN)
        requires
            old(self).wf(),
            old(self)@.allocated(pfn as int),
        ensures
            final(self).wf(),
            final(self)@ == old(self)@.deallocate(pfn as int),
            !final(self)@.allocated(pfn as int),
            final(self)@.frames[pfn as int] == zero_page(),
            final(self)@.in_use() + 1 == old(self)@.in_use(),
    {
        proof {
            self@.lemma_deallocate(pfn as int);
        }
        // zero pages upon deallocation.
        self.frames[pfn as usize] = [0u8; PAGE_SIZE];
        bitmap_set(&mut self.allocation_bitmap, pfn as usize, false);
        assert(self.frames@[pfn as int]@ =~= zero_page());
        assert(self@.frames =~= old(self)@.deallocate(pfn as int).frames);
    }

    /// the number of page frames that are allocated.
    pub fn in_use(&self) -> (count: usize)
        ensures
            count == self@.in_use(),
    {
        let len = bitmap_len(&self.allocation_bitmap);
        let mut count: usize = 0;
        let mut i: usize = 0;
        while i < len
            invariant
                len == self@.used.len(),
                i <= len,
                count == count_set(self@.used.take(i as int)),
                count <= i,
            decreases len - i,
        {
            proof {
                assert(self@.used.take(i + 1).drop_last() =~= self@.used.take(i as int));
                lemma_count_set_bound(self@.used.take(i as int));
            }
            match bitmap_get(&self.allocation_bitmap, i) {
                Some(true) => {
                    count += 1;
                },
                _ => {},
            }
            i += 1;
        }
        assert(self@.used.take(len as int) =~= self@.used);
        count
    }

    /// the page frame with the given PFN, which must be allocated.
    pub fn get(&self, pfn: PFN) -> (frame: &PageFrame)
        requires
            self.wf(),
            self@.allocated(pfn as int),
        ensures
            frame@ == self@.frames[pfn as int],
    {
        &self.frames[pfn as usize]
    }

    /// the page frame with the given PFN, which must be allocated, for
    /// writing.
    pub fn get_mut(&mut self, pfn: PFN) -> (frame: &mut PageFrame)
        requires
            old(self).wf(),
            old(self)@.allocated(pfn as int),
        ensures
            frame@ == old(self)@.frames[pfn as int],
            final(self)@ =~= old(self)@.with_frame(pfn as int, final(frame)@),
            final(self).wf(),
    {
        let frame = &mut self.frames[pfn as usize];
        proof {
            old(self)@.lemma_with_frame(pfn as int, final(frame)@);
        }
        frame
    }
}

/// Where every bit is set, the number of set bits is the number of bits.
pub proof fn lemma_all_set_count(bits: Seq<bool>)
    requires
        forall|j: int| 0 <= j < bits.len() ==> bits[j],
    ensures
        count_set(bits) == bits.len(),
    decreases bits.len(),
{
    if bits.len() > 0 {
        lemma_all_set_count(bits.drop_last());
    }
}

} // verus!
