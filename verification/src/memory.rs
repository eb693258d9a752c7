//! The segmented memory store: an indexed collection of variable-length word
//! arrays ("segments") with allocate/free/read/write operations and
//! last-in-first-out reuse of freed integer handles. Handle 0 is reserved for
//! the segment holding the currently executing program.

use vstd::prelude::*;
use vstd::pervasive::VecAdditionalExecFns;

verus! {

/// The mathematical model of the store: the backing storage of every handle,
/// the stack of freed handles awaiting reuse, and which handles are live.
pub struct MemModel {
    pub heap: Seq<Seq<u32>>,
    pub pool: Seq<usize>,
    pub mapped: Seq<bool>,
}

impl MemModel {
    /// Well-formedness: handle 0 is always live; the pool holds exactly the
    /// non-zero dead handles, each once, and each within the heap.
    pub open spec fn wf(self) -> bool {
        &&& self.mapped.len() == self.heap.len()
        &&& self.heap.len() >= 1
        &&& self.mapped[0]
        &&& forall|i: int|
            0 <= i < self.pool.len() ==> (#[trigger] self.pool[i]) < self.heap.len()
                && self.pool[i] != 0 && !self.mapped[self.pool[i] as int]
        &&& forall|h: usize|
            0 < h < self.heap.len() && !(#[trigger] self.mapped[h as int]) ==> self.pool.contains(
                h,
            )
        &&& forall|i: int, j: int|
            0 <= i < j < self.pool.len() ==> (#[trigger] self.pool[i]) != (#[trigger] self.pool[j])
    }

    /// A handle currently backed by an allocated segment.
    pub open spec fn valid(self, h: usize) -> bool {
        h < self.heap.len() && self.mapped[h as int]
    }

    /// The contents of the segment known under handle `h`.
    pub open spec fn seg(self, h: usize) -> Seq<u32> {
        self.heap[h as int]
    }
}

/// A fresh segment: `size` words, all zero.
pub open spec fn zero_seg(size: nat) -> Seq<u32> {
    Seq::new(size, |i: int| 0u32)
}

/// Allocation: pop the most recently freed handle and re-size and re-zero its
/// storage, or mint a new handle when no freed one is available. Returns the
/// new store and the chosen handle.
pub open spec fn alloc_model(m: MemModel, size: usize) -> (MemModel, usize) {
    if m.pool.len() == 0 {
        (
            MemModel {
                heap: m.heap.push(zero_seg(size as nat)),
                pool: m.pool,
                mapped: m.mapped.push(true),
            },
            m.heap.len() as usize,
        )
    } else {
        let h = m.pool.last();
        (
            MemModel {
                heap: m.heap.update(h as int, zero_seg(size as nat)),
                pool: m.pool.drop_last(),
                mapped: m.mapped.update(h as int, true),
            },
            h,
        )
    }
}

/// Freeing: clear the backing storage and push the handle onto the pool
/// (meaningful when `m.valid(h)` and `h != 0`).
pub open spec fn free_model(m: MemModel, h: usize) -> MemModel {
    MemModel {
        heap: m.heap.update(h as int, Seq::empty()),
        pool: m.pool.push(h),
        mapped: m.mapped.update(h as int, false),
    }
}

/// Reading: the word at `address` of segment `h`, or `None` when `h` is not
/// a live handle or `address` is out of bounds.
pub open spec fn read_model(m: MemModel, h: usize, address: usize) -> Option<u32> {
    if m.valid(h) && (address as nat) < m.seg(h).len() {
        Some(m.seg(h)[address as int])
    } else {
        None
    }
}

/// Writing: segment `h` with the word at `address` replaced (meaningful under
/// the same validity conditions as reading).
pub open spec fn write_model(m: MemModel, h: usize, address: usize, value: u32) -> MemModel {
    MemModel {
        heap: m.heap.update(h as int, m.seg(h).update(address as int, value)),
        pool: m.pool,
        mapped: m.mapped,
    }
}

/// Installing a program: copy the contents of segment `h` into segment 0,
/// leaving segment `h` itself unchanged (meaningful when `m.valid(h)`).
pub open spec fn swap_model(m: MemModel, h: usize) -> MemModel {
    MemModel { heap: m.heap.update(0, m.seg(h)), pool: m.pool, mapped: m.mapped }
}

/// The segment store. `heap[h]` is the storage of handle `h`, `pool` the
/// stack of freed handles, and `mapped[h]` says whether `h` is live.
pub struct Memory {
    pub heap: Vec<Vec<u32>>,
    pub pool: Vec<usize>,
    pub mapped: Vec<bool>,
}

impl View for Memory {
    type V = MemModel;

    open spec fn view(&self) -> MemModel {
        MemModel {
            heap: Seq::new(self.heap@.len(), |i: int| self.heap@[i]@),
            pool: self.pool@,
            mapped: self.mapped@,
        }
    }
}

/// A zero-filled vector of `size` words.
fn zeros(size: usize) -> (v: Vec<u32>)
    ensures
        v@ == zero_seg(size as nat),
{
    let mut v: Vec<u32> = Vec::new();
    let mut i: usize = 0;
    while i < size
        invariant
            i <= size,
            v@.len() == i,
            forall|j: int| 0 <= j < i ==> v@[j] == 0u32,
        decreases size - i,
    {
        v.push(0);
        i += 1;
    }
    proof {
        assert(v@ =~= zero_seg(size as nat));
    }
    v
}

/// An element-for-element copy of a vector of words.
fn copy_words(v: &Vec<u32>) -> (r: Vec<u32>)
    ensures
        r@ == v@,
{
    let mut r: Vec<u32> = Vec::new();
    let mut i: usize = 0;
    while i < v.len()
        invariant
            i <= v@.len(),
            r@.len() == i,
            forall|j: int| 0 <= j < i ==> r@[j] == v@[j],
        decreases v@.len() - i,
    {
        r.push(v[i]);
        i += 1;
    }
    proof {
        assert(r@ =~= v@);
    }
    r
}

impl Memory {
    /// Well-formedness of the store.
    pub open spec fn inv(self) -> bool {
        self@.wf()
    }

    /// A new store whose only segment, under handle 0, holds the given
    /// program image.
    pub fn new(instructions: Vec<u32>) -> (m: Memory)
        ensures
            m.inv(),
            m@.heap.len() == 1,
            m@.seg(0) == instructions@,
            m@.pool.len() == 0,
    {
        let mut heap: Vec<Vec<u32>> = Vec::new();
        heap.push(instructions);
        let mut mapped: Vec<bool> = Vec::new();
        mapped.push(true);
        Memory { heap, pool: Vec::new(), mapped }
    }

    /// Allocate a zero-filled segment of `size` words and return its handle,
    /// reusing the most recently freed handle before minting a new one.
    pub fn allocate(&mut self, size: usize) -> (h: usize)
        requires
            old(self).inv(),
        ensures
            final(self).inv(),
            h == alloc_model(old(self)@, size).1,
            final(self)@ == alloc_model(old(self)@, size).0,
            final(self)@.valid(h),
            h != 0,
    {
        let space = zeros(size);
        if self.pool.len() == 0 {
            self.heap.push(space);
            self.mapped.push(true);
            let h = self.heap.len() - 1;
            proof {
                assert(self@.heap =~= alloc_model(old(self)@, size).0.heap);
                assert(self@.mapped =~= alloc_model(old(self)@, size).0.mapped);
            }
            h
        } else {
            proof {
                let oldp = old(self)@.pool;
                assert(oldp[oldp.len() - 1] < old(self)@.heap.len());
            }
            let h = self.pool.pop().unwrap();
            self.heap.set(h, space);
            self.mapped.set(h, true);
            proof {
                let post = alloc_model(old(self)@, size).0;
                assert(self@.heap =~= post.heap);
                assert(self@.mapped =~= post.mapped);
                assert(self@.pool =~= post.pool);
                let oldp = old(self)@.pool;
                assert forall|g: usize|
                    0 < g < self@.heap.len() && !(#[trigger] self@.mapped[g as int]) implies self@
                    .pool.contains(g) by {
                    assert(oldp.contains(g));
                    let i = choose|i: int| 0 <= i < oldp.len() && oldp[i] == g;
                    assert(oldp[i] != oldp[oldp.len() - 1]);
                    assert(self@.pool[i] == g);
                }
            }
            h
        }
    }

    /// Free the segment under `address`: clear its contents and return the
    /// handle to the reuse pool. Refused (`false`, store unchanged) when the
    /// handle is 0, never allocated, or already free.
    pub fn deallocate(&mut self, address: usize) -> (ok: bool)
        requires
            old(self).inv(),
        ensures
            final(self).inv(),
            ok <==> (old(self)@.valid(address) && address != 0),
            ok ==> final(self)@ == free_model(old(self)@, address),
            !ok ==> *final(self) == *old(self),
    {
        if address == 0 || address >= self.heap.len() {
            return false;
        }
        if !self.mapped[address] {
            return false;
        }
        self.mapped.set(address, false);
        self.heap.set(address, Vec::new());
        self.pool.push(address);
        proof {
            let post = free_model(old(self)@, address);
            assert(self@.heap =~= post.heap);
            assert(self@.mapped =~= post.mapped);
            assert(self@.pool =~= post.pool);
            let oldm = old(self)@;
            let newp = self@.pool;
            assert forall|i: int|
                0 <= i < newp.len() implies (#[trigger] newp[i]) < self@.heap.len()
                && newp[i] != 0 && !self@.mapped[newp[i] as int] by {
                if i < newp.len() - 1 {
                    assert(oldm.pool[i] == newp[i]);
                }
            }
            assert forall|g: usize|
                0 < g < self@.heap.len() && !(#[trigger] self@.mapped[g as int]) implies newp
                .contains(g) by {
                if g == address {
                    assert(newp[newp.len() - 1] == address);
                } else {
                    assert(oldm.pool.contains(g));
                    let i = choose|i: int| 0 <= i < oldm.pool.len() && oldm.pool[i] == g;
                    assert(newp[i] == g);
                }
            }
            assert forall|i: int, j: int|
                0 <= i < j < newp.len() implies (#[trigger] newp[i]) != (#[trigger] newp[j]) by {
                if j == newp.len() - 1 {
                    assert(oldm.pool[i] == newp[i]);
                    assert(!oldm.mapped[oldm.pool[i] as int]);
                }
            }
        }
        true
    }

    /// The word at `address` of segment `seg_id`, or `None` (a segment
    /// fault) when the handle is not live or the address out of bounds.
    pub fn load(&self, seg_id: usize, address: usize) -> (r: Option<u32>)
        requires
            self.inv(),
        ensures
            r == read_model(self@, seg_id, address),
    {
        if seg_id >= self.heap.len() {
            return None;
        }
        if !self.mapped[seg_id] {
            return None;
        }
        let seg = &self.heap[seg_id];
        if address >= seg.len() {
            return None;
        }
        Some(seg[address])
    }

    /// The instruction word at `pc` in segment 0 (the active program), or
    /// `None` when `pc` runs past the program's end.
    pub fn get_instruction(&self, pc: usize) -> (r: Option<u32>)
        requires
            self.inv(),
        ensures
            r == read_model(self@, 0, pc),
            r is Some ==> pc < usize::MAX,
    {
        let program = &self.heap[0];
        if pc >= program.len() {
            None
        } else {
            Some(program[pc])
        }
    }

    /// Store `value` at `address` of segment `seg_id`. Refused (`false`,
    /// store unchanged: a segment fault) under the same conditions as `load`.
    pub fn store(&mut self, seg_id: usize, address: usize, value: u32) -> (ok: bool)
        requires
            old(self).inv(),
        ensures
            final(self).inv(),
            ok <==> (old(self)@.valid(seg_id) && (address as nat) < old(self)@.seg(
                seg_id,
            ).len()),
            ok ==> final(self)@ == write_model(old(self)@, seg_id, address, value),
            !ok ==> *final(self) == *old(self),
    {
        if seg_id >= self.heap.len() {
            return false;
        }
        if !self.mapped[seg_id] {
            return false;
        }
        if address >= self.heap[seg_id].len() {
            return false;
        }
        let mut seg: Vec<u32> = Vec::new();
        self.heap.set_and_swap(seg_id, &mut seg);
        seg.set(address, value);
        self.heap.set_and_swap(seg_id, &mut seg);
        proof {
            let post = write_model(old(self)@, seg_id, address, value);
            assert(self@.heap =~= post.heap);
        }
        true
    }

    /// Copy the full contents of segment `seg_id` into segment 0, replacing
    /// the program being executed; segment `seg_id` itself is unchanged.
    /// Refused (`false`, store unchanged) when the handle is not live.
    pub fn load_segment(&mut self, seg_id: usize) -> (ok: bool)
        requires
            old(self).inv(),
        ensures
            final(self).inv(),
            ok <==> old(self)@.valid(seg_id),
            ok ==> final(self)@ == swap_model(old(self)@, seg_id),
            !ok ==> *final(self) == *old(self),
    {
        if seg_id >= self.heap.len() {
            return false;
        }
        if !self.mapped[seg_id] {
            return false;
        }
        let copy = copy_words(&self.heap[seg_id]);
        self.heap.set(0, copy);
        proof {
            let post = swap_model(old(self)@, seg_id);
            assert(self@.heap =~= post.heap);
        }
        true
    }
}

/// Handle reuse: freeing a live segment and then allocating hands the freed
/// handle back.
pub proof fn lemma_handle_reuse(m: MemModel, h: usize, size: usize)
    requires
        m.wf(),
        m.valid(h),
        h != 0,
    ensures
        alloc_model(free_model(m, h), size).1 == h,
{
}

/// Last-freed-first-reused: freeing `h1` then `h2` and then allocating twice
/// returns `h2` first and `h1` second.
pub proof fn lemma_handle_reuse_lifo(m: MemModel, h1: usize, h2: usize, s1: usize, s2: usize)
    requires
        m.wf(),
        m.valid(h1),
        m.valid(h2),
        h1 != 0,
        h2 != 0,
        h1 != h2,
    ensures
        ({
            let m2 = free_model(free_model(m, h1), h2);
            let (m3, a) = alloc_model(m2, s1);
            let (m4, b) = alloc_model(m3, s2);
            a == h2 && b == h1
        }),
{
    let m2 = free_model(free_model(m, h1), h2);
    assert(m2.pool.last() == h2);
    assert(m2.pool.drop_last().last() == h1);
}

/// Swap independence: after installing segment `h` as the program, segment 0
/// holds the contents segment `h` had at the call, while segment `h` itself
/// is unchanged, still live, and still separately readable.
pub proof fn lemma_swap_independence(m: MemModel, h: usize)
    requires
        m.wf(),
        m.valid(h),
    ensures
        swap_model(m, h).seg(0) == m.seg(h),
        h != 0 ==> swap_model(m, h).seg(h) == m.seg(h),
        swap_model(m, h).valid(h),
        h != 0 ==> forall|a: usize|
            read_model(swap_model(m, h), h, a) == read_model(m, h, a),
{
}

} // verus!
