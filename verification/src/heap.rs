//! The heap: a fixed-size byte arena managed by a best-fit free list
//! with coalescing on release. The free list is kept sorted by start,
//! its blocks disjoint and never touching, so that a released block
//! always merges with its neighbours at once.

use vstd::prelude::*;

use crate::errors::VmError;
use crate::utils::encode_string;
use vstd::string::StringSliceAdditionalSpecFns;

verus! {

/// A contiguous region of the arena that is available for allocation.
#[derive(Clone, Copy, Debug, PartialEq, Eq, Structural)]
pub struct FreeBlock {
    pub start: usize,
    pub size: usize,
}

/// The arena and its free list.
#[derive(Debug)]
pub struct Heap {
    pub memory: Vec<u8>,
    pub free_list: Vec<FreeBlock>,
}

/// The free-list invariant: every block is non-empty and inside the
/// arena, and consecutive blocks are ordered and never touch (touching
/// blocks would have been coalesced).
pub open spec fn blocks_wf(fl: Seq<FreeBlock>, len: int) -> bool {
    &&& forall|i: int| 0 <= i < fl.len() ==> 1 <= #[trigger] fl[i].size
    &&& forall|i: int| 0 <= i < fl.len() ==> #[trigger] fl[i].start + fl[i].size <= len
    &&& forall|i: int|
        0 <= i < fl.len() - 1 ==> #[trigger] fl[i].start + fl[i].size < fl[i + 1].start
}

/// Blocks earlier in a well-formed list end before later ones begin.
pub proof fn lemma_blocks_separated(fl: Seq<FreeBlock>, len: int, i: int, j: int)
    requires
        blocks_wf(fl, len),
        0 <= i < j < fl.len(),
    ensures
        fl[i].start + fl[i].size < fl[j].start,
    decreases j - i,
{
    if i + 1 < j {
        lemma_blocks_separated(fl, len, i + 1, j);
    }
}

/// Whether the region `[s, s + n)` intersects the block.
pub open spec fn overlaps(b: FreeBlock, s: int, n: int) -> bool {
    b.start < s + n && s < b.start + b.size
}

/// Whether some block of the list is at least `n` bytes.
pub open spec fn fits(fl: Seq<FreeBlock>, n: int) -> bool {
    exists|i: int| 0 <= i < fl.len() && n <= #[trigger] fl[i].size
}

/// Whether `j` names the best-fitting block for a request of `n`
/// bytes: large enough, of least size among those, and first among
/// equals.
pub open spec fn is_best_fit(fl: Seq<FreeBlock>, n: int, j: int) -> bool {
    &&& 0 <= j < fl.len()
    &&& n <= fl[j].size
    &&& forall|i: int|
        0 <= i < fl.len() && n <= #[trigger] fl[i].size ==> fl[j].size <= fl[i].size && (fl[i].size
            == fl[j].size ==> j <= i)
}

/// The index of the best-fitting block for a request of `n` bytes.
pub open spec fn best_fit_index(fl: Seq<FreeBlock>, n: int) -> int {
    choose|j: int| is_best_fit(fl, n, j)
}

/// At most one index is the best fit.
pub proof fn lemma_best_fit_unique(fl: Seq<FreeBlock>, n: int, j1: int, j2: int)
    requires
        is_best_fit(fl, n, j1),
        is_best_fit(fl, n, j2),
    ensures
        j1 == j2,
{
}

/// If any block fits, a best fit exists, and `best_fit_index` names
/// it.
pub proof fn lemma_best_fit_exists(fl: Seq<FreeBlock>, n: int)
    requires
        fits(fl, n),
    ensures
        is_best_fit(fl, n, best_fit_index(fl, n)),
{
    let j = pick_best_fit(fl, n, fl.len() as int);
    assert(is_best_fit(fl, n, j));
}

/// Chooses the best fit among the first `upto` blocks, given one of
/// them fits.
proof fn pick_best_fit(fl: Seq<FreeBlock>, n: int, upto: int) -> (j: int)
    requires
        0 < upto <= fl.len(),
        exists|i: int| 0 <= i < upto && n <= #[trigger] fl[i].size,
    ensures
        0 <= j < upto,
        n <= fl[j].size,
        forall|i: int|
            0 <= i < upto && n <= #[trigger] fl[i].size ==> fl[j].size <= fl[i].size && (fl[i].size
                == fl[j].size ==> j <= i),
    decreases upto,
{
    if upto == 1 {
        0
    } else if exists|i: int| 0 <= i < upto - 1 && n <= #[trigger] fl[i].size {
        let j = pick_best_fit(fl, n, upto - 1);
        if n <= fl[upto - 1].size && fl[upto - 1].size < fl[j].size {
            upto - 1
        } else {
            j
        }
    } else {
        assert(n <= fl[upto - 1].size);
        upto - 1
    }
}

/// The free list after the best-fitting block serves a request of `n`
/// bytes: removed when consumed whole, else shrunk in place from the
/// front.
pub open spec fn alloc_result(fl: Seq<FreeBlock>, n: int) -> Seq<FreeBlock> {
    let j = best_fit_index(fl, n);
    if fl[j].size == n {
        fl.remove(j)
    } else {
        fl.update(j, FreeBlock { start: (fl[j].start + n) as usize, size: (fl[j].size - n) as usize })
    }
}

impl Heap {
    /// The free-list invariant over this arena.
    pub open spec fn wf(&self) -> bool {
        blocks_wf(self.free_list@, self.memory@.len() as int)
    }

    /// A fresh arena of `size` zero bytes, all of it one free block.
    pub fn new(size: usize) -> (r: Heap)
        ensures
            r.wf(),
            r.memory@ == Seq::new(size as nat, |i: int| 0u8),
            size > 0 ==> r.free_list@ =~= seq![FreeBlock { start: 0, size }],
            size == 0 ==> r.free_list@ =~= Seq::<FreeBlock>::empty(),
    {
        let memory = vec_of_zeros(size);
        let mut free_list: Vec<FreeBlock> = Vec::new();
        if size > 0 {
            free_list.push(FreeBlock { start: 0, size });
        }
        Heap { memory, free_list }
    }

    /// Serves an allocation from the best-fitting free block: the
    /// smallest block at least `size` bytes large, ties broken by
    /// list order. The block is consumed from the front; a remainder
    /// stays free.
    pub fn allocate(&mut self, size: usize) -> (r: Result<usize, VmError>)
        requires
            old(self).wf(),
        ensures
            final(self).wf(),
            final(self).memory == old(self).memory,
            !fits(old(self).free_list@, size as int) ==> r == Err::<usize, VmError>(
                VmError::OutOfMemory,
            ) && final(self).free_list == old(self).free_list,
            fits(old(self).free_list@, size as int) ==> {
                let j = best_fit_index(old(self).free_list@, size as int);
                &&& is_best_fit(old(self).free_list@, size as int, j)
                &&& r == Ok::<usize, VmError>(old(self).free_list@[j].start)
                &&& final(self).free_list@ == alloc_result(old(self).free_list@, size as int)
            },
    {
        let ghost fl = self.free_list@;
        let mut best_fit: Option<usize> = None;
        let mut index: usize = 0;
        while index < self.free_list.len()
            invariant
                *self == *old(self),
                self.wf(),
                0 <= index <= fl.len(),
                fl == self.free_list@,
                match best_fit {
                    Some(b) => {
                        &&& 0 <= b < index
                        &&& size <= fl[b as int].size
                        &&& forall|i: int|
                            0 <= i < index && size <= #[trigger] fl[i].size ==> fl[
                                b as int
                            ].size <= fl[i].size && (fl[i].size == fl[b as int].size ==> b <= i)
                    },
                    None => forall|i: int| 0 <= i < index ==> !(size <= #[trigger] fl[i].size),
                },
            decreases fl.len() - index,
        {
            let block = self.free_list[index];
            if block.size >= size {
                match best_fit {
                    Some(best_fit_index) => {
                        if self.free_list[best_fit_index].size > block.size {
                            best_fit = Some(index);
                        }
                    },
                    None => {
                        best_fit = Some(index);
                    },
                }
            }
            index = index + 1;
        }
        match best_fit {
            Some(j) => {
                proof {
                    assert(is_best_fit(fl, size as int, j as int));
                    lemma_best_fit_exists(fl, size as int);
                    lemma_best_fit_unique(
                        fl,
                        size as int,
                        j as int,
                        best_fit_index(fl, size as int),
                    );
                }
                let block = self.free_list[j];
                let mlen = self.memory.len();
                proof {
                    assert(fl[j as int].start + fl[j as int].size <= mlen);
                }
                if block.size > size {
                    self.free_list.set(
                        j,
                        FreeBlock { start: block.start + size, size: block.size - size },
                    );
                    proof {
                        assert forall|i: int|
                            0 <= i < self.free_list@.len()
                                - 1 implies #[trigger] self.free_list@[i].start
                            + self.free_list@[i].size < self.free_list@[i + 1].start by {
                            if i == j - 1 {
                                assert(fl[i].start + fl[i].size < fl[j as int].start);
                            }
                        }
                    }
                } else {
                    self.free_list.remove(j);
                    proof {
                        assert forall|i: int|
                            0 <= i < self.free_list@.len()
                                - 1 implies #[trigger] self.free_list@[i].start
                            + self.free_list@[i].size < self.free_list@[i + 1].start by {
                            if i == j - 1 {
                                lemma_blocks_separated(fl, self.memory@.len() as int, i, j + 1);
                            }
                        }
                    }
                }
                Ok(block.start)
            },
            None => Err(VmError::OutOfMemory),
        }
    }

    /// Releases the region `[start, start + size)`. A region outside
    /// the arena, or one that collides with a block already free, is
    /// refused. The released block is placed in start order and
    /// coalesced at once with any neighbour it touches; releasing
    /// zero bytes changes nothing.
    pub fn free(&mut self, start: usize, size: usize) -> (r: Result<(), VmError>)
        requires
            old(self).wf(),
        ensures
            final(self).wf(),
            final(self).memory == old(self).memory,
            start + size > old(self).memory@.len() || (size > 0 && free_conflict(
                old(self).free_list@,
                start as int,
                size as int,
            )) ==> r == Err::<(), VmError>(VmError::InvalidFree) && final(self).free_list == old(
                self,
            ).free_list,
            start + size <= old(self).memory@.len() && !(size > 0 && free_conflict(
                old(self).free_list@,
                start as int,
                size as int,
            )) ==> r == Ok::<(), VmError>(()) && final(self).free_list@ == free_result(
                old(self).free_list@,
                start,
                size,
            ),
    {
        let len = self.memory.len();
        if size > len || start > len - size {
            return Err(VmError::InvalidFree);
        }
        if size == 0 {
            return Ok(());
        }
        let ghost fl = self.free_list@;
        let mut k: usize = 0;
        while k < self.free_list.len()
            invariant
                *self == *old(self),
                self.wf(),
                fl == self.free_list@,
                len == self.memory@.len(),
                start + size <= len,
                1 <= size,
                forall|i: int| 0 <= i < k ==> !overlaps(#[trigger] fl[i], start as int, size as int),
            decreases fl.len() - k,
        {
            let block = self.free_list[k];
            proof {
                assert(fl[k as int].start + fl[k as int].size <= len);
            }
            if block.start < start + size && start < block.start + block.size {
                return Err(VmError::InvalidFree);
            }
            k = k + 1;
        }
        let mut p: usize = 0;
        while p < self.free_list.len() && self.free_list[p].start < start
            invariant
                *self == *old(self),
                self.wf(),
                fl == self.free_list@,
                len == self.memory@.len(),
                start + size <= len,
                1 <= size,
                0 <= p <= fl.len(),
                forall|i: int| 0 <= i < fl.len() ==> !overlaps(#[trigger] fl[i], start as int, size as int),
                forall|i: int| 0 <= i < p ==> (#[trigger] fl[i].start) < start,
            decreases fl.len() - p,
        {
            p = p + 1;
        }
        proof {
            assert forall|i: int| p <= i < fl.len() implies (start as int) < (
            #[trigger] fl[i].start) by {
                assert(!overlaps(fl[p as int], start as int, size as int));
                if i > p {
                    lemma_blocks_separated(fl, len as int, p as int, i);
                }
            }
            assert(is_insert_pos(fl, start as int, p as int));
            assert(insert_pos(fl, start as int) == p as int) by {
                lemma_insert_pos_unique(
                    fl,
                    start as int,
                    p as int,
                    insert_pos(fl, start as int),
                );
            }
            assert forall|i: int| 0 <= i < p implies #[trigger] fl[i].start + fl[i].size
                <= start by {
                assert(!overlaps(fl[i], start as int, size as int));
            }
            assert forall|i: int| p <= i < fl.len() implies start + size <= (
            #[trigger] fl[i].start) by {
                assert(!overlaps(fl[i], start as int, size as int));
            }
        }
        let ml = p > 0 && {
            let prev = self.free_list[p - 1];
            proof {
                assert(fl[p - 1].start + fl[p - 1].size <= len);
            }
            prev.start + prev.size == start
        };
        let mr = p < self.free_list.len() && {
            let next = self.free_list[p];
            start + size == next.start
        };
        if ml && mr {
            let prev = self.free_list[p - 1];
            let next = self.free_list[p];
            proof {
                assert(fl[p - 1].start + fl[p - 1].size <= len);
                assert(fl[p as int].start + fl[p as int].size <= len);
            }
            let merged = FreeBlock { start: prev.start, size: prev.size + size + next.size };
            self.free_list.set(p - 1, merged);
            self.free_list.remove(p);
            proof {
                assert(self.free_list@ =~= merge_at(fl, p as int, start, size));
                lemma_merge_at_wf(fl, len as int, p as int, start, size);
            }
        } else if ml {
            let prev = self.free_list[p - 1];
            proof {
                assert(fl[p - 1].start + fl[p - 1].size <= len);
            }
            self.free_list.set(p - 1, FreeBlock { start: prev.start, size: prev.size + size });
            proof {
                assert(self.free_list@ =~= merge_at(fl, p as int, start, size));
                lemma_merge_at_wf(fl, len as int, p as int, start, size);
            }
        } else if mr {
            let next = self.free_list[p];
            proof {
                assert(fl[p as int].start + fl[p as int].size <= len);
            }
            self.free_list.set(p, FreeBlock { start, size: size + next.size });
            proof {
                assert(self.free_list@ =~= merge_at(fl, p as int, start, size));
                lemma_merge_at_wf(fl, len as int, p as int, start, size);
            }
        } else {
            self.free_list.insert(p, FreeBlock { start, size });
            proof {
                assert(self.free_list@ =~= merge_at(fl, p as int, start, size));
                lemma_merge_at_wf(fl, len as int, p as int, start, size);
            }
        }
        Ok(())
    }

    /// A bounds-checked read of `size` bytes at `start`.
    pub fn load(&self, start: usize, size: usize) -> (r: Result<Vec<u8>, VmError>)
        ensures
            start + size <= self.memory@.len() ==> (r matches Ok(v) && v@ == self.memory@.subrange(
                start as int,
                start + size,
            )),
            start + size > self.memory@.len() ==> r == Err::<Vec<u8>, VmError>(
                VmError::OutOfBoundsLoad,
            ),
    {
        let len = self.memory.len();
        if size > len || start > len - size {
            return Err(VmError::OutOfBoundsLoad);
        }
        let mut v: Vec<u8> = Vec::new();
        let mut i: usize = 0;
        while i < size
            invariant
                len == self.memory@.len(),
                start + size <= len,
                0 <= i <= size,
                v@ =~= self.memory@.subrange(start as int, start + i),
            decreases size - i,
        {
            v.push(self.memory[start + i]);
            proof {
                assert(v@ =~= self.memory@.subrange(start as int, start + i + 1));
            }
            i = i + 1;
        }
        Ok(v)
    }

    /// Allocates room for the string's bytes and a NUL terminator,
    /// writes them, and returns where they begin.
    pub fn allocate_string(&mut self, string: &str) -> (r: Result<usize, VmError>)
        requires
            old(self).wf(),
        ensures
            final(self).wf(),
            ({
                let data = string.spec_bytes().push(0);
                let fl = old(self).free_list@;
                if fits(fl, data.len() as int) {
                    let j = best_fit_index(fl, data.len() as int);
                    &&& r == Ok::<usize, VmError>(fl[j].start)
                    &&& final(self).free_list@ == alloc_result(fl, data.len() as int)
                    &&& final(self).memory@ == splice(old(self).memory@, fl[j].start as int, data)
                } else {
                    &&& r == Err::<usize, VmError>(VmError::OutOfMemory)
                    &&& *final(self) == *old(self)
                }
            }),
    {
        let mut data = encode_string(string);
        data.push(0);
        self.allocate_bytes(data.as_slice())
    }

    /// Allocates room for the given bytes, writes them, and returns
    /// where they begin.
    pub fn allocate_bytes(&mut self, data: &[u8]) -> (r: Result<usize, VmError>)
        requires
            old(self).wf(),
        ensures
            final(self).wf(),
            ({
                let fl = old(self).free_list@;
                if fits(fl, data@.len() as int) {
                    let j = best_fit_index(fl, data@.len() as int);
                    &&& r == Ok::<usize, VmError>(fl[j].start)
                    &&& final(self).free_list@ == alloc_result(fl, data@.len() as int)
                    &&& final(self).memory@ == splice(old(self).memory@, fl[j].start as int, data@)
                } else {
                    &&& r == Err::<usize, VmError>(VmError::OutOfMemory)
                    &&& *final(self) == *old(self)
                }
            }),
    {
        let n = data.len();
        let ghost fl = old(self).free_list@;
        let mlen = self.memory.len();
        match self.allocate(n) {
            Ok(start) => {
                if n == 0 {
                    proof {
                        assert(splice(self.memory@, start as int, data@) =~= self.memory@);
                    }
                    return Ok(start);
                }
                proof {
                    lemma_best_fit_exists(fl, n as int);
                    let j = best_fit_index(fl, n as int);
                    assert(fl[j].start + fl[j].size <= mlen);
                    assert(n <= fl[j].size);
                    lemma_alloc_region_writable(fl, mlen as int, n as int);
                    assert(start == fl[j].start);
                    assert(start + n <= self.memory@.len());
                    assert forall|k: int| 0 <= k < self.free_list@.len() implies !inside(
                        #[trigger] self.free_list@[k],
                        start as int,
                        n as int,
                    ) by {
                        assert(self.free_list@ == alloc_result(fl, n as int));
                        assert(self.free_list@[k] == alloc_result(fl, n as int)[k]);
                    }
                }
                proof {
                    assert(!(exists|k: int|
                        0 <= k < self.free_list@.len() && inside(
                            #[trigger] self.free_list@[k],
                            start as int,
                            data@.len() as int,
                        )));
                }
                let stored = self.store(start, data);
                proof {
                    assert(stored is Ok);
                }
                Ok(start)
            },
            Err(e) => Err(e),
        }
    }

    /// A bounds-checked write of `data` at `start`, refused when the
    /// destination lies entirely inside a free block.
    pub fn store(&mut self, start: usize, data: &[u8]) -> (r: Result<(), VmError>)
        requires
            old(self).wf(),
        ensures
            final(self).free_list == old(self).free_list,
            r matches Err(_) ==> final(self).memory == old(self).memory,
            start + data@.len() > old(self).memory@.len() ==> r == Err::<(), VmError>(
                VmError::OutOfBoundsStore,
            ),
            start + data@.len() <= old(self).memory@.len() ==> {
                if exists|k: int|
                    0 <= k < old(self).free_list@.len() && inside(
                        #[trigger] old(self).free_list@[k],
                        start as int,
                        data@.len() as int,
                    ) {
                    r == Err::<(), VmError>(VmError::WriteToFreed)
                } else {
                    (r matches Ok(u) && final(self).memory@ == splice(
                        old(self).memory@,
                        start as int,
                        data@,
                    ))
                }
            },
    {
        let n = data.len();
        let len = self.memory.len();
        if n > len || start > len - n {
            return Err(VmError::OutOfBoundsStore);
        }
        let mut k: usize = 0;
        while k < self.free_list.len()
            invariant
                *self == *old(self),
                self.wf(),
                n == data@.len(),
                len == self.memory@.len(),
                start + n <= len,
                forall|i: int|
                    0 <= i < k ==> !inside(
                        #[trigger] self.free_list@[i],
                        start as int,
                        n as int,
                    ),
            decreases self.free_list@.len() - k,
        {
            let block = self.free_list[k];
            if start >= block.start && start + n <= block.start + block.size {
                return Err(VmError::WriteToFreed);
            }
            k = k + 1;
        }
        let mut i: usize = 0;
        while i < n
            invariant
                len == self.memory@.len(),
                start + n <= len,
                0 <= i <= n,
                n == data@.len(),
                self.memory@.len() == old(self).memory@.len(),
                self.free_list == old(self).free_list,
                self.memory@ =~= old(self).memory@.subrange(0, start as int) + data@.subrange(
                    0,
                    i as int,
                ) + old(self).memory@.subrange(start + i, old(self).memory@.len() as int),
            decreases n - i,
        {
            self.memory.set(start + i, data[i]);
            proof {
                assert(self.memory@ =~= old(self).memory@.subrange(0, start as int)
                    + data@.subrange(0, i + 1) + old(self).memory@.subrange(
                    start + i + 1,
                    old(self).memory@.len() as int,
                ));
            }
            i = i + 1;
        }
        proof {
            assert(data@.subrange(0, n as int) =~= data@);
        }
        Ok(())
    }
}

/// Whether some block of the list intersects the region `[s, s + n)`.
pub open spec fn free_conflict(fl: Seq<FreeBlock>, s: int, n: int) -> bool {
    exists|k: int| 0 <= k < fl.len() && overlaps(#[trigger] fl[k], s, n)
}

/// Whether `p` is where a block starting at `s` belongs in the sorted
/// list: every earlier block starts before `s`, every later one after.
pub open spec fn is_insert_pos(fl: Seq<FreeBlock>, s: int, p: int) -> bool {
    &&& 0 <= p <= fl.len()
    &&& forall|i: int| 0 <= i < p ==> (#[trigger] fl[i].start) < s
    &&& forall|i: int| p <= i < fl.len() ==> s < (#[trigger] fl[i].start)
}

/// The position where a block starting at `s` belongs.
pub open spec fn insert_pos(fl: Seq<FreeBlock>, s: int) -> int {
    choose|p: int| is_insert_pos(fl, s, p)
}

/// At most one position fits a given start.
pub proof fn lemma_insert_pos_unique(fl: Seq<FreeBlock>, s: int, p1: int, p2: int)
    requires
        is_insert_pos(fl, s, p1),
        is_insert_pos(fl, s, p2),
    ensures
        p1 == p2,
{
    if p1 < p2 {
        assert(fl[p1].start < s);
        assert(s < fl[p1].start);
    }
    if p2 < p1 {
        assert(fl[p2].start < s);
        assert(s < fl[p2].start);
    }
}

/// The list with the block `[s, s + n)` placed at position `p`,
/// merged into whichever neighbours it touches.
pub open spec fn merge_at(fl: Seq<FreeBlock>, p: int, s: usize, n: usize) -> Seq<FreeBlock>
    recommends
        0 <= p <= fl.len(),
{
    let ml = p > 0 && fl[p - 1].start + fl[p - 1].size == s;
    let mr = p < fl.len() && s + n == fl[p].start;
    if ml && mr {
        fl.subrange(0, p - 1) + seq![
            FreeBlock {
                start: fl[p - 1].start,
                size: (fl[p - 1].size + n + fl[p].size) as usize,
            },
        ] + fl.subrange(p + 1, fl.len() as int)
    } else if ml {
        fl.update(p - 1, FreeBlock { start: fl[p - 1].start, size: (fl[p - 1].size + n) as usize })
    } else if mr {
        fl.update(p, FreeBlock { start: s, size: (n + fl[p].size) as usize })
    } else {
        fl.subrange(0, p) + seq![FreeBlock { start: s, size: n }] + fl.subrange(p, fl.len() as int)
    }
}

/// Placing a disjoint region at its position and coalescing keeps the
/// free list well formed.
pub proof fn lemma_merge_at_wf(fl: Seq<FreeBlock>, len: int, p: int, s: usize, n: usize)
    requires
        blocks_wf(fl, len),
        0 <= p <= fl.len(),
        1 <= n,
        s + n <= len,
        len <= usize::MAX,
        forall|i: int| 0 <= i < p ==> #[trigger] fl[i].start + fl[i].size <= s,
        forall|i: int| p <= i < fl.len() ==> s + n <= (#[trigger] fl[i].start),
    ensures
        blocks_wf(merge_at(fl, p, s, n), len),
{
    let out = merge_at(fl, p, s, n);
    let ml = p > 0 && fl[p - 1].start + fl[p - 1].size == s;
    let mr = p < fl.len() && s + n == fl[p].start;
    if ml && mr {
        assert(fl[p - 1].start + fl[p - 1].size == s);
        assert(s + n == fl[p].start);
        assert(fl[p - 1].size + n + fl[p].size == fl[p].start + fl[p].size - fl[p - 1].start);
        assert(0 <= fl[p - 1].size + n + fl[p].size <= usize::MAX);
        assert forall|i: int| 0 <= i < out.len() implies 1 <= (#[trigger] out[i].size) && out[
            i
        ].start + out[i].size <= len by {
            if i < p - 1 {
                assert(out[i] == fl[i]);
            } else if i == p - 1 {
                assert(out[i].size == fl[p - 1].size + n + fl[p].size);
                assert(out[i].start + out[i].size == fl[p].start + fl[p].size);
            } else {
                assert(out[i] == fl[i + 1]);
            }
        }
        assert forall|i: int| 0 <= i < out.len() - 1 implies #[trigger] out[i].start + out[i].size
            < out[i + 1].start by {
            if i < p - 2 {
                assert(out[i] == fl[i] && out[i + 1] == fl[i + 1]);
            } else if i == p - 2 {
                assert(out[i] == fl[i]);
                assert(out[i + 1].start == fl[p - 1].start);
            } else if i == p - 1 {
                assert(out[i].start + out[i].size == fl[p].start + fl[p].size);
                assert(out[i + 1] == fl[p + 1]);
            } else {
                assert(out[i] == fl[i + 1] && out[i + 1] == fl[i + 2]);
            }
        }
    } else if ml {
        assert forall|i: int| 0 <= i < out.len() - 1 implies #[trigger] out[i].start + out[i].size
            < out[i + 1].start by {
            if i == p - 2 {
                assert(out[i + 1].start == fl[p - 1].start);
            } else if i == p - 1 {
                assert(out[i].start + out[i].size == s + n);
                assert(s + n < fl[p].start);
            }
        }
    } else if mr {
        assert forall|i: int| 0 <= i < out.len() - 1 implies #[trigger] out[i].start + out[i].size
            < out[i + 1].start by {
            if i == p - 1 {
                assert(fl[i].start + fl[i].size <= s);
                assert(fl[i].start + fl[i].size < s) by {
                    assert(!ml);
                }
                assert(out[i + 1].start == s);
            } else if i == p {
                assert(out[i].start + out[i].size == fl[p].start + fl[p].size);
            }
        }
    } else {
        assert forall|i: int| 0 <= i < out.len() implies 1 <= (#[trigger] out[i].size) && out[
            i
        ].start + out[i].size <= len by {
            if i < p {
                assert(out[i] == fl[i]);
            } else if i > p {
                assert(out[i] == fl[i - 1]);
            }
        }
        assert forall|i: int| 0 <= i < out.len() - 1 implies #[trigger] out[i].start + out[i].size
            < out[i + 1].start by {
            if i < p - 1 {
                assert(out[i] == fl[i] && out[i + 1] == fl[i + 1]);
            } else if i == p - 1 {
                assert(out[i] == fl[i]);
                assert(fl[i].start + fl[i].size <= s);
                assert(fl[i].start + fl[i].size != s);
                assert(out[i + 1].start == s);
            } else if i == p {
                assert(out[i].start == s && out[i].size == n);
                assert(out[i + 1] == fl[p]);
                assert(s + n <= fl[p].start);
                assert(s + n != fl[p].start);
            } else {
                assert(out[i] == fl[i - 1] && out[i + 1] == fl[i]);
            }
        }
    }
}

/// The free list after the region `[s, s + n)` is released: unchanged
/// for an empty region, else the region inserted in place and
/// coalesced.
pub open spec fn free_result(fl: Seq<FreeBlock>, s: usize, n: usize) -> Seq<FreeBlock> {
    if n == 0 {
        fl
    } else {
        merge_at(fl, insert_pos(fl, s as int), s, n)
    }
}

/// After an allocation, no block of the free list contains any part
/// of the served region, so a write there cannot be refused.
pub proof fn lemma_alloc_region_writable(fl: Seq<FreeBlock>, len: int, n: int)
    requires
        blocks_wf(fl, len),
        fits(fl, n),
        1 <= n,
        len <= usize::MAX,
    ensures
        ({
            let j = best_fit_index(fl, n);
            let out = alloc_result(fl, n);
            forall|i: int|
                0 <= i < out.len() ==> !inside(#[trigger] out[i], fl[j].start as int, n)
        }),
{
    lemma_best_fit_exists(fl, n);
    let j = best_fit_index(fl, n);
    let out = alloc_result(fl, n);
    let s = fl[j].start as int;
    assert(fl[j].start + fl[j].size <= len);
    assert(n <= fl[j].size);
    assert forall|i: int| 0 <= i < out.len() implies !inside(#[trigger] out[i], s, n) by {
        if fl[j].size == n {
            let b = out[i];
            if i < j {
                assert(b == fl[i]);
                lemma_blocks_separated(fl, len, i, j);
            } else {
                assert(b == fl[i + 1]);
                lemma_blocks_separated(fl, len, j, i + 1);
            }
        } else {
            let b = out[i];
            if i < j {
                assert(b == fl[i]);
                lemma_blocks_separated(fl, len, i, j);
            } else if i == j {
                assert(b.start == fl[j].start + n);
            } else {
                assert(b == fl[i]);
                lemma_blocks_separated(fl, len, j, i);
            }
        }
    }
}

/// The bytes a store wrote are exactly what a load of the same region
/// returns: writing `data` at `at` and reading `data.len()` bytes
/// back from `at` yields `data`, and no other byte moved.
pub proof fn lemma_load_after_store(mem: Seq<u8>, at: int, data: Seq<u8>)
    requires
        0 <= at,
        at + data.len() <= mem.len(),
    ensures
        splice(mem, at, data).len() == mem.len(),
        splice(mem, at, data).subrange(at, at + data.len()) == data,
        forall|i: int|
            0 <= i < mem.len() && !(at <= i < at + data.len()) ==> splice(mem, at, data)[i]
                == mem[i],
{
    assert(splice(mem, at, data).subrange(at, at + data.len()) =~= data);
}

/// Releasing exactly what an allocation served, on an otherwise
/// unchanged heap, returns the free list to its prior state: the
/// released block coalesces back completely.
#[verifier::rlimit(100)]
#[verifier::spinoff_prover]
pub proof fn lemma_allocate_free_restores(fl: Seq<FreeBlock>, len: int, n: usize)
    requires
        blocks_wf(fl, len),
        fits(fl, n as int),
        len <= usize::MAX,
    ensures
        ({
            let j = best_fit_index(fl, n as int);
            free_result(alloc_result(fl, n as int), fl[j].start, n) == fl
        }),
{
    lemma_best_fit_exists(fl, n as int);
    let j = best_fit_index(fl, n as int);
    let s = fl[j].start;
    let fl2 = alloc_result(fl, n as int);
    assert(fl[j].start + fl[j].size <= len);
    assert(n <= fl[j].size);
    if n == 0 {
        assert(fl2 =~= fl);
    } else if fl[j].size == n {
        assert(fl2 == fl.remove(j));
        assert forall|i: int| 0 <= i < j implies (#[trigger] fl2[i].start) < s by {
            assert(fl2[i] == fl[i]);
            lemma_blocks_separated(fl, len, i, j);
        }
        assert forall|i: int| j <= i < fl2.len() implies (s as int) < (
        #[trigger] fl2[i].start) by {
            assert(fl2[i] == fl[i + 1]);
            lemma_blocks_separated(fl, len, j, i + 1);
        }
        assert(is_insert_pos(fl2, s as int, j));
        lemma_insert_pos_unique(fl2, s as int, j, insert_pos(fl2, s as int));
        if j > 0 {
            assert(fl2[j - 1] == fl[j - 1]);
        }
        if j < fl2.len() {
            assert(fl2[j] == fl[j + 1]);
            lemma_blocks_separated(fl, len, j, j + 1);
        }
        assert(merge_at(fl2, j, s, n) =~= fl);
    } else {
        assert(fl2 == fl.update(
            j,
            FreeBlock { start: (s + n) as usize, size: (fl[j].size - n) as usize },
        ));
        assert forall|i: int| 0 <= i < j implies (#[trigger] fl2[i].start) < s by {
            assert(fl2[i] == fl[i]);
            lemma_blocks_separated(fl, len, i, j);
        }
        assert forall|i: int| j <= i < fl2.len() implies (s as int) < (
        #[trigger] fl2[i].start) by {
            if i == j {
                assert(fl2[i].start == s + n);
            } else {
                assert(fl2[i] == fl[i]);
                lemma_blocks_separated(fl, len, j, i);
            }
        }
        assert(is_insert_pos(fl2, s as int, j));
        lemma_insert_pos_unique(fl2, s as int, j, insert_pos(fl2, s as int));
        if j > 0 {
            assert(fl2[j - 1] == fl[j - 1]);
        }
        assert(merge_at(fl2, j, s, n) =~= fl);
    }
}

/// Whether the region `[s, s + n)` lies entirely inside the block.
pub open spec fn inside(b: FreeBlock, s: int, n: int) -> bool {
    b.start <= s && s + n <= b.start + b.size
}

/// The byte sequence with `data` written over it at `at`.
pub open spec fn splice(mem: Seq<u8>, at: int, data: Seq<u8>) -> Seq<u8>
    recommends
        0 <= at,
        at + data.len() <= mem.len(),
{
    mem.subrange(0, at) + data + mem.subrange(at + data.len(), mem.len() as int)
}

/// A vector of `size` zero bytes.
fn vec_of_zeros(size: usize) -> (r: Vec<u8>)
    ensures
        r@ == Seq::new(size as nat, |i: int| 0u8),
{
    let mut v: Vec<u8> = Vec::new();
    let mut i: usize = 0;
    while i < size
        invariant
            0 <= i <= size,
            v@ =~= Seq::new(i as nat, |k: int| 0u8),
        decreases size - i,
    {
        v.push(0);
        proof {
            assert(v@ =~= Seq::new((i + 1) as nat, |k: int| 0u8));
        }
        i = i + 1;
    }
    v
}

} // verus!
