//! The unified address space: a fixed-size stack indexed by the stack
//! pointer, and the heap behind it. Addresses below the stack's
//! capacity name stack bytes; every other address is translated to a
//! heap offset by subtracting that capacity.

use vstd::prelude::*;

use crate::errors::VmError;
use crate::heap;
use crate::heap::Heap;
use crate::heap::splice;
use crate::utils::chars_of_bytes;
use crate::utils::encode_string;
use crate::utils::first_nul;
use crate::utils::has_nul;
use crate::utils::lemma_first_nul;
use crate::utils::string_of_bytes;
use vstd::string::StringSliceAdditionalSpecFns;

verus! {

/// The stack's capacity in bytes.
pub const STACK_SIZE: usize = 8192;

/// The heap's capacity in bytes.
pub const HEAP_SIZE: usize = 1048576;

/// The machine's memory: the stack, its pointer, and the heap.
pub struct Memory {
    pub heap: Heap,
    pub stack: Vec<u8>,
    pub stack_pointer: usize,
}

/// The position of the last NUL byte strictly below `upto`, or -1
/// when none is there.
pub open spec fn last_nul_below(s: Seq<u8>, upto: int) -> int
    recommends
        upto <= s.len(),
    decreases upto,
{
    if upto <= 0 {
        -1
    } else if 0 <= upto - 1 < s.len() && s[upto - 1] == 0 {
        upto - 1
    } else {
        last_nul_below(s, upto - 1)
    }
}

/// The last NUL below `upto` is a NUL, and nothing above it is one.
pub proof fn lemma_last_nul_below(s: Seq<u8>, upto: int)
    requires
        0 <= upto <= s.len(),
    ensures
        -1 <= last_nul_below(s, upto),
        last_nul_below(s, upto) == -1 ==> forall|i: int| 0 <= i < upto ==> s[i] != 0,
        last_nul_below(s, upto) >= 0 ==> {
            &&& last_nul_below(s, upto) < upto
            &&& s[last_nul_below(s, upto)] == 0
            &&& forall|i: int| last_nul_below(s, upto) < i < upto ==> s[i] != 0
        },
    decreases upto,
{
    if upto > 0 && s[upto - 1] != 0 {
        lemma_last_nul_below(s, upto - 1);
    }
}

impl Memory {
    /// The stack's capacity; every address at or beyond it is a heap
    /// address.
    pub open spec fn ss(&self) -> int {
        self.stack@.len() as int
    }

    /// The stack pointer as a mathematical index.
    pub open spec fn sp(&self) -> int {
        self.stack_pointer as int
    }

    /// The memory invariant: the stack pointer stays within the
    /// stack, the heap's free list is well formed, and the unified
    /// address space fits the machine word.
    pub open spec fn wf(&self) -> bool {
        &&& self.stack_pointer <= self.stack@.len()
        &&& self.heap.wf()
        &&& self.stack@.len() + self.heap.memory@.len() <= usize::MAX
    }

    /// Whether `address` falls in the heap's half of the space.
    pub open spec fn is_heap_spec(&self, address: int) -> bool {
        address >= self.ss()
    }

    fn is_heap_address(&self, address: usize) -> (r: bool)
        ensures
            r == self.is_heap_spec(address as int),
    {
        address >= self.stack.len()
    }

    /// A fresh machine memory: an empty stack and a fully free heap.
    pub fn new() -> (r: Memory)
        ensures
            r.wf(),
            r.stack@ == Seq::new(STACK_SIZE as nat, |i: int| 0u8),
            r.stack_pointer == 0,
            r.heap.memory@ == Seq::new(HEAP_SIZE as nat, |i: int| 0u8),
            r.heap.free_list@ =~= seq![heap::FreeBlock { start: 0, size: HEAP_SIZE }],
    {
        Memory { heap: Heap::new(HEAP_SIZE), stack: vec_of_zeros(STACK_SIZE), stack_pointer: 0 }
    }

    /// Where the heap begins in the unified space.
    pub fn heap_start(&self) -> (r: usize)
        ensures
            r == self.ss(),
    {
        self.stack.len()
    }

    /// Reads `size` bytes at a unified address, from the stack or the
    /// heap as the address directs.
    pub fn load(&self, address: usize, size: usize) -> (r: Result<Vec<u8>, VmError>)
        ensures
            self.is_heap_spec(address as int) ==> {
                if address - self.ss() + size <= self.heap.memory@.len() {
                    (r matches Ok(v) && v@ == self.heap.memory@.subrange(
                        address - self.ss(),
                        address - self.ss() + size,
                    ))
                } else {
                    r == Err::<Vec<u8>, VmError>(VmError::OutOfBoundsLoad)
                }
            },
            !self.is_heap_spec(address as int) ==> {
                if address + size <= self.ss() {
                    (r matches Ok(v) && v@ == self.stack@.subrange(
                        address as int,
                        address + size,
                    ))
                } else {
                    r == Err::<Vec<u8>, VmError>(VmError::OutOfBoundsLoad)
                }
            },
    {
        if self.is_heap_address(address) {
            let heap_address = address - self.heap_start();
            self.heap.load(heap_address, size)
        } else {
            self.stack_load(address, size)
        }
    }

    /// Reads `size` bytes of the stack at `address`, checked against
    /// the stack's capacity.
    fn stack_load(&self, address: usize, size: usize) -> (r: Result<Vec<u8>, VmError>)
        ensures
            address + size <= self.ss() ==> (r matches Ok(v) && v@ == self.stack@.subrange(
                address as int,
                address + size,
            )),
            address + size > self.ss() ==> r == Err::<Vec<u8>, VmError>(VmError::OutOfBoundsLoad),
    {
        let len = self.stack.len();
        if size > len || address > len - size {
            return Err(VmError::OutOfBoundsLoad);
        }
        let mut v: Vec<u8> = Vec::new();
        let mut i: usize = 0;
        while i < size
            invariant
                len == self.stack@.len(),
                address + size <= len,
                0 <= i <= size,
                v@ =~= self.stack@.subrange(address as int, address + i),
            decreases size - i,
        {
            v.push(self.stack[address + i]);
            proof {
                assert(v@ =~= self.stack@.subrange(address as int, address + i + 1));
            }
            i = i + 1;
        }
        Ok(v)
    }

    /// Writes bytes at a unified address, to the stack or the heap as
    /// the address directs. A heap write into a free block is
    /// refused.
    pub fn store(&mut self, address: usize, value: &[u8]) -> (r: Result<(), VmError>)
        requires
            old(self).wf(),
        ensures
            final(self).wf(),
            final(self).stack_pointer == old(self).stack_pointer,
            final(self).heap.free_list == old(self).heap.free_list,
            r matches Err(_) ==> *final(self) == *old(self),
            old(self).is_heap_spec(address as int) ==> final(self).stack == old(self).stack && {
                let hs = address - old(self).ss();
                if hs + value@.len() > old(self).heap.memory@.len() {
                    r == Err::<(), VmError>(VmError::OutOfBoundsStore)
                } else if exists|k: int|
                    0 <= k < old(self).heap.free_list@.len() && heap::inside(
                        #[trigger] old(self).heap.free_list@[k],
                        hs,
                        value@.len() as int,
                    ) {
                    r == Err::<(), VmError>(VmError::WriteToFreed)
                } else {
                    (r matches Ok(u) && final(self).heap.memory@ == splice(
                        old(self).heap.memory@,
                        hs,
                        value@,
                    ))
                }
            },
            !old(self).is_heap_spec(address as int) ==> final(self).heap == old(self).heap && {
                if address + value@.len() <= old(self).ss() {
                    (r matches Ok(u) && final(self).stack@ == splice(
                        old(self).stack@,
                        address as int,
                        value@,
                    ))
                } else {
                    r == Err::<(), VmError>(VmError::StackOverflow)
                }
            },
    {
        if self.is_heap_address(address) {
            let heap_address = address - self.heap_start();
            self.heap.store(heap_address, value)
        } else {
            self.stack_store(address, value)
        }
    }

    /// Writes bytes into the stack at `address`, checked against the
    /// stack's capacity.
    fn stack_store(&mut self, address: usize, value: &[u8]) -> (r: Result<(), VmError>)
        ensures
            final(self).heap == old(self).heap,
            final(self).stack_pointer == old(self).stack_pointer,
            final(self).stack@.len() == old(self).stack@.len(),
            address + value@.len() <= old(self).ss() ==> (r matches Ok(u) && final(self).stack@
                == splice(old(self).stack@, address as int, value@)),
            address + value@.len() > old(self).ss() ==> r == Err::<(), VmError>(
                VmError::StackOverflow,
            ) && *final(self) == *old(self),
    {
        let n = value.len();
        let len = self.stack.len();
        if n > len || address > len - n {
            return Err(VmError::StackOverflow);
        }
        let mut i: usize = 0;
        while i < n
            invariant
                len == self.stack@.len(),
                self.stack@.len() == old(self).stack@.len(),
                address + n <= len,
                0 <= i <= n,
                n == value@.len(),
                self.heap == old(self).heap,
                self.stack_pointer == old(self).stack_pointer,
                self.stack@ =~= old(self).stack@.subrange(0, address as int) + value@.subrange(
                    0,
                    i as int,
                ) + old(self).stack@.subrange(address + i, old(self).stack@.len() as int),
            decreases n - i,
        {
            self.stack.set(address + i, value[i]);
            proof {
                assert(self.stack@ =~= old(self).stack@.subrange(0, address as int)
                    + value@.subrange(0, i + 1) + old(self).stack@.subrange(
                    address + i + 1,
                    old(self).stack@.len() as int,
                ));
            }
            i = i + 1;
        }
        proof {
            assert(value@.subrange(0, n as int) =~= value@);
        }
        Ok(())
    }

    /// Serves a heap allocation and returns its unified address.
    pub fn allocate_heap(&mut self, size: usize) -> (r: Result<usize, VmError>)
        requires
            old(self).wf(),
        ensures
            final(self).wf(),
            final(self).stack == old(self).stack,
            final(self).stack_pointer == old(self).stack_pointer,
            final(self).heap.memory == old(self).heap.memory,
            !heap::fits(old(self).heap.free_list@, size as int) ==> r == Err::<usize, VmError>(
                VmError::OutOfMemory,
            ) && *final(self) == *old(self),
            heap::fits(old(self).heap.free_list@, size as int) ==> {
                let fl = old(self).heap.free_list@;
                let j = heap::best_fit_index(fl, size as int);
                &&& r == Ok::<usize, VmError>((fl[j].start + old(self).ss()) as usize)
                &&& final(self).heap.free_list@ == heap::alloc_result(fl, size as int)
            },
    {
        let hs = self.heap_start();
        match self.heap.allocate(size) {
            Ok(address) => {
                proof {
                    let fl = old(self).heap.free_list@;
                    let j = heap::best_fit_index(fl, size as int);
                    assert(fl[j].start + fl[j].size <= old(self).heap.memory@.len());
                }
                Ok(address + hs)
            },
            Err(e) => Err(e),
        }
    }

    /// Releases a heap region named by its unified address. An
    /// address below the heap cannot be released.
    pub fn free(&mut self, address: usize, size: usize) -> (r: Result<(), VmError>)
        requires
            old(self).wf(),
        ensures
            final(self).wf(),
            final(self).stack == old(self).stack,
            final(self).stack_pointer == old(self).stack_pointer,
            final(self).heap.memory == old(self).heap.memory,
            !old(self).is_heap_spec(address as int) ==> r == Err::<(), VmError>(
                VmError::InvalidFree,
            ) && *final(self) == *old(self),
            old(self).is_heap_spec(address as int) ==> {
                let hs = address - old(self).ss();
                let fl = old(self).heap.free_list@;
                if hs + size > old(self).heap.memory@.len() || (size > 0 && heap::free_conflict(
                    fl,
                    hs,
                    size as int,
                )) {
                    r == Err::<(), VmError>(VmError::InvalidFree) && *final(self) == *old(self)
                } else {
                    r == Ok::<(), VmError>(()) && final(self).heap.free_list@ == heap::free_result(
                        fl,
                        hs as usize,
                        size,
                    )
                }
            },
    {
        if self.is_heap_address(address) {
            let heap_address = address - self.heap_start();
            self.heap.free(heap_address, size)
        } else {
            Err(VmError::InvalidFree)
        }
    }

    /// Advances the stack pointer by `offset` bytes; running past the
    /// stack's capacity is fatal.
    pub fn move_stack_pointer_by(&mut self, offset: usize) -> (r: Result<(), VmError>)
        ensures
            final(self).heap == old(self).heap,
            final(self).stack == old(self).stack,
            old(self).sp() + offset <= old(self).ss() ==> r == Ok::<(), VmError>(())
                && final(self).sp() == old(self).sp() + offset,
            old(self).sp() + offset > old(self).ss() ==> r == Err::<(), VmError>(
                VmError::StackOverflow,
            ) && *final(self) == *old(self),
    {
        let len = self.stack.len();
        if offset > len || self.stack_pointer > len - offset {
            return Err(VmError::StackOverflow);
        }
        self.stack_pointer = self.stack_pointer + offset;
        Ok(())
    }

    /// Resets the stack pointer to `address`, which must lie within
    /// the stack.
    pub fn move_stack_pointer_to(&mut self, address: usize)
        requires
            address <= old(self).ss(),
        ensures
            final(self).heap == old(self).heap,
            final(self).stack == old(self).stack,
            final(self).stack_pointer == address,
    {
        self.stack_pointer = address;
    }

    /// Pushes bytes at the stack pointer and advances it; returns
    /// where they were written.
    pub fn push(&mut self, value: &[u8]) -> (r: Result<usize, VmError>)
        requires
            old(self).wf(),
        ensures
            final(self).wf(),
            final(self).heap == old(self).heap,
            final(self).ss() == old(self).ss(),
            old(self).sp() + value@.len() <= old(self).ss() ==> {
                &&& r == Ok::<usize, VmError>(old(self).stack_pointer)
                &&& final(self).stack@ == splice(old(self).stack@, old(self).sp(), value@)
                &&& final(self).sp() == old(self).sp() + value@.len()
            },
            old(self).sp() + value@.len() > old(self).ss() ==> r == Err::<usize, VmError>(
                VmError::StackOverflow,
            ) && *final(self) == *old(self),
    {
        let address = self.stack_pointer;
        let len = self.stack.len();
        if value.len() > len || address > len - value.len() {
            return Err(VmError::StackOverflow);
        }
        let r = self.stack_store(address, value);
        proof {
            assert(r is Ok);
        }
        self.stack_pointer = address + value.len();
        Ok(address)
    }

    /// Pushes the string's bytes and a NUL terminator.
    pub fn push_string(&mut self, value: &str) -> (r: Result<(), VmError>)
        requires
            old(self).wf(),
        ensures
            final(self).wf(),
            final(self).heap == old(self).heap,
            final(self).ss() == old(self).ss(),
            ({
                let data = value.spec_bytes().push(0);
                if old(self).sp() + data.len() <= old(self).ss() {
                    &&& r == Ok::<(), VmError>(())
                    &&& final(self).stack@ == splice(old(self).stack@, old(self).sp(), data)
                    &&& final(self).sp() == old(self).sp() + data.len()
                } else {
                    r == Err::<(), VmError>(VmError::StackOverflow) && *final(self) == *old(self)
                }
            }),
    {
        let mut data = encode_string(value);
        data.push(0);
        match self.push(data.as_slice()) {
            Ok(_) => Ok(()),
            Err(e) => Err(e),
        }
    }

    /// Pops `size` bytes: moves the stack pointer down and returns
    /// the bytes it passed over.
    pub fn pop(&mut self, size: usize) -> (r: Result<Vec<u8>, VmError>)
        requires
            old(self).wf(),
        ensures
            final(self).wf(),
            final(self).heap == old(self).heap,
            final(self).stack == old(self).stack,
            size <= old(self).sp() ==> {
                &&& (r matches Ok(v) && v@ == old(self).stack@.subrange(
                    old(self).sp() - size,
                    old(self).sp(),
                ))
                &&& final(self).sp() == old(self).sp() - size
            },
            size > old(self).sp() ==> r == Err::<Vec<u8>, VmError>(VmError::StackUnderflow)
                && *final(self) == *old(self),
    {
        if size > self.stack_pointer {
            return Err(VmError::StackUnderflow);
        }
        self.stack_pointer = self.stack_pointer - size;
        let address = self.stack_pointer;
        let value = self.stack_load(address, size);
        proof {
            assert(value is Ok);
        }
        value
    }

    /// Pops bytes downward until a NUL, returning them as characters
    /// in the order popped: the reverse of their order in memory.
    #[verifier::loop_isolation(false)]
    #[verifier::rlimit(50)]
    pub fn pop_string(&mut self) -> (r: Result<String, VmError>)
        requires
            old(self).wf(),
        ensures
            final(self).wf(),
            final(self).heap == old(self).heap,
            final(self).stack == old(self).stack,
            ({
                let z = last_nul_below(old(self).stack@, old(self).sp());
                if z >= 0 {
                    &&& (r matches Ok(s) && s@ == chars_of_bytes(
                        old(self).stack@.subrange(z + 1, old(self).sp()).reverse(),
                    ))
                    &&& final(self).sp() == z
                } else {
                    &&& r == Err::<String, VmError>(VmError::StackUnderflow)
                    &&& final(self).sp() == 0
                }
            }),
    {
        proof {
            lemma_last_nul_below(old(self).stack@, old(self).sp());
        }
        let ghost z = last_nul_below(old(self).stack@, old(self).sp());
        let ghost s0 = old(self).stack@;
        let ghost hi = old(self).sp();
        let mut bytes: Vec<u8> = Vec::new();
        loop
            invariant
                self.wf(),
                self.heap == old(self).heap,
                self.stack == old(self).stack,
                s0 == old(self).stack@,
                hi == old(self).sp(),
                0 <= hi <= s0.len(),
                z == last_nul_below(s0, hi),
                z < self.sp() <= hi,
                bytes@ == s0.subrange(self.sp(), hi).reverse(),
            decreases self.sp(),
        {
            if self.stack_pointer == 0 {
                return Err(VmError::StackUnderflow);
            }
            self.stack_pointer = self.stack_pointer - 1;
            let byte = self.stack[self.stack_pointer];
            if byte == 0 {
                proof {
                    lemma_last_nul_below(s0, hi);
                    if self.sp() != z {
                        assert(z < self.sp() < hi);
                        assert(s0[self.sp()] != 0);
                    }
                    assert(self.sp() == z);
                }
                return Ok(string_of_bytes(&bytes));
            }
            bytes.push(byte);
            proof {
                assert(bytes@ =~= s0.subrange(self.sp(), hi).reverse());
                if self.sp() == z {
                    assert(s0[z] == 0);
                }
            }
        }
    }

    /// Reads the `size` bytes just below the stack pointer without
    /// moving it.
    pub fn peek(&self, size: usize) -> (r: Result<Vec<u8>, VmError>)
        ensures
            size <= self.sp() && self.sp() <= self.ss() ==> (r matches Ok(v) && v@
                == self.stack@.subrange(self.sp() - size, self.sp())),
            size > self.sp() ==> r == Err::<Vec<u8>, VmError>(VmError::StackUnderflow),
    {
        if size > self.stack_pointer {
            return Err(VmError::StackUnderflow);
        }
        self.stack_load(self.stack_pointer - size, size)
    }

    /// Reads `size` bytes ending `offset` below the stack pointer.
    pub fn peek_down(&self, offset: usize, size: usize) -> (r: Result<Vec<u8>, VmError>)
        ensures
            offset + size <= self.sp() && self.sp() <= self.ss() ==> (r matches Ok(v) && v@
                == self.stack@.subrange(self.sp() - offset - size, self.sp() - offset)),
            offset + size > self.sp() ==> r == Err::<Vec<u8>, VmError>(VmError::StackUnderflow),
    {
        if size > self.stack_pointer || offset > self.stack_pointer - size {
            return Err(VmError::StackUnderflow);
        }
        self.stack_load(self.stack_pointer - offset - size, size)
    }

    /// Renders the stack for inspection: one line per byte from the
    /// bottom to ten bytes past the stack pointer, each index and
    /// byte in hexadecimal, with the pointer's line marked.
    #[verifier::loop_isolation(false)]
    #[verifier::rlimit(50)]
    pub fn stack_frame(&self) -> (r: String)
        requires
            self.wf(),
            self.sp() + 10 <= usize::MAX,
        ensures
            r@ == chars_of_bytes(frame_dump(self.stack@, self.sp() as nat, 0)),
    {
        let mut out: Vec<u8> = Vec::new();
        let sp = self.stack_pointer;
        let mut i: usize = 0;
        proof {
            assert(out@ + frame_dump(self.stack@, sp as nat, 0) =~= frame_dump(
                self.stack@,
                sp as nat,
                0,
            ));
        }
        while i < sp + 10
            invariant
                0 <= i <= sp + 10,
                frame_dump(self.stack@, sp as nat, 0) =~= out@ + frame_dump(
                    self.stack@,
                    sp as nat,
                    i as nat,
                ),
            decreases sp + 10 - i,
        {
            let ghost before = out@;
            let value = if i < self.stack.len() {
                self.stack[i]
            } else {
                0
            };
            out.push(48);
            out.push(120);
            push_hex2(&mut out, i);
            out.push(58);
            out.push(32);
            out.push(48);
            out.push(120);
            push_hex2(&mut out, value as usize);
            if i == sp {
                let marker: [u8; 20] = [
                    32, 60, 45, 45, 45, 32, 115, 116, 97, 99, 107, 32, 112, 111, 105, 110, 116,
                    101, 114, 41,
                ];
                out.extend_from_slice(marker.as_slice());
                proof {
                    assert(marker@ =~= sp_marker());
                }
            }
            out.push(10);
            proof {
                assert(out@ =~= before + frame_line(
                    i as nat,
                    if i < self.stack@.len() {
                        self.stack@[i as int]
                    } else {
                        0
                    },
                    i == sp,
                ));
                assert(frame_dump(self.stack@, sp as nat, 0) =~= out@ + frame_dump(
                    self.stack@,
                    sp as nat,
                    (i + 1) as nat,
                ));
            }
            i = i + 1;
        }
        crate::utils::string_of_bytes(&out)
    }

    /// Reads the NUL-terminated string at a unified address, one
    /// character per byte.
    pub fn get_string(&self, start: usize) -> (r: Result<String, VmError>)
        ensures
            ({
                let region = if self.is_heap_spec(start as int) {
                    self.heap.memory@
                } else {
                    self.stack@
                };
                let at = if self.is_heap_spec(start as int) {
                    start - self.ss()
                } else {
                    start as int
                };
                if at <= region.len() && has_nul(region, at) {
                    (r matches Ok(s) && s@ == chars_of_bytes(
                        region.subrange(at, first_nul(region, at)),
                    ))
                } else {
                    r == Err::<String, VmError>(VmError::OutOfBoundsLoad)
                }
            }),
    {
        match self.get_string_bytes(start) {
            Ok(bytes) => Ok(crate::utils::string_of_bytes(&bytes)),
            Err(e) => Err(e),
        }
    }

    /// Reads the bytes of the NUL-terminated string at a unified
    /// address, the terminator excluded.
    #[verifier::loop_isolation(false)]
    pub fn get_string_bytes(&self, start: usize) -> (r: Result<Vec<u8>, VmError>)
        ensures
            ({
                let region = if self.is_heap_spec(start as int) {
                    self.heap.memory@
                } else {
                    self.stack@
                };
                let at = if self.is_heap_spec(start as int) {
                    start - self.ss()
                } else {
                    start as int
                };
                if at <= region.len() && has_nul(region, at) {
                    (r matches Ok(v) && v@ == region.subrange(at, first_nul(region, at)))
                } else {
                    r == Err::<Vec<u8>, VmError>(VmError::OutOfBoundsLoad)
                }
            }),
    {
        let heap_side = self.is_heap_address(start);
        let index: usize = if heap_side {
            start - self.heap_start()
        } else {
            start
        };
        let region: &Vec<u8> = if heap_side {
            &self.heap.memory
        } else {
            &self.stack
        };
        let ghost rv = region@;
        if index > region.len() {
            return Err(VmError::OutOfBoundsLoad);
        }
        let mut end: usize = index;
        while end < region.len() && region[end] != 0
            invariant
                rv == region@,
                index <= end <= rv.len(),
                forall|i: int| index <= i < end ==> rv[i] != 0,
            decreases rv.len() - end,
        {
            end = end + 1;
        }
        if end == region.len() {
            proof {
                assert(!has_nul(rv, index as int));
            }
            return Err(VmError::OutOfBoundsLoad);
        }
        proof {
            assert(rv[end as int] == 0);
            assert(has_nul(rv, index as int));
            lemma_first_nul(rv, index as int);
            assert(first_nul(rv, index as int) == end) by {
                let fi = first_nul(rv, index as int);
                if fi < end {
                    assert(rv[fi] != 0);
                }
            }
        }
        let mut bytes: Vec<u8> = Vec::new();
        proof {
            assert(bytes@ =~= rv.subrange(index as int, index as int));
        }
        let mut i: usize = index;
        while i < end
            invariant
                rv == region@,
                index <= i <= end <= rv.len(),
                bytes@ == rv.subrange(index as int, i as int),
            decreases end - i,
        {
            bytes.push(region[i]);
            proof {
                assert(rv.subrange(index as int, i + 1) =~= rv.subrange(
                    index as int,
                    i as int,
                ).push(rv[i as int]));
            }
            i = i + 1;
        }
        Ok(bytes)
    }
}

/// The ASCII hexadecimal digits of `n`, most significant first.
pub open spec fn hex_digits(n: nat) -> Seq<u8>
    decreases n,
{
    if n < 16 {
        seq![hex_digit(n)]
    } else {
        hex_digits(n / 16).push(hex_digit(n % 16))
    }
}

/// One hexadecimal digit as lowercase ASCII.
pub open spec fn hex_digit(d: nat) -> u8 {
    if d < 10 {
        (48 + d) as u8
    } else {
        (87 + d) as u8
    }
}

/// The ASCII hexadecimal form of `n`, padded to two digits.
pub open spec fn hex2_bytes(n: nat) -> Seq<u8> {
    if n < 16 {
        seq![48u8] + hex_digits(n)
    } else {
        hex_digits(n)
    }
}

/// The marker printed beside the stack pointer's line.
pub open spec fn sp_marker() -> Seq<u8> {
    seq![
        32u8, 60, 45, 45, 45, 32, 115, 116, 97, 99, 107, 32, 112, 111, 105, 110, 116, 101, 114,
        41,
    ]
}

/// One line of the stack rendering: the index and the byte at it,
/// both in hexadecimal, the pointer's line marked.
pub open spec fn frame_line(i: nat, v: u8, at_sp: bool) -> Seq<u8> {
    seq![48u8, 120] + hex2_bytes(i) + seq![58u8, 32] + seq![48u8, 120] + hex2_bytes(v as nat) + (
    if at_sp {
        sp_marker()
    } else {
        Seq::empty()
    }) + seq![10u8]
}

/// The stack rendering from index `i` up to ten bytes past the
/// pointer; bytes beyond the stack read as zero.
pub open spec fn frame_dump(stack: Seq<u8>, sp: nat, i: nat) -> Seq<u8>
    decreases sp + 10 - i,
{
    if i >= sp + 10 {
        Seq::empty()
    } else {
        frame_line(
            i,
            if i < stack.len() {
                stack[i as int]
            } else {
                0
            },
            i == sp,
        ) + frame_dump(stack, sp, i + 1)
    }
}

/// Appends the two-digit hexadecimal form of `n`.
#[verifier::loop_isolation(false)]
fn push_hex2(out: &mut Vec<u8>, n: usize)
    ensures
        final(out)@ == old(out)@ + hex2_bytes(n as nat),
{
    let mut rev: Vec<u8> = Vec::new();
    let mut m = n;
    let d = (m % 16) as u8;
    rev.push(
        if d < 10 {
            48 + d
        } else {
            87 + d
        },
    );
    m = m / 16;
    let ghost n0 = n as nat;
    while m > 0
        invariant
            rev@.len() >= 1,
            m > 0 ==> hex_digits(n0) =~= hex_digits(m as nat) + rev@.reverse(),
            m == 0 ==> hex_digits(n0) =~= rev@.reverse(),
        decreases m,
    {
        let d = (m % 16) as u8;
        rev.push(
            if d < 10 {
                48 + d
            } else {
                87 + d
            },
        );
        proof {
            assert(rev@.reverse() =~= seq![rev@[rev@.len() - 1]] + rev@.subrange(
                0,
                rev@.len() - 1,
            ).reverse());
        }
        m = m / 16;
    }
    if n < 16 {
        out.push(48);
    }
    let ghost mid = out@;
    let mut i: usize = 0;
    while i < rev.len()
        invariant
            0 <= i <= rev@.len(),
            out@ =~= mid + rev@.reverse().subrange(0, i as int),
        decreases rev@.len() - i,
    {
        out.push(rev[rev.len() - 1 - i]);
        proof {
            assert(out@ =~= mid + rev@.reverse().subrange(0, i + 1));
        }
        i = i + 1;
    }
    proof {
        assert(rev@.reverse().subrange(0, rev@.len() as int) =~= rev@.reverse());
        assert(out@ =~= old(out)@ + hex2_bytes(n as nat));
    }
}

/// A vector of `size` zero bytes.
fn vec_of_zeros(size: usize) -> (r: Vec<u8>)
    ensures
        r@ == Seq::new(size as nat, |i: int| 0u8),
{
    let mut v: Vec<u8> = Vec::new();
    let mut i: usize = 0;
    while i < size
        invariant
            0 <= i <= size,
            v@ =~= Seq::new(i as nat, |k: int| 0u8),
        decreases size - i,
    {
        v.push(0);
        proof {
            assert(v@ =~= Seq::new((i + 1) as nat, |k: int| 0u8));
        }
        i = i + 1;
    }
    v
}

} // verus!
