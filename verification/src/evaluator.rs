//! The interpreter: fetches each instruction, dispatches on its
//! opcode, and maintains the call-frame discipline over the machine
//! memory. The meaning of every opcode is written down as a spec
//! predicate relating the state before an instruction to the state
//! after it; the executable dispatcher is proved to realise exactly
//! that relation.

use vstd::prelude::*;

use crate::errors::VmError;
use crate::ffi::FFIFunction;
use crate::ffi::FFIOutcome;
use crate::ffi::FFIValue;
use crate::heap;
use crate::heap::splice;
use crate::instructions::Instruction;
use crate::instructions::OpCode;
use crate::loading::ByteCodeParser;
use crate::memory::Memory;
use crate::instructions::op_code_value;
use crate::utils::be_bytes;
use crate::utils::be_bytes_i32;
use crate::utils::be_i32;
use crate::utils::be_val;
use crate::utils::chars_of_bytes;
use crate::utils::dec_bytes;
use crate::utils::decode_signed;
use crate::utils::encode_signed;
use crate::utils::encode_unsigned;
use crate::utils::first_nul;
use crate::utils::has_nul;
use crate::utils::sign_val;
use crate::utils::to_decimal_string;
use crate::utils::unsign_val;
use vstd::math::abs;

verus! {

/// The machine: the halt flag, the bytecode cursor, the call-frame
/// registry, the memory, and the lines printed so far.
pub struct Evaluator<'a> {
    pub halt: bool,
    pub steps: u64,
    pub byte_code_parser: ByteCodeParser<'a>,
    pub stack_frames: Vec<u32>,
    pub memory: Memory,
    pub output: Vec<String>,
}

/// A signed value read from four stack bytes at `at`.
pub open spec fn i32_at(s: Seq<u8>, at: int) -> i32 {
    be_i32(s.subrange(at, at + 4))
}

/// 1 for true, 0 for false, as the comparison opcodes push it.
pub open spec fn bool_val(b: bool) -> i32 {
    if b {
        1
    } else {
        0
    }
}

/// Integer division truncated toward zero, as the machine divides.
pub open spec fn div_trunc(a: int, b: int) -> int
    recommends
        b != 0,
{
    let q = (abs(a) / abs(b)) as int;
    if (a < 0) != (b < 0) {
        -q
    } else {
        q
    }
}

/// The remainder that pairs with truncated division.
pub open spec fn rem_trunc(a: int, b: int) -> int
    recommends
        b != 0,
{
    a - b * div_trunc(a, b)
}

/// The value a two-operand opcode pushes for first pop `a` and second
/// pop `b`, or nothing when the divisor is zero. Arithmetic wraps.
pub open spec fn binop_result(op: OpCode, a: i32, b: i32) -> Option<i32> {
    match op {
        OpCode::IADD => Some(vstd::wrapping::i32_specs::wrapping_add(a, b)),
        OpCode::ISUB => Some(vstd::wrapping::i32_specs::wrapping_sub(a, b)),
        OpCode::IMUL => Some(vstd::wrapping::i32_specs::wrapping_mul(a, b)),
        OpCode::IDIV => if b == 0 {
            None
        } else {
            Some(vstd::wrapping::i32_specs::signed_crop(div_trunc(a as int, b as int)))
        },
        OpCode::IMOD => if b == 0 {
            None
        } else {
            Some(rem_trunc(a as int, b as int) as i32)
        },
        OpCode::IEQ => Some(bool_val(a == b)),
        OpCode::INE => Some(bool_val(a != b)),
        OpCode::ILT => Some(bool_val(a < b)),
        OpCode::ILE => Some(bool_val(a <= b)),
        OpCode::IGT => Some(bool_val(a > b)),
        OpCode::IGE => Some(bool_val(a >= b)),
        OpCode::IAND => Some(a & b),
        OpCode::IOR => Some(a | b),
        OpCode::IXOR => Some(a ^ b),
        _ => None,
    }
}

impl<'a> Evaluator<'a> {
    /// The bytecode buffer.
    pub open spec fn code(&self) -> Seq<u8> {
        self.byte_code_parser.byte_code@
    }

    /// The instruction counter.
    pub open spec fn ic(&self) -> int {
        self.byte_code_parser.instruction_counter as int
    }

    /// The stack pointer.
    pub open spec fn sp(&self) -> int {
        self.memory.sp()
    }

    /// The stack's capacity.
    pub open spec fn ss(&self) -> int {
        self.memory.ss()
    }

    /// The stack's bytes.
    pub open spec fn stack(&self) -> Seq<u8> {
        self.memory.stack@
    }

    /// The frame registry: stack-pointer snapshots, oldest first.
    pub open spec fn frames(&self) -> Seq<u32> {
        self.stack_frames@
    }

    /// The heap arena's bytes.
    pub open spec fn heap_mem(&self) -> Seq<u8> {
        self.memory.heap.memory@
    }

    /// The heap's free list.
    pub open spec fn free_list(&self) -> Seq<heap::FreeBlock> {
        self.memory.heap.free_list@
    }

    /// The lines printed so far, as character sequences.
    pub open spec fn out(&self) -> Seq<Seq<char>> {
        self.output.deep_view()
    }

    /// The base of the current frame.
    pub open spec fn frame_base(&self) -> int {
        self.frames().last() as int
    }

    /// The machine invariant: the memory is well formed and of the
    /// configured capacities, the frame registry keeps its sentinel,
    /// and every recorded base lies within the stack.
    pub open spec fn wf(&self) -> bool {
        &&& self.memory.wf()
        &&& self.ss() == crate::memory::STACK_SIZE as int
        &&& self.heap_mem().len() == crate::memory::HEAP_SIZE as int
        &&& self.frames().len() >= 1
        &&& self.frames()[0] == 0
        &&& forall|i: int| 0 <= i < self.frames().len() ==> #[trigger] self.frames()[i] <= self.ss()
    }
}

/// The four-byte return address recorded by a call: the instruction
/// counter's low 32 bits, read as a signed value.
pub open spec fn ret_addr(ic: int) -> i32 {
    sign_val((ic % 0x100000000) as u32)
}

/// A jump: only the instruction counter moves.
pub open spec fn jmp_step(pre: Evaluator, post: Evaluator, dest: u32, r: Result<(), VmError>) -> bool {
    &&& r == Ok::<(), VmError>(())
    &&& post.halt == pre.halt
    &&& post.steps == pre.steps
    &&& post.code() == pre.code()
    &&& post.ic() == dest
    &&& post.frames() == pre.frames()
    &&& post.heap_mem() == pre.heap_mem()
    &&& post.free_list() == pre.free_list()
    &&& post.out() == pre.out()
    &&& post.stack() == pre.stack()
    &&& post.sp() == pre.sp()
    &&& post.ss() == pre.ss()
}

/// A conditional jump: the condition is popped, and the instruction
/// counter moves to `dest` exactly when the condition matches
/// `on_zero`.
pub open spec fn cond_jmp_step(
    pre: Evaluator,
    post: Evaluator,
    dest: u32,
    on_zero: bool,
    r: Result<(), VmError>,
) -> bool {
    if pre.sp() < 4 {
        r == Err::<(), VmError>(VmError::StackUnderflow) && same_state(pre, post)
    } else {
        let cond = i32_at(pre.stack(), pre.sp() - 4);
        &&& r == Ok::<(), VmError>(())
        &&& post.halt == pre.halt
        &&& post.steps == pre.steps
        &&& post.code() == pre.code()
        &&& post.ic() == if (cond == 0) == on_zero {
            dest as int
        } else {
            pre.ic()
        }
        &&& post.frames() == pre.frames()
        &&& post.heap_mem() == pre.heap_mem()
        &&& post.free_list() == pre.free_list()
        &&& post.out() == pre.out()
        &&& post.stack() == pre.stack()
        &&& post.sp() == pre.sp() - 4
        &&& post.ss() == pre.ss()
    }
}

/// A call: the return address is pushed, the new stack pointer is
/// recorded as the frame base, and control moves to `dest`.
pub open spec fn call_step(pre: Evaluator, post: Evaluator, dest: u32, r: Result<(), VmError>) -> bool {
    if pre.sp() + 4 <= pre.ss() {
        &&& r == Ok::<(), VmError>(())
        &&& post.halt == pre.halt
        &&& post.steps == pre.steps
        &&& post.code() == pre.code()
        &&& post.ic() == dest
        &&& post.frames() == pre.frames().push((pre.sp() + 4) as u32)
        &&& post.heap_mem() == pre.heap_mem()
        &&& post.free_list() == pre.free_list()
        &&& post.out() == pre.out()
        &&& post.stack() == splice(pre.stack(), pre.sp(), be_bytes_i32(ret_addr(pre.ic())))
        &&& post.sp() == pre.sp() + 4
        &&& post.ss() == pre.ss()
    } else {
        r == Err::<(), VmError>(VmError::StackOverflow) && same_state(pre, post)
    }
}

/// A return: `n` bytes of return value are popped, the stack pointer
/// falls back to the frame base, the base is popped, the return
/// address is popped, the return value is pushed back, and control
/// moves to the return address.
pub open spec fn iret_step(pre: Evaluator, post: Evaluator, n: u32, r: Result<(), VmError>) -> bool {
    let sp = pre.sp();
    let base = pre.frame_base();
    if n > sp {
        r == Err::<(), VmError>(VmError::StackUnderflow) && same_state(pre, post)
    } else if base < 4 {
        r == Err::<(), VmError>(VmError::StackUnderflow) && same_state(pre, post)
    } else if base - 4 + n > pre.ss() {
        r == Err::<(), VmError>(VmError::StackOverflow) && same_state(pre, post)
    } else {
        let value = pre.stack().subrange(sp - n, sp);
        let dest = i32_at(pre.stack(), base - 4);
        &&& r == Ok::<(), VmError>(())
        &&& post.halt == pre.halt
        &&& post.steps == pre.steps
        &&& post.code() == pre.code()
        &&& post.ic() == unsign_val(dest)
        &&& post.frames() == pre.frames().drop_last()
        &&& post.heap_mem() == pre.heap_mem()
        &&& post.free_list() == pre.free_list()
        &&& post.out() == pre.out()
        &&& post.stack() == splice(pre.stack(), base - 4, value)
        &&& post.sp() == base - 4 + n
        &&& post.ss() == pre.ss()
    }
}

/// What a read of `n` bytes at unified address `addr` returns:
/// stack bytes below the stack's capacity, heap bytes above it,
/// nothing when the region leaves its half of the space. A negative
/// address is a wrapped pointer and reads nothing.
pub open spec fn mem_read(pre: Evaluator, addr: int, n: int) -> Option<Seq<u8>> {
    if addr < 0 {
        None
    } else if addr < pre.ss() {
        if addr + n <= pre.ss() {
            Some(pre.stack().subrange(addr, addr + n))
        } else {
            None
        }
    } else {
        if addr - pre.ss() + n <= pre.heap_mem().len() {
            Some(pre.heap_mem().subrange(addr - pre.ss(), addr - pre.ss() + n))
        } else {
            None
        }
    }
}

/// Whether a write of `n` bytes at unified address `addr` goes
/// through, or the error that refuses it. A heap write landing
/// entirely inside a free block is refused.
pub open spec fn mem_write_check(pre: Evaluator, addr: int, n: int) -> Result<(), VmError> {
    if 0 <= addr < pre.ss() {
        if addr + n <= pre.ss() {
            Ok(())
        } else {
            Err(VmError::StackOverflow)
        }
    } else {
        let hs = addr - pre.ss();
        if addr < 0 || hs + n > pre.heap_mem().len() {
            Err(VmError::OutOfBoundsStore)
        } else if exists|k: int|
            0 <= k < pre.free_list().len() && heap::inside(#[trigger] pre.free_list()[k], hs, n) {
            Err(VmError::WriteToFreed)
        } else {
            Ok(())
        }
    }
}

/// The stack bytes after a write of `data` at unified address `addr`:
/// changed only by an accepted stack-side write.
pub open spec fn mem_write_stack(pre: Evaluator, addr: int, data: Seq<u8>) -> Seq<u8> {
    if 0 <= addr < pre.ss() && mem_write_check(pre, addr, data.len() as int) is Ok {
        splice(pre.stack(), addr, data)
    } else {
        pre.stack()
    }
}

/// The heap bytes after a write of `data` at unified address `addr`:
/// changed only by an accepted heap-side write.
pub open spec fn mem_write_heap(pre: Evaluator, addr: int, data: Seq<u8>) -> Seq<u8> {
    if addr >= pre.ss() && mem_write_check(pre, addr, data.len() as int) is Ok {
        splice(pre.heap_mem(), addr - pre.ss(), data)
    } else {
        pre.heap_mem()
    }
}

/// A frame-relative load: `size` bytes at the frame base plus the
/// operand are read and pushed.
pub open spec fn load_step(
    pre: Evaluator,
    post: Evaluator,
    offset: i32,
    size: u32,
    r: Result<(), VmError>,
) -> bool {
    let addr = pre.frame_base() + offset;
    match mem_read(pre, addr, size as int) {
        Some(data) => {
            if pre.sp() + size <= pre.ss() {
                &&& r == Ok::<(), VmError>(())
                &&& same_but_stack(pre, post)
                &&& post.stack() == splice(pre.stack(), pre.sp(), data)
                &&& post.sp() == pre.sp() + size
            } else {
                r == Err::<(), VmError>(VmError::StackOverflow) && same_state(pre, post)
            }
        },
        None => r == Err::<(), VmError>(VmError::OutOfBoundsLoad) && same_state(pre, post),
    }
}

/// A pointer-relative load: the base address is popped, and `size`
/// bytes at it plus the operand are read and pushed.
pub open spec fn rload_step(
    pre: Evaluator,
    post: Evaluator,
    offset: i32,
    size: u32,
    r: Result<(), VmError>,
) -> bool {
    if pre.sp() < 4 {
        r == Err::<(), VmError>(VmError::StackUnderflow) && same_state(pre, post)
    } else {
        let base = i32_at(pre.stack(), pre.sp() - 4);
        let addr = base + offset;
        match mem_read(pre, addr, size as int) {
            Some(data) => {
                if pre.sp() - 4 + size <= pre.ss() {
                    &&& r == Ok::<(), VmError>(())
                    &&& same_but_stack(pre, post)
                    &&& post.stack() == splice(pre.stack(), pre.sp() - 4, data)
                    &&& post.sp() == pre.sp() - 4 + size
                } else {
                    &&& r == Err::<(), VmError>(VmError::StackOverflow)
                    &&& same_but_stack(pre, post)
                    &&& post.stack() == pre.stack()
                    &&& post.sp() == pre.sp() - 4
                }
            },
            None => {
                &&& r == Err::<(), VmError>(VmError::OutOfBoundsLoad)
                &&& same_but_stack(pre, post)
                &&& post.stack() == pre.stack()
                &&& post.sp() == pre.sp() - 4
            },
        }
    }
}

/// Whether everything but the stack, the stack pointer and the heap
/// arena's bytes is unchanged.
pub open spec fn same_but_memory(pre: Evaluator, post: Evaluator) -> bool {
    &&& post.halt == pre.halt
    &&& post.steps == pre.steps
    &&& post.code() == pre.code()
    &&& post.ic() == pre.ic()
    &&& post.frames() == pre.frames()
    &&& post.free_list() == pre.free_list()
    &&& post.out() == pre.out()
    &&& post.ss() == pre.ss()
}

/// A frame-relative store: `size` bytes are popped and written at the
/// frame base plus the operand. A refused write still pops.
pub open spec fn store_step(
    pre: Evaluator,
    post: Evaluator,
    offset: i32,
    size: u32,
    r: Result<(), VmError>,
) -> bool {
    if size > pre.sp() {
        r == Err::<(), VmError>(VmError::StackUnderflow) && same_state(pre, post)
    } else {
        let data = pre.stack().subrange(pre.sp() - size, pre.sp());
        let addr = pre.frame_base() + offset;
        &&& same_but_memory(pre, post)
        &&& post.sp() == pre.sp() - size
        &&& (r is Ok <==> mem_write_check(pre, addr, size as int) is Ok)
        &&& (r is Err ==> r == Err::<(), VmError>(mem_write_check(pre, addr, size as int)->Err_0))
        &&& post.stack() == mem_write_stack(pre, addr, data)
        &&& post.heap_mem() == mem_write_heap(pre, addr, data)
    }
}

/// A pointer-relative store: `size` bytes are popped, the base is
/// read from the new top without popping it, and the bytes are
/// written at the base plus the operand.
pub open spec fn rstore_step(
    pre: Evaluator,
    post: Evaluator,
    offset: i32,
    size: u32,
    r: Result<(), VmError>,
) -> bool {
    if size > pre.sp() {
        r == Err::<(), VmError>(VmError::StackUnderflow) && same_state(pre, post)
    } else if pre.sp() - size < 4 {
        &&& r == Err::<(), VmError>(VmError::StackUnderflow)
        &&& same_but_memory(pre, post)
        &&& post.stack() == pre.stack()
        &&& post.heap_mem() == pre.heap_mem()
        &&& post.sp() == pre.sp() - size
    } else {
        let data = pre.stack().subrange(pre.sp() - size, pre.sp());
        let base = i32_at(pre.stack(), pre.sp() - size - 4);
        let addr = base + offset;
        &&& same_but_memory(pre, post)
        &&& post.sp() == pre.sp() - size
        &&& (r is Ok <==> mem_write_check(pre, addr, size as int) is Ok)
        &&& (r is Err ==> r == Err::<(), VmError>(mem_write_check(pre, addr, size as int)->Err_0))
        &&& post.stack() == mem_write_stack(pre, addr, data)
        &&& post.heap_mem() == mem_write_heap(pre, addr, data)
    }
}

/// A byte store: one byte is popped, the base is read from the new
/// top without popping it, and the byte is written at the base plus
/// the operand.
pub open spec fn storeb_step(
    pre: Evaluator,
    post: Evaluator,
    offset: i32,
    r: Result<(), VmError>,
) -> bool {
    if pre.sp() < 1 {
        r == Err::<(), VmError>(VmError::StackUnderflow) && same_state(pre, post)
    } else if pre.sp() - 1 < 4 {
        &&& r == Err::<(), VmError>(VmError::StackUnderflow)
        &&& same_but_memory(pre, post)
        &&& post.stack() == pre.stack()
        &&& post.heap_mem() == pre.heap_mem()
        &&& post.sp() == pre.sp() - 1
    } else {
        let data = pre.stack().subrange(pre.sp() - 1, pre.sp());
        let base = i32_at(pre.stack(), pre.sp() - 5);
        let addr = base + offset;
        &&& same_but_memory(pre, post)
        &&& post.sp() == pre.sp() - 1
        &&& (r is Ok <==> mem_write_check(pre, addr, 1) is Ok)
        &&& (r is Err ==> r == Err::<(), VmError>(mem_write_check(pre, addr, 1)->Err_0))
        &&& post.stack() == mem_write_stack(pre, addr, data)
        &&& post.heap_mem() == mem_write_heap(pre, addr, data)
    }
}

/// A release: the pointer is popped and the `n` bytes it names are
/// returned to the free list, which coalesces. A pointer outside the
/// heap, or a region colliding with the free list, is refused.
pub open spec fn free_step(pre: Evaluator, post: Evaluator, n: u32, r: Result<(), VmError>) -> bool {
    if pre.sp() < 4 {
        r == Err::<(), VmError>(VmError::StackUnderflow) && same_state(pre, post)
    } else {
        let ptr = i32_at(pre.stack(), pre.sp() - 4);
        let hs = ptr - pre.ss();
        &&& post.halt == pre.halt
        &&& post.steps == pre.steps
        &&& post.code() == pre.code()
        &&& post.ic() == pre.ic()
        &&& post.frames() == pre.frames()
        &&& post.heap_mem() == pre.heap_mem()
        &&& post.out() == pre.out()
        &&& post.stack() == pre.stack()
        &&& post.sp() == pre.sp() - 4
        &&& post.ss() == pre.ss()
        &&& if ptr < pre.ss() {
            r == Err::<(), VmError>(VmError::InvalidFree) && post.free_list() == pre.free_list()
        } else if hs + n > pre.heap_mem().len() || (n > 0 && heap::free_conflict(
            pre.free_list(),
            hs,
            n as int,
        )) {
            r == Err::<(), VmError>(VmError::InvalidFree) && post.free_list() == pre.free_list()
        } else {
            r == Ok::<(), VmError>(()) && post.free_list() == heap::free_result(
                pre.free_list(),
                hs as usize,
                n as usize,
            )
        }
    }
}

/// A heap allocation: `n` bytes are served best-fit and the unified
/// address of the block is pushed as an unsigned value.
pub open spec fn halloc_step(pre: Evaluator, post: Evaluator, n: u32, r: Result<(), VmError>) -> bool {
    if !heap::fits(pre.free_list(), n as int) {
        r == Err::<(), VmError>(VmError::OutOfMemory) && same_state(pre, post)
    } else {
        let j = heap::best_fit_index(pre.free_list(), n as int);
        let addr = (pre.free_list()[j].start + pre.ss()) as u32;
        &&& post.halt == pre.halt
        &&& post.steps == pre.steps
        &&& post.code() == pre.code()
        &&& post.ic() == pre.ic()
        &&& post.frames() == pre.frames()
        &&& post.heap_mem() == pre.heap_mem()
        &&& post.out() == pre.out()
        &&& post.ss() == pre.ss()
        &&& post.free_list() == heap::alloc_result(pre.free_list(), n as int)
        &&& if pre.sp() + 4 <= pre.ss() {
            &&& r == Ok::<(), VmError>(())
            &&& post.stack() == splice(pre.stack(), pre.sp(), be_bytes(addr))
            &&& post.sp() == pre.sp() + 4
        } else {
            &&& r == Err::<(), VmError>(VmError::StackOverflow)
            &&& post.stack() == pre.stack()
            &&& post.sp() == pre.sp()
        }
    }
}

/// A dynamic heap allocation: the byte count is popped first; a
/// negative count exhausts nothing and is refused as out of memory.
pub open spec fn dhalloc_step(pre: Evaluator, post: Evaluator, r: Result<(), VmError>) -> bool {
    if pre.sp() < 4 {
        r == Err::<(), VmError>(VmError::StackUnderflow) && same_state(pre, post)
    } else {
        let n = i32_at(pre.stack(), pre.sp() - 4);
        if n < 0 || !heap::fits(pre.free_list(), n as int) {
            &&& r == Err::<(), VmError>(VmError::OutOfMemory)
            &&& same_but_stack(pre, post)
            &&& post.stack() == pre.stack()
            &&& post.sp() == pre.sp() - 4
        } else {
            let j = heap::best_fit_index(pre.free_list(), n as int);
            let addr = (pre.free_list()[j].start + pre.ss()) as u32;
            &&& r == Ok::<(), VmError>(())
            &&& post.halt == pre.halt
            &&& post.steps == pre.steps
            &&& post.code() == pre.code()
            &&& post.ic() == pre.ic()
            &&& post.frames() == pre.frames()
            &&& post.heap_mem() == pre.heap_mem()
            &&& post.out() == pre.out()
            &&& post.ss() == pre.ss()
            &&& post.free_list() == heap::alloc_result(pre.free_list(), n as int)
            &&& post.stack() == splice(pre.stack(), pre.sp() - 4, be_bytes(addr))
            &&& post.sp() == pre.sp()
        }
    }
}

/// The bytes of the NUL-terminated string at a unified address, the
/// terminator excluded; nothing when the address is outside its
/// region or no terminator follows it.
pub open spec fn cstr_read(pre: Evaluator, addr: int) -> Option<Seq<u8>> {
    if addr < 0 {
        None
    } else {
        let region = if addr < pre.ss() {
            pre.stack()
        } else {
            pre.heap_mem()
        };
        let at = if addr < pre.ss() {
            addr
        } else {
            addr - pre.ss()
        };
        if at <= region.len() && has_nul(region, at) {
            Some(region.subrange(at, first_nul(region, at)))
        } else {
            None
        }
    }
}

/// Formatting the top value: it is popped, its decimal ASCII form is
/// allocated on the heap with a NUL terminator, and the unified
/// address of the text is pushed.
pub open spec fn itoa_step(pre: Evaluator, post: Evaluator, r: Result<(), VmError>) -> bool {
    if pre.sp() < 4 {
        r == Err::<(), VmError>(VmError::StackUnderflow) && same_state(pre, post)
    } else {
        let v = i32_at(pre.stack(), pre.sp() - 4);
        let data = dec_bytes(v as int).push(0);
        if !heap::fits(pre.free_list(), data.len() as int) {
            &&& r == Err::<(), VmError>(VmError::OutOfMemory)
            &&& same_but_stack(pre, post)
            &&& post.stack() == pre.stack()
            &&& post.sp() == pre.sp() - 4
        } else {
            let j = heap::best_fit_index(pre.free_list(), data.len() as int);
            let start = pre.free_list()[j].start;
            let addr = (start + pre.ss()) as u32;
            &&& r == Ok::<(), VmError>(())
            &&& post.halt == pre.halt
            &&& post.steps == pre.steps
            &&& post.code() == pre.code()
            &&& post.ic() == pre.ic()
            &&& post.frames() == pre.frames()
            &&& post.out() == pre.out()
            &&& post.ss() == pre.ss()
            &&& post.free_list() == heap::alloc_result(pre.free_list(), data.len() as int)
            &&& post.heap_mem() == splice(pre.heap_mem(), start as int, data)
            &&& post.stack() == splice(pre.stack(), pre.sp() - 4, be_bytes(addr))
            &&& post.sp() == pre.sp()
        }
    }
}

/// String concatenation: two pointers are popped, first the left
/// operand then the right; the bytes of both strings are read and a
/// fresh heap block is written holding the first string's bytes, then
/// the second's, then a NUL; the new block's unified address is
/// pushed.
pub open spec fn sadd_step(pre: Evaluator, post: Evaluator, r: Result<(), VmError>) -> bool {
    if pre.sp() < 8 {
        r == Err::<(), VmError>(VmError::StackUnderflow) && same_state(pre, post)
    } else {
        let p1 = i32_at(pre.stack(), pre.sp() - 4);
        let p2 = i32_at(pre.stack(), pre.sp() - 8);
        match (cstr_read(pre, p1 as int), cstr_read(pre, p2 as int)) {
            (Some(s1), Some(s2)) => {
                let data = (s1 + s2).push(0u8);
                if !heap::fits(pre.free_list(), data.len() as int) {
                    &&& r == Err::<(), VmError>(VmError::OutOfMemory)
                    &&& same_but_stack(pre, post)
                    &&& post.stack() == pre.stack()
                    &&& post.sp() == pre.sp() - 8
                } else {
                    let j = heap::best_fit_index(pre.free_list(), data.len() as int);
                    let start = pre.free_list()[j].start;
                    let addr = (start + pre.ss()) as u32;
                    &&& r == Ok::<(), VmError>(())
                    &&& post.halt == pre.halt
                    &&& post.steps == pre.steps
                    &&& post.code() == pre.code()
                    &&& post.ic() == pre.ic()
                    &&& post.frames() == pre.frames()
                    &&& post.out() == pre.out()
                    &&& post.ss() == pre.ss()
                    &&& post.free_list() == heap::alloc_result(pre.free_list(), data.len() as int)
                    &&& post.heap_mem() == splice(pre.heap_mem(), start as int, data)
                    &&& post.stack() == splice(pre.stack(), pre.sp() - 8, be_bytes(addr))
                    &&& post.sp() == pre.sp() - 4
                }
            },
            _ => {
                &&& r == Err::<(), VmError>(VmError::OutOfBoundsLoad)
                &&& same_but_stack(pre, post)
                &&& post.stack() == pre.stack()
                &&& post.sp() == pre.sp() - 8
            },
        }
    }
}

/// A foreign call. The catalog holds one function: id 0, `println`,
/// which takes a pointer to a NUL-terminated string, records the
/// string as a line of output, and returns nothing.
pub open spec fn ffcall_step(pre: Evaluator, post: Evaluator, id: u32, r: Result<(), VmError>) -> bool {
    if id != 0 {
        r == Err::<(), VmError>(VmError::FFIUnknown) && same_state(pre, post)
    } else if pre.sp() < 4 {
        r == Err::<(), VmError>(VmError::StackUnderflow) && same_state(pre, post)
    } else {
        let addr = i32_at(pre.stack(), pre.sp() - 4);
        match cstr_read(pre, addr as int) {
            Some(s) => {
                &&& r == Ok::<(), VmError>(())
                &&& post.halt == pre.halt
                &&& post.steps == pre.steps
                &&& post.code() == pre.code()
                &&& post.ic() == pre.ic()
                &&& post.frames() == pre.frames()
                &&& post.heap_mem() == pre.heap_mem()
                &&& post.free_list() == pre.free_list()
                &&& post.out() == pre.out().push(chars_of_bytes(s))
                &&& post.stack() == pre.stack()
                &&& post.sp() == pre.sp() - 4
                &&& post.ss() == pre.ss()
            },
            None => {
                &&& r == Err::<(), VmError>(VmError::OutOfBoundsLoad)
                &&& same_but_stack(pre, post)
                &&& post.stack() == pre.stack()
                &&& post.sp() == pre.sp() - 4
            },
        }
    }
}

/// Reserving `n` uninitialised bytes: the stack pointer advances.
pub open spec fn alloc_step(pre: Evaluator, post: Evaluator, n: u32, r: Result<(), VmError>) -> bool {
    if pre.sp() + n <= pre.ss() {
        &&& r == Ok::<(), VmError>(())
        &&& same_but_stack(pre, post)
        &&& post.stack() == pre.stack()
        &&& post.sp() == pre.sp() + n
    } else {
        r == Err::<(), VmError>(VmError::StackOverflow) && same_state(pre, post)
    }
}

/// Whether everything but the stack bytes and the stack pointer is
/// unchanged.
pub open spec fn same_but_stack(pre: Evaluator, post: Evaluator) -> bool {
    &&& post.halt == pre.halt
    &&& post.steps == pre.steps
    &&& post.code() == pre.code()
    &&& post.ic() == pre.ic()
    &&& post.frames() == pre.frames()
    &&& post.heap_mem() == pre.heap_mem()
    &&& post.free_list() == pre.free_list()
    &&& post.out() == pre.out()
    &&& post.ss() == pre.ss()
}

/// Whether the two states are equal in every observable component.
pub open spec fn same_state(pre: Evaluator, post: Evaluator) -> bool {
    &&& same_but_stack(pre, post)
    &&& post.stack() == pre.stack()
    &&& post.sp() == pre.sp()
}

/// Pushing a signed value: its four big-endian bytes are written at
/// the stack pointer, which advances past them; a full stack refuses.
pub open spec fn push_step(pre: Evaluator, post: Evaluator, v: i32, r: Result<(), VmError>) -> bool {
    if pre.sp() + 4 <= pre.ss() {
        &&& r == Ok::<(), VmError>(())
        &&& same_but_stack(pre, post)
        &&& post.stack() == splice(pre.stack(), pre.sp(), be_bytes_i32(v))
        &&& post.sp() == pre.sp() + 4
    } else {
        r == Err::<(), VmError>(VmError::StackOverflow) && same_state(pre, post)
    }
}

/// Pushing one byte.
pub open spec fn pushb_step(pre: Evaluator, post: Evaluator, v: u8, r: Result<(), VmError>) -> bool {
    if pre.sp() + 1 <= pre.ss() {
        &&& r == Ok::<(), VmError>(())
        &&& same_but_stack(pre, post)
        &&& post.stack() == splice(pre.stack(), pre.sp(), seq![v])
        &&& post.sp() == pre.sp() + 1
    } else {
        r == Err::<(), VmError>(VmError::StackOverflow) && same_state(pre, post)
    }
}

/// Discarding the top four bytes: only the stack pointer moves.
pub open spec fn pop_step(pre: Evaluator, post: Evaluator, r: Result<(), VmError>) -> bool {
    if pre.sp() >= 4 {
        &&& r == Ok::<(), VmError>(())
        &&& same_but_stack(pre, post)
        &&& post.stack() == pre.stack()
        &&& post.sp() == pre.sp() - 4
    } else {
        r == Err::<(), VmError>(VmError::StackUnderflow) && same_state(pre, post)
    }
}

/// A two-operand opcode: both operands leave the stack and the result
/// takes the lower slot. The first pop is `a`, the second `b`; a zero
/// divisor is fatal and leaves the state unchanged.
pub open spec fn binop_step(
    pre: Evaluator,
    post: Evaluator,
    op: OpCode,
    r: Result<(), VmError>,
) -> bool {
    if pre.sp() < 8 {
        r == Err::<(), VmError>(VmError::StackUnderflow) && same_state(pre, post)
    } else {
        let a = i32_at(pre.stack(), pre.sp() - 4);
        let b = i32_at(pre.stack(), pre.sp() - 8);
        match binop_result(op, a, b) {
            Some(v) => {
                &&& r == Ok::<(), VmError>(())
                &&& same_but_stack(pre, post)
                &&& post.stack() == splice(pre.stack(), pre.sp() - 8, be_bytes_i32(v))
                &&& post.sp() == pre.sp() - 4
            },
            None => r == Err::<(), VmError>(VmError::DivideByZero) && same_state(pre, post),
        }
    }
}

/// Bitwise complement of the top value, in place.
pub open spec fn inot_step(pre: Evaluator, post: Evaluator, r: Result<(), VmError>) -> bool {
    if pre.sp() < 4 {
        r == Err::<(), VmError>(VmError::StackUnderflow) && same_state(pre, post)
    } else {
        let a = i32_at(pre.stack(), pre.sp() - 4);
        &&& r == Ok::<(), VmError>(())
        &&& same_but_stack(pre, post)
        &&& post.stack() == splice(pre.stack(), pre.sp() - 4, be_bytes_i32(!a))
        &&& post.sp() == pre.sp()
    }
}

impl<'a> Evaluator<'a> {
    /// A fresh machine over the given bytecode: not halted, cursor at
    /// the first record, the sentinel frame in place, empty memory.
    pub fn new(instructions: &'a [u8]) -> (r: Evaluator<'a>)
        ensures
            r.wf(),
            !r.halt,
            r.steps == 0,
            r.code() == instructions@,
            r.ic() == 0,
            r.frames() =~= seq![0u32],
            r.sp() == 0,
            r.stack() == Seq::new(crate::memory::STACK_SIZE as nat, |i: int| 0u8),
            r.heap_mem() == Seq::new(crate::memory::HEAP_SIZE as nat, |i: int| 0u8),
            r.free_list() =~= seq![
                heap::FreeBlock { start: 0, size: crate::memory::HEAP_SIZE },
            ],
            r.out() =~= Seq::<Seq<char>>::empty(),
    {
        let mut stack_frames: Vec<u32> = Vec::new();
        stack_frames.push(0);
        Evaluator {
            halt: false,
            steps: 0,
            byte_code_parser: ByteCodeParser::new(instructions),
            stack_frames,
            memory: Memory::new(),
            output: Vec::new(),
        }
    }

    /// Pops four bytes and reads them as a signed value.
    pub fn remove_top(&mut self) -> (r: Result<i32, VmError>)
        requires
            old(self).wf(),
        ensures
            final(self).wf(),
            same_but_stack(*old(self), *final(self)),
            final(self).halt == old(self).halt,
            final(self).stack() == old(self).stack(),
            old(self).sp() >= 4 ==> r == Ok::<i32, VmError>(
                i32_at(old(self).stack(), old(self).sp() - 4),
            ) && final(self).sp() == old(self).sp() - 4,
            old(self).sp() < 4 ==> r == Err::<i32, VmError>(VmError::StackUnderflow) && *final(self)
                == *old(self),
    {
        match self.memory.pop(4) {
            Ok(bytes) => {
                let v = match decode_signed(0, bytes.as_slice()) {
                    Ok(v) => v,
                    Err(e) => {
                        return Err(e);
                    },
                };
                proof {
                    assert(bytes@.subrange(0, 4) =~= bytes@);
                }
                Ok(v)
            },
            Err(e) => Err(e),
        }
    }

    /// Pops a single byte.
    pub fn remove_top_byte(&mut self) -> (r: Result<u8, VmError>)
        requires
            old(self).wf(),
        ensures
            final(self).wf(),
            same_but_stack(*old(self), *final(self)),
            final(self).halt == old(self).halt,
            final(self).stack() == old(self).stack(),
            old(self).sp() >= 1 ==> r == Ok::<u8, VmError>(
                old(self).stack()[old(self).sp() - 1],
            ) && final(self).sp() == old(self).sp() - 1,
            old(self).sp() < 1 ==> r == Err::<u8, VmError>(VmError::StackUnderflow) && *final(self)
                == *old(self),
    {
        match self.memory.pop(1) {
            Ok(bytes) => Ok(bytes[0]),
            Err(e) => Err(e),
        }
    }

    /// Pops `bytes` bytes and returns them in stack order.
    pub fn remove_top_bytes(&mut self, bytes: u32) -> (r: Result<Vec<u8>, VmError>)
        requires
            old(self).wf(),
        ensures
            final(self).wf(),
            same_but_stack(*old(self), *final(self)),
            final(self).stack() == old(self).stack(),
            bytes <= old(self).sp() ==> (r matches Ok(v) && v@ == old(self).stack().subrange(
                old(self).sp() - bytes,
                old(self).sp(),
            ) && final(self).sp() == old(self).sp() - bytes),
            bytes > old(self).sp() ==> r == Err::<Vec<u8>, VmError>(VmError::StackUnderflow)
                && *final(self) == *old(self),
    {
        self.memory.pop(bytes as usize)
    }

    /// Reads the top four bytes as a signed value without popping.
    fn read_top(&self) -> (r: Result<i32, VmError>)
        requires
            self.wf(),
        ensures
            self.sp() >= 4 ==> r == Ok::<i32, VmError>(i32_at(self.stack(), self.sp() - 4)),
            self.sp() < 4 ==> r == Err::<i32, VmError>(VmError::StackUnderflow),
    {
        match self.memory.peek(4) {
            Ok(bytes) => {
                let v = match decode_signed(0, bytes.as_slice()) {
                    Ok(v) => v,
                    Err(e) => {
                        return Err(e);
                    },
                };
                proof {
                    assert(bytes@.subrange(0, 4) =~= bytes@);
                }
                Ok(v)
            },
            Err(e) => Err(e),
        }
    }

    /// Pushes a signed value as four big-endian bytes.
    fn push(&mut self, value: i32) -> (r: Result<(), VmError>)
        requires
            old(self).wf(),
        ensures
            final(self).wf(),
            push_step(*old(self), *final(self), value, r),
    {
        let data = encode_signed(value);
        match self.memory.push(data.as_slice()) {
            Ok(_) => Ok(()),
            Err(e) => Err(e),
        }
    }

    /// Pushes one byte.
    fn pushb(&mut self, value: u8) -> (r: Result<(), VmError>)
        requires
            old(self).wf(),
        ensures
            final(self).wf(),
            pushb_step(*old(self), *final(self), value, r),
    {
        let data: [u8; 1] = [value];
        proof {
            assert(data@ =~= seq![value]);
        }
        match self.memory.push(data.as_slice()) {
            Ok(_) => Ok(()),
            Err(e) => Err(e),
        }
    }

    /// Discards the top four bytes.
    fn pop(&mut self) -> (r: Result<(), VmError>)
        requires
            old(self).wf(),
        ensures
            final(self).wf(),
            pop_step(*old(self), *final(self), r),
    {
        match self.remove_top() {
            Ok(_) => Ok(()),
            Err(e) => Err(e),
        }
    }

    /// Adds the top two values.
    #[verifier::rlimit(50)]
    fn iadd(&mut self) -> (r: Result<(), VmError>)
        requires
            old(self).wf(),
        ensures
            final(self).wf(),
            binop_step(*old(self), *final(self), OpCode::IADD, r),
    {
        if self.memory.stack_pointer < 8 {
            return Err(VmError::StackUnderflow);
        }
        let a = self.remove_top()?;
        let b = self.remove_top()?;
        let result = a.wrapping_add(b);
        let r = self.push(result);
        proof {
            assert(r is Ok);
        }
        Ok(())
    }

    /// Subtracts: the value below the top is taken from the top.
    #[verifier::rlimit(50)]
    fn isub(&mut self) -> (r: Result<(), VmError>)
        requires
            old(self).wf(),
        ensures
            final(self).wf(),
            binop_step(*old(self), *final(self), OpCode::ISUB, r),
    {
        if self.memory.stack_pointer < 8 {
            return Err(VmError::StackUnderflow);
        }
        let a = self.remove_top()?;
        let b = self.remove_top()?;
        let result = a.wrapping_sub(b);
        let r = self.push(result);
        proof {
            assert(r is Ok);
        }
        Ok(())
    }

    /// Multiplies the top two values.
    #[verifier::rlimit(50)]
    fn imul(&mut self) -> (r: Result<(), VmError>)
        requires
            old(self).wf(),
        ensures
            final(self).wf(),
            binop_step(*old(self), *final(self), OpCode::IMUL, r),
    {
        if self.memory.stack_pointer < 8 {
            return Err(VmError::StackUnderflow);
        }
        let a = self.remove_top()?;
        let b = self.remove_top()?;
        let result = a.wrapping_mul(b);
        let r = self.push(result);
        proof {
            assert(r is Ok);
        }
        Ok(())
    }

    /// Divides the top by the value below it, truncating toward
    /// zero; a zero divisor is fatal.
    #[verifier::rlimit(50)]
    fn idiv(&mut self) -> (r: Result<(), VmError>)
        requires
            old(self).wf(),
        ensures
            final(self).wf(),
            binop_step(*old(self), *final(self), OpCode::IDIV, r),
    {
        if self.memory.stack_pointer < 8 {
            return Err(VmError::StackUnderflow);
        }
        let divisor = self.peek_second()?;
        if divisor == 0 {
            return Err(VmError::DivideByZero);
        }
        let a = self.remove_top()?;
        let b = self.remove_top()?;
        let result = div_i32(a, b);
        let r = self.push(result);
        proof {
            assert(r is Ok);
        }
        Ok(())
    }

    /// The remainder of the top divided by the value below it; a zero
    /// divisor is fatal.
    #[verifier::rlimit(50)]
    fn imod(&mut self) -> (r: Result<(), VmError>)
        requires
            old(self).wf(),
        ensures
            final(self).wf(),
            binop_step(*old(self), *final(self), OpCode::IMOD, r),
    {
        if self.memory.stack_pointer < 8 {
            return Err(VmError::StackUnderflow);
        }
        let divisor = self.peek_second()?;
        if divisor == 0 {
            return Err(VmError::DivideByZero);
        }
        let a = self.remove_top()?;
        let b = self.remove_top()?;
        let result = rem_i32(a, b);
        let r = self.push(result);
        proof {
            assert(r is Ok);
        }
        Ok(())
    }

    /// Reads the value below the top without popping.
    fn peek_second(&self) -> (r: Result<i32, VmError>)
        requires
            self.wf(),
            self.sp() >= 8,
        ensures
            r == Ok::<i32, VmError>(i32_at(self.stack(), self.sp() - 8)),
    {
        let bytes = match self.memory.peek_down(4, 4) {
            Ok(bytes) => bytes,
            Err(e) => {
                return Err(e);
            },
        };
        let v = match decode_signed(0, bytes.as_slice()) {
            Ok(v) => v,
            Err(e) => {
                return Err(e);
            },
        };
        proof {
            assert(bytes@.subrange(0, 4) =~= bytes@);
        }
        Ok(v)
    }

    /// Pushes 1 if the top two values are equal, else 0.
    #[verifier::rlimit(50)]
    fn ieq(&mut self) -> (r: Result<(), VmError>)
        requires
            old(self).wf(),
        ensures
            final(self).wf(),
            binop_step(*old(self), *final(self), OpCode::IEQ, r),
    {
        if self.memory.stack_pointer < 8 {
            return Err(VmError::StackUnderflow);
        }
        let a = self.remove_top()?;
        let b = self.remove_top()?;
        let result: i32 = if a == b {
            1
        } else {
            0
        };
        let r = self.push(result);
        proof {
            assert(r is Ok);
        }
        Ok(())
    }

    /// Pushes 1 if the top two values differ, else 0.
    #[verifier::rlimit(50)]
    fn ine(&mut self) -> (r: Result<(), VmError>)
        requires
            old(self).wf(),
        ensures
            final(self).wf(),
            binop_step(*old(self), *final(self), OpCode::INE, r),
    {
        if self.memory.stack_pointer < 8 {
            return Err(VmError::StackUnderflow);
        }
        let a = self.remove_top()?;
        let b = self.remove_top()?;
        let result: i32 = if a != b {
            1
        } else {
            0
        };
        let r = self.push(result);
        proof {
            assert(r is Ok);
        }
        Ok(())
    }

    /// Pushes 1 if the top is less than the value below it, else 0.
    #[verifier::rlimit(50)]
    fn ilt(&mut self) -> (r: Result<(), VmError>)
        requires
            old(self).wf(),
        ensures
            final(self).wf(),
            binop_step(*old(self), *final(self), OpCode::ILT, r),
    {
        if self.memory.stack_pointer < 8 {
            return Err(VmError::StackUnderflow);
        }
        let a = self.remove_top()?;
        let b = self.remove_top()?;
        let result: i32 = if a < b {
            1
        } else {
            0
        };
        let r = self.push(result);
        proof {
            assert(r is Ok);
        }
        Ok(())
    }

    /// Pushes 1 if the top is at most the value below it, else 0.
    #[verifier::rlimit(50)]
    fn ile(&mut self) -> (r: Result<(), VmError>)
        requires
            old(self).wf(),
        ensures
            final(self).wf(),
            binop_step(*old(self), *final(self), OpCode::ILE, r),
    {
        if self.memory.stack_pointer < 8 {
            return Err(VmError::StackUnderflow);
        }
        let a = self.remove_top()?;
        let b = self.remove_top()?;
        let result: i32 = if a <= b {
            1
        } else {
            0
        };
        let r = self.push(result);
        proof {
            assert(r is Ok);
        }
        Ok(())
    }

    /// Pushes 1 if the top is greater than the value below it, else 0.
    #[verifier::rlimit(50)]
    fn igt(&mut self) -> (r: Result<(), VmError>)
        requires
            old(self).wf(),
        ensures
            final(self).wf(),
            binop_step(*old(self), *final(self), OpCode::IGT, r),
    {
        if self.memory.stack_pointer < 8 {
            return Err(VmError::StackUnderflow);
        }
        let a = self.remove_top()?;
        let b = self.remove_top()?;
        let result: i32 = if a > b {
            1
        } else {
            0
        };
        let r = self.push(result);
        proof {
            assert(r is Ok);
        }
        Ok(())
    }

    /// Pushes 1 if the top is at least the value below it, else 0.
    #[verifier::rlimit(50)]
    fn ige(&mut self) -> (r: Result<(), VmError>)
        requires
            old(self).wf(),
        ensures
            final(self).wf(),
            binop_step(*old(self), *final(self), OpCode::IGE, r),
    {
        if self.memory.stack_pointer < 8 {
            return Err(VmError::StackUnderflow);
        }
        let a = self.remove_top()?;
        let b = self.remove_top()?;
        let result: i32 = if a >= b {
            1
        } else {
            0
        };
        let r = self.push(result);
        proof {
            assert(r is Ok);
        }
        Ok(())
    }

    /// Bitwise and of the top two values.
    #[verifier::rlimit(50)]
    fn iand(&mut self) -> (r: Result<(), VmError>)
        requires
            old(self).wf(),
        ensures
            final(self).wf(),
            binop_step(*old(self), *final(self), OpCode::IAND, r),
    {
        if self.memory.stack_pointer < 8 {
            return Err(VmError::StackUnderflow);
        }
        let a = self.remove_top()?;
        let b = self.remove_top()?;
        let result = a & b;
        let r = self.push(result);
        proof {
            assert(r is Ok);
        }
        Ok(())
    }

    /// Bitwise or of the top two values.
    #[verifier::rlimit(50)]
    fn ior(&mut self) -> (r: Result<(), VmError>)
        requires
            old(self).wf(),
        ensures
            final(self).wf(),
            binop_step(*old(self), *final(self), OpCode::IOR, r),
    {
        if self.memory.stack_pointer < 8 {
            return Err(VmError::StackUnderflow);
        }
        let a = self.remove_top()?;
        let b = self.remove_top()?;
        let result = a | b;
        let r = self.push(result);
        proof {
            assert(r is Ok);
        }
        Ok(())
    }

    /// Bitwise exclusive or of the top two values.
    #[verifier::rlimit(50)]
    fn ixor(&mut self) -> (r: Result<(), VmError>)
        requires
            old(self).wf(),
        ensures
            final(self).wf(),
            binop_step(*old(self), *final(self), OpCode::IXOR, r),
    {
        if self.memory.stack_pointer < 8 {
            return Err(VmError::StackUnderflow);
        }
        let a = self.remove_top()?;
        let b = self.remove_top()?;
        let result = a ^ b;
        let r = self.push(result);
        proof {
            assert(r is Ok);
        }
        Ok(())
    }

    /// Replaces the top value with its bitwise complement.
    #[verifier::rlimit(50)]
    fn inot(&mut self) -> (r: Result<(), VmError>)
        requires
            old(self).wf(),
        ensures
            final(self).wf(),
            inot_step(*old(self), *final(self), r),
    {
        let a = self.remove_top()?;
        let result = !a;
        let r = self.push(result);
        proof {
            assert(r is Ok);
        }
        Ok(())
    }
    /// Moves the cursor to an instruction index.
    fn jmp(&mut self, dest: u32) -> (r: Result<(), VmError>)
        requires
            old(self).wf(),
        ensures
            final(self).wf(),
            jmp_step(*old(self), *final(self), dest, r),
    {
        self.byte_code_parser.go_to(dest as usize);
        Ok(())
    }

    /// Pops a condition and jumps if it is zero.
    #[verifier::rlimit(50)]
    fn jz(&mut self, dest: u32) -> (r: Result<(), VmError>)
        requires
            old(self).wf(),
        ensures
            final(self).wf(),
            cond_jmp_step(*old(self), *final(self), dest, true, r),
    {
        let a = self.remove_top()?;
        if a == 0 {
            self.jmp(dest)?;
        }
        Ok(())
    }

    /// Pops a condition and jumps if it is nonzero.
    #[verifier::rlimit(50)]
    fn jnz(&mut self, dest: u32) -> (r: Result<(), VmError>)
        requires
            old(self).wf(),
        ensures
            final(self).wf(),
            cond_jmp_step(*old(self), *final(self), dest, false, r),
    {
        let a = self.remove_top()?;
        if a != 0 {
            self.jmp(dest)?;
        }
        Ok(())
    }

    /// Calls: pushes the return address, records the frame base, and
    /// jumps to `dest`.
    #[verifier::rlimit(50)]
    fn call(&mut self, dest: u32) -> (r: Result<(), VmError>)
        requires
            old(self).wf(),
        ensures
            final(self).wf(),
            call_step(*old(self), *final(self), dest, r),
    {
        let ic = self.byte_code_parser.instruction_counter;
        let address: u32 = ((ic as u64) % 0x100000000u64) as u32;
        self.push(crate::utils::sign_of_unsigned(address))?;
        self.stack_frames.push(self.memory.stack_pointer as u32);
        self.jmp(dest)?;
        Ok(())
    }

    /// Returns from a call with an `n`-byte return value.
    #[verifier::rlimit(50)]
    fn iret(&mut self, bytes: u32) -> (r: Result<(), VmError>)
        requires
            old(self).wf(),
        ensures
            final(self).wf(),
            iret_step(*old(self), *final(self), bytes, r),
    {
        let sp = self.memory.stack_pointer;
        if bytes as usize > sp {
            return Err(VmError::StackUnderflow);
        }
        let base = self.stack_frames[self.stack_frames.len() - 1];
        if base < 4 {
            return Err(VmError::StackUnderflow);
        }
        let stack_size = crate::memory::STACK_SIZE;
        if bytes as usize > stack_size - (base as usize - 4) {
            return Err(VmError::StackOverflow);
        }
        let value = self.remove_top_bytes(bytes)?;
        self.clear_stack_frame();
        let dest = self.remove_top()?;
        let pushed = self.memory.push(value.as_slice());
        proof {
            assert(pushed is Ok);
        }
        self.byte_code_parser.go_to(crate::utils::unsign_of_signed(dest) as usize);
        Ok(())
    }

    /// Pops the current frame and lets the stack pointer fall back to
    /// its base.
    fn clear_stack_frame(&mut self)
        requires
            old(self).wf(),
            old(self).frames().len() >= 2,
        ensures
            final(self).wf(),
            final(self).halt == old(self).halt,
            final(self).steps == old(self).steps,
            final(self).code() == old(self).code(),
            final(self).ic() == old(self).ic(),
            final(self).frames() == old(self).frames().drop_last(),
            final(self).heap_mem() == old(self).heap_mem(),
            final(self).free_list() == old(self).free_list(),
            final(self).out() == old(self).out(),
            final(self).stack() == old(self).stack(),
            final(self).sp() == old(self).frame_base(),
            final(self).ss() == old(self).ss(),
    {
        let offset = self.stack_frames.pop();
        match offset {
            Some(offset) => {
                self.memory.move_stack_pointer_to(offset as usize);
            },
            None => {},
        }
    }

    /// Reserves `n` uninitialised stack bytes.
    #[verifier::rlimit(50)]
    fn stack_alloc(&mut self, bytes: u32) -> (r: Result<(), VmError>)
        requires
            old(self).wf(),
        ensures
            final(self).wf(),
            alloc_step(*old(self), *final(self), bytes, r),
    {
        self.memory.move_stack_pointer_by(bytes as usize)
    }

    /// Pushes the stack pointer displaced by the operand.
    #[verifier::rlimit(50)]
    fn pushsp(&mut self, offset: i32) -> (r: Result<(), VmError>)
        requires
            old(self).wf(),
        ensures
            final(self).wf(),
            push_step(
                *old(self),
                *final(self),
                vstd::wrapping::i32_specs::wrapping_add(old(self).sp() as i32, offset),
                r,
            ),
    {
        let sp = (self.memory.stack_pointer as i32).wrapping_add(offset);
        self.push(sp)?;
        Ok(())
    }

    /// Pushes the address of the slot `offset` bytes from the frame
    /// base.
    #[verifier::rlimit(50)]
    fn loada(&mut self, index: i32) -> (r: Result<(), VmError>)
        requires
            old(self).wf(),
        ensures
            final(self).wf(),
            push_step(
                *old(self),
                *final(self),
                vstd::wrapping::i32_specs::wrapping_add(old(self).frame_base() as i32, index),
                r,
            ),
    {
        let base = self.stack_frames[self.stack_frames.len() - 1];
        let index = (base as i32).wrapping_add(index);
        self.push(index)?;
        Ok(())
    }
    /// Reads `size` bytes at the frame base plus `offset` and pushes
    /// them.
    #[verifier::rlimit(50)]
    fn load(&mut self, offset: i32, size: u32) -> (r: Result<(), VmError>)
        requires
            old(self).wf(),
        ensures
            final(self).wf(),
            load_step(*old(self), *final(self), offset, size, r),
    {
        let base = self.stack_frames[self.stack_frames.len() - 1];
        let address = (base as i64) + (offset as i64);
        if address < 0 {
            return Err(VmError::OutOfBoundsLoad);
        }
        let result = match self.memory.load(address as usize, size as usize) {
            Ok(v) => v,
            Err(e) => {
                return Err(e);
            },
        };
        match self.memory.push(result.as_slice()) {
            Ok(_) => Ok(()),
            Err(e) => Err(e),
        }
    }

    /// Pops a base address, reads `size` bytes at it plus `offset`,
    /// and pushes them.
    #[verifier::rlimit(50)]
    fn rload(&mut self, offset: i32, size: u32) -> (r: Result<(), VmError>)
        requires
            old(self).wf(),
        ensures
            final(self).wf(),
            rload_step(*old(self), *final(self), offset, size, r),
    {
        let base = self.remove_top()?;
        let address = (base as i64) + (offset as i64);
        if address < 0 {
            return Err(VmError::OutOfBoundsLoad);
        }
        let result = match self.memory.load(address as usize, size as usize) {
            Ok(v) => v,
            Err(e) => {
                return Err(e);
            },
        };
        match self.memory.push(result.as_slice()) {
            Ok(_) => Ok(()),
            Err(e) => Err(e),
        }
    }

    /// Pops `size` bytes and writes them at the frame base plus
    /// `offset`.
    #[verifier::rlimit(50)]
    fn store(&mut self, offset: i32, bytes: u32) -> (r: Result<(), VmError>)
        requires
            old(self).wf(),
        ensures
            final(self).wf(),
            store_step(*old(self), *final(self), offset, bytes, r),
    {
        if bytes as usize > self.memory.stack_pointer {
            return Err(VmError::StackUnderflow);
        }
        let value = self.remove_top_bytes(bytes)?;
        let base = self.stack_frames[self.stack_frames.len() - 1];
        let address = (base as i64) + (offset as i64);
        if address < 0 {
            return Err(VmError::OutOfBoundsStore);
        }
        self.memory.store(address as usize, value.as_slice())
    }

    /// Pops `size` bytes, reads the base from the new top without
    /// popping it, and writes the bytes at the base plus `offset`.
    #[verifier::rlimit(50)]
    fn rstore(&mut self, offset: i32, bytes: u32) -> (r: Result<(), VmError>)
        requires
            old(self).wf(),
        ensures
            final(self).wf(),
            rstore_step(*old(self), *final(self), offset, bytes, r),
    {
        if bytes as usize > self.memory.stack_pointer {
            return Err(VmError::StackUnderflow);
        }
        let value = self.remove_top_bytes(bytes)?;
        let base = self.read_top()?;
        let address = (base as i64) + (offset as i64);
        if address < 0 {
            return Err(VmError::OutOfBoundsStore);
        }
        self.memory.store(address as usize, value.as_slice())
    }

    /// Pops one byte, reads the base from the new top without popping
    /// it, and writes the byte at the base plus `offset`.
    #[verifier::rlimit(50)]
    fn storeb(&mut self, offset: i32) -> (r: Result<(), VmError>)
        requires
            old(self).wf(),
        ensures
            final(self).wf(),
            storeb_step(*old(self), *final(self), offset, r),
    {
        let value = self.remove_top_byte()?;
        let base = self.read_top()?;
        let address = (base as i64) + (offset as i64);
        if address < 0 {
            return Err(VmError::OutOfBoundsStore);
        }
        let data: [u8; 1] = [value];
        proof {
            assert(data@ =~= old(self).stack().subrange(old(self).sp() - 1, old(self).sp()));
        }
        self.memory.store(address as usize, data.as_slice())
    }

    /// Pops a pointer and releases the `index` bytes it names.
    #[verifier::rlimit(50)]
    fn free(&mut self, index: u32) -> (r: Result<(), VmError>)
        requires
            old(self).wf(),
        ensures
            final(self).wf(),
            free_step(*old(self), *final(self), index, r),
    {
        let ptr = self.remove_top()?;
        if ptr < 0 {
            return Err(VmError::InvalidFree);
        }
        self.memory.free(ptr as usize, index as usize)
    }

    /// Allocates `bytes` heap bytes and pushes the block's unified
    /// address.
    #[verifier::rlimit(50)]
    fn halloc(&mut self, bytes: u32) -> (r: Result<(), VmError>)
        requires
            old(self).wf(),
        ensures
            final(self).wf(),
            halloc_step(*old(self), *final(self), bytes, r),
    {
        match self.memory.allocate_heap(bytes as usize) {
            Ok(pointer) => {
                proof {
                    let fl = old(self).free_list();
                    heap::lemma_best_fit_exists(fl, bytes as int);
                    let j = heap::best_fit_index(fl, bytes as int);
                    assert(fl[j].start + fl[j].size <= old(self).heap_mem().len());
                }
                let data = encode_unsigned(pointer as u32);
                match self.memory.push(data.as_slice()) {
                    Ok(_) => Ok(()),
                    Err(e) => Err(e),
                }
            },
            Err(e) => Err(e),
        }
    }

    /// Pops a byte count and allocates that many heap bytes, pushing
    /// the block's unified address.
    #[verifier::rlimit(50)]
    fn dhalloc(&mut self) -> (r: Result<(), VmError>)
        requires
            old(self).wf(),
        ensures
            final(self).wf(),
            dhalloc_step(*old(self), *final(self), r),
    {
        let bytes = self.remove_top()?;
        if bytes < 0 {
            return Err(VmError::OutOfMemory);
        }
        match self.memory.allocate_heap(bytes as usize) {
            Ok(pointer) => {
                proof {
                    let fl = old(self).free_list();
                    heap::lemma_best_fit_exists(fl, bytes as int);
                    let j = heap::best_fit_index(fl, bytes as int);
                    assert(fl[j].start + fl[j].size <= old(self).heap_mem().len());
                }
                let addr: u32 = pointer as u32;
                let pushed = self.push(crate::utils::sign_of_unsigned(addr));
                proof {
                    crate::utils::lemma_unsign_sign(addr);
                    assert(pushed is Ok);
                }
                Ok(())
            },
            Err(e) => Err(e),
        }
    }
    /// Pops a value, writes its decimal form to a fresh heap block,
    /// and pushes the block's unified address.
    #[verifier::rlimit(50)]
    fn itoa(&mut self) -> (r: Result<(), VmError>)
        requires
            old(self).wf(),
        ensures
            final(self).wf(),
            itoa_step(*old(self), *final(self), r),
    {
        let value = self.remove_top()?;
        let string = to_decimal_string(value);
        proof {
            assert(vstd::utf8::encode_utf8(string@).push(0) =~= dec_bytes(value as int).push(0));
        }
        let start = match self.memory.heap.allocate_string(string.as_str()) {
            Ok(start) => start,
            Err(e) => {
                return Err(e);
            },
        };
        proof {
            let fl = old(self).free_list();
            let data = dec_bytes(value as int).push(0);
            heap::lemma_best_fit_exists(fl, data.len() as int);
            let j = heap::best_fit_index(fl, data.len() as int);
            assert(fl[j].start + fl[j].size <= old(self).heap_mem().len());
        }
        let addr: u32 = (start + crate::memory::STACK_SIZE) as u32;
        let pushed = self.push(crate::utils::sign_of_unsigned(addr));
        proof {
            crate::utils::lemma_unsign_sign(addr);
            assert(pushed is Ok);
        }
        Ok(())
    }

    /// Pops two string pointers, reads the bytes of both strings,
    /// writes them one after the other with a NUL terminator to a
    /// fresh heap block, and pushes the block's unified address.
    #[verifier::rlimit(100)]
    #[verifier::spinoff_prover]
    fn sadd(&mut self) -> (r: Result<(), VmError>)
        requires
            old(self).wf(),
        ensures
            final(self).wf(),
            sadd_step(*old(self), *final(self), r),
    {
        if self.memory.stack_pointer < 8 {
            return Err(VmError::StackUnderflow);
        }
        let p1 = self.remove_top()?;
        let p2 = self.remove_top()?;
        if p1 < 0 {
            return Err(VmError::OutOfBoundsLoad);
        }
        let b1 = match self.memory.get_string_bytes(p1 as usize) {
            Ok(b) => b,
            Err(e) => {
                return Err(e);
            },
        };
        if p2 < 0 {
            return Err(VmError::OutOfBoundsLoad);
        }
        let b2 = match self.memory.get_string_bytes(p2 as usize) {
            Ok(b) => b,
            Err(e) => {
                return Err(e);
            },
        };
        let mut cat: Vec<u8> = Vec::new();
        cat.extend_from_slice(b1.as_slice());
        cat.extend_from_slice(b2.as_slice());
        cat.push(0);
        let start = match self.memory.heap.allocate_bytes(cat.as_slice()) {
            Ok(start) => start,
            Err(e) => {
                return Err(e);
            },
        };
        proof {
            let fl = old(self).free_list();
            let s1 = cstr_read(*old(self), i32_at(old(self).stack(), old(self).sp() - 4) as int);
            let s2 = cstr_read(*old(self), i32_at(old(self).stack(), old(self).sp() - 8) as int);
            let data = (s1->0 + s2->0).push(0u8);
            assert(cat@ =~= data);
            heap::lemma_best_fit_exists(fl, data.len() as int);
            let j = heap::best_fit_index(fl, data.len() as int);
            assert(fl[j].start + fl[j].size <= old(self).heap_mem().len());
        }
        let addr: u32 = (start + crate::memory::STACK_SIZE) as u32;
        let pushed = self.push(crate::utils::sign_of_unsigned(addr));
        proof {
            crate::utils::lemma_unsign_sign(addr);
            assert(pushed is Ok);
        }
        Ok(())
    }

    /// Resolves a foreign function by id, pops and decodes its
    /// arguments in declaration order, records its effect, and stores
    /// its result.
    #[verifier::rlimit(50)]
    fn ffcall(&mut self, function_id: u32) -> (r: Result<(), VmError>)
        requires
            old(self).wf(),
        ensures
            final(self).wf(),
            ffcall_step(*old(self), *final(self), function_id, r),
    {
        let function = match FFIFunction::find(&(function_id as usize)) {
            Some(f) => f,
            None => {
                return Err(VmError::FFIUnknown);
            },
        };
        let address = self.remove_top()?;
        if address < 0 {
            return Err(VmError::OutOfBoundsLoad);
        }
        let string = match self.memory.get_string(address as usize) {
            Ok(s) => s,
            Err(e) => {
                return Err(e);
            },
        };
        let mut args: Vec<FFIValue> = Vec::new();
        args.push(FFIValue::String(string));
        let outcome = match function.call(args) {
            Ok(o) => o,
            Err(e) => {
                return Err(e);
            },
        };
        self.store_ffi_result(outcome)
    }

    /// Records a foreign call's outcome: its output line, if any, is
    /// appended to the machine's output, and its return value is
    /// pushed as its type directs; a void return pushes nothing.
    #[verifier::rlimit(50)]
    fn store_ffi_result(&mut self, value: FFIOutcome) -> (r: Result<(), VmError>)
        requires
            old(self).wf(),
            !(value.value is String),
        ensures
            final(self).wf(),
            final(self).halt == old(self).halt,
            final(self).steps == old(self).steps,
            final(self).code() == old(self).code(),
            final(self).ic() == old(self).ic(),
            final(self).frames() == old(self).frames(),
            final(self).heap_mem() == old(self).heap_mem(),
            final(self).free_list() == old(self).free_list(),
            final(self).ss() == old(self).ss(),
            final(self).out() == (match value.output {
                Some(line) => old(self).out().push(line@),
                None => old(self).out(),
            }),
            match value.value {
                FFIValue::Void => r == Ok::<(), VmError>(()) && final(self).stack() == old(
                    self,
                ).stack() && final(self).sp() == old(self).sp(),
                FFIValue::I32(v) => {
                    if old(self).sp() + 4 <= old(self).ss() {
                        &&& r == Ok::<(), VmError>(())
                        &&& final(self).stack() == splice(
                            old(self).stack(),
                            old(self).sp(),
                            be_bytes_i32(v),
                        )
                        &&& final(self).sp() == old(self).sp() + 4
                    } else {
                        &&& r == Err::<(), VmError>(VmError::StackOverflow)
                        &&& final(self).stack() == old(self).stack()
                        &&& final(self).sp() == old(self).sp()
                    }
                },
                FFIValue::I64(v) => {
                    let hi = (v >> 32i64) as i32;
                    let lo = (v & 0xFFFFFFFFi64) as i32;
                    if old(self).sp() + 8 <= old(self).ss() {
                        &&& r == Ok::<(), VmError>(())
                        &&& final(self).stack() == splice(
                            splice(old(self).stack(), old(self).sp(), be_bytes_i32(hi)),
                            old(self).sp() + 4,
                            be_bytes_i32(lo),
                        )
                        &&& final(self).sp() == old(self).sp() + 8
                    } else if old(self).sp() + 4 <= old(self).ss() {
                        &&& r == Err::<(), VmError>(VmError::StackOverflow)
                        &&& final(self).stack() == splice(
                            old(self).stack(),
                            old(self).sp(),
                            be_bytes_i32(hi),
                        )
                        &&& final(self).sp() == old(self).sp() + 4
                    } else {
                        &&& r == Err::<(), VmError>(VmError::StackOverflow)
                        &&& final(self).stack() == old(self).stack()
                        &&& final(self).sp() == old(self).sp()
                    }
                },
                FFIValue::String(_) => true,
            },
    {
        let FFIOutcome { value, output } = value;
        match output {
            Some(line) => {
                self.output.push(line);
                proof {
                    assert(self.out() =~= old(self).out().push(self.output@.last()@));
                }
            },
            None => {},
        }
        match value {
            FFIValue::I32(v) => self.push(v),
            FFIValue::I64(v) => {
                let hi = #[verifier::truncate] ((v >> 32i64) as i32);
                let lo = #[verifier::truncate] ((v & 0xFFFFFFFFi64) as i32);
                self.push(hi)?;
                self.push(lo)?;
                Ok(())
            },
            FFIValue::String(_) => Err(VmError::FFIArgument),
            FFIValue::Void => Ok(()),
        }
    }
}

/// Halting: the halt flag is raised and nothing else moves.
pub open spec fn halt_step(pre: Evaluator, post: Evaluator, r: Result<(), VmError>) -> bool {
    &&& r == Ok::<(), VmError>(())
    &&& post.halt == true
    &&& post.steps == pre.steps
    &&& post.code() == pre.code()
    &&& post.ic() == pre.ic()
    &&& post.frames() == pre.frames()
    &&& post.heap_mem() == pre.heap_mem()
    &&& post.free_list() == pre.free_list()
    &&& post.out() == pre.out()
    &&& post.stack() == pre.stack()
    &&& post.sp() == pre.sp()
    &&& post.ss() == pre.ss()
}

/// The meaning of one instruction: how the state after it and the
/// reported result relate to the state before it, opcode by opcode.
/// The state before is the state after the fetch, so the instruction
/// counter already names the following record.
pub open spec fn step_post(
    pre: Evaluator,
    post: Evaluator,
    inst: Instruction,
    r: Result<(), VmError>,
) -> bool {
    match inst.opcode {
        OpCode::NOP => r == Ok::<(), VmError>(()) && same_state(pre, post),
        OpCode::LOAD => load_step(pre, post, inst.operand, inst.offset, r),
        OpCode::STORE => store_step(pre, post, inst.operand, inst.offset, r),
        OpCode::ALLOC => alloc_step(pre, post, unsign_val(inst.operand), r),
        OpCode::FREE => free_step(pre, post, unsign_val(inst.operand), r),
        OpCode::PUSH => push_step(pre, post, inst.operand, r),
        OpCode::POP => pop_step(pre, post, r),
        OpCode::JMP => jmp_step(pre, post, unsign_val(inst.operand), r),
        OpCode::JZ => cond_jmp_step(pre, post, unsign_val(inst.operand), true, r),
        OpCode::JNZ => cond_jmp_step(pre, post, unsign_val(inst.operand), false, r),
        OpCode::CALL => call_step(pre, post, unsign_val(inst.operand), r),
        OpCode::IRET => iret_step(pre, post, unsign_val(inst.operand), r),
        OpCode::IADD => binop_step(pre, post, OpCode::IADD, r),
        OpCode::ISUB => binop_step(pre, post, OpCode::ISUB, r),
        OpCode::IMUL => binop_step(pre, post, OpCode::IMUL, r),
        OpCode::IDIV => binop_step(pre, post, OpCode::IDIV, r),
        OpCode::IMOD => binop_step(pre, post, OpCode::IMOD, r),
        OpCode::IEQ => binop_step(pre, post, OpCode::IEQ, r),
        OpCode::ILT => binop_step(pre, post, OpCode::ILT, r),
        OpCode::ILE => binop_step(pre, post, OpCode::ILE, r),
        OpCode::IGT => binop_step(pre, post, OpCode::IGT, r),
        OpCode::IGE => binop_step(pre, post, OpCode::IGE, r),
        OpCode::IAND => binop_step(pre, post, OpCode::IAND, r),
        OpCode::IOR => binop_step(pre, post, OpCode::IOR, r),
        OpCode::IXOR => binop_step(pre, post, OpCode::IXOR, r),
        OpCode::INOT => inot_step(pre, post, r),
        OpCode::INE => binop_step(pre, post, OpCode::INE, r),
        OpCode::SADD => sadd_step(pre, post, r),
        OpCode::PUSHB => pushb_step(pre, post, inst.operand as u8, r),
        OpCode::STOREB => storeb_step(pre, post, inst.operand, r),
        OpCode::LOADA => push_step(
            pre,
            post,
            vstd::wrapping::i32_specs::wrapping_add(pre.frame_base() as i32, inst.operand),
            r,
        ),
        OpCode::RLOAD => rload_step(pre, post, inst.operand, inst.offset, r),
        OpCode::RSTORE => rstore_step(pre, post, inst.operand, inst.offset, r),
        OpCode::PUSHSP => push_step(
            pre,
            post,
            vstd::wrapping::i32_specs::wrapping_add(pre.sp() as i32, inst.operand),
            r,
        ),
        OpCode::HALLOC => halloc_step(pre, post, unsign_val(inst.operand), r),
        OpCode::DHALLOC => dhalloc_step(pre, post, r),
        OpCode::FFCALL => ffcall_step(pre, post, unsign_val(inst.operand), r),
        OpCode::ITOA => itoa_step(pre, post, r),
        OpCode::HALT => halt_step(pre, post, r),
    }
}

/// A failure surfaced to the host: the error, the offending
/// instruction where one was decoded, and the instruction counter at
/// the failure.
#[derive(Clone, Copy, Debug, PartialEq, Eq)]
pub struct Fault {
    pub error: VmError,
    pub instruction: Option<Instruction>,
    pub ic: usize,
}

/// The machine one fetch later: the cursor stands past the record
/// just read and one more step of the budget is spent. Nothing else
/// moves during a fetch.
pub open spec fn after_fetch<'a>(pre: Evaluator<'a>) -> Evaluator<'a> {
    Evaluator {
        halt: pre.halt,
        steps: (pre.steps + 1) as u64,
        byte_code_parser: crate::loading::ByteCodeParser {
            byte_code: pre.byte_code_parser.byte_code,
            instruction_counter: (pre.byte_code_parser.instruction_counter + 1) as usize,
        },
        stack_frames: pre.stack_frames,
        memory: pre.memory,
        output: pre.output,
    }
}

/// A complete run from `pre` of at most `fuel` instructions: `post`
/// is the machine where the run stops and `r` what it reports. The
/// run stops quietly where the machine is halted, the step budget is
/// spent, or the next record would run past the bytecode; an
/// unassigned opcode stops it with a fault naming no instruction;
/// otherwise the fetched instruction is dispatched, a failing one
/// stops the run with a fault naming it, and a successful one lets
/// the run go on from its outcome.
pub open spec fn run_n<'a>(
    pre: Evaluator<'a>,
    post: Evaluator<'a>,
    r: Result<(), Fault>,
    fuel: nat,
) -> bool
    decreases fuel,
{
    if pre.halt || pre.steps == u64::MAX || pre.ic() * 12 + 12 > pre.code().len() {
        r == Ok::<(), Fault>(()) && same_state(pre, post)
    } else if !crate::loading::fetch_opcode_assigned(pre.code(), pre.ic()) {
        &&& r == Err::<(), Fault>(
            Fault {
                error: VmError::BadOpcode,
                instruction: None,
                ic: pre.byte_code_parser.instruction_counter,
            },
        )
        &&& same_state(pre, post)
    } else if fuel == 0 {
        false
    } else {
        exists|inst: Instruction, next: Evaluator<'a>, sr: Result<(), VmError>|
            {
                &&& crate::loading::fetch_ok(pre.code(), pre.ic(), inst)
                &&& #[trigger] step_post(after_fetch(pre), next, inst, sr)
                &&& match sr {
                    Ok(_) => run_n(next, post, r, (fuel - 1) as nat),
                    Err(e) => r == Err::<(), Fault>(
                        Fault {
                            error: e,
                            instruction: Some(inst),
                            ic: next.byte_code_parser.instruction_counter,
                        },
                    ) && same_state(next, post),
                }
            }
    }
}

/// A complete run from `pre` to `post` reporting `r`: one of some
/// number of instructions.
pub open spec fn run_rel<'a>(pre: Evaluator<'a>, post: Evaluator<'a>, r: Result<(), Fault>) -> bool {
    exists|fuel: nat| run_n(pre, post, r, fuel)
}

/// One successfully dispatched instruction extends a complete run
/// backward by one.
proof fn lemma_run_prepend<'a>(
    pre: Evaluator<'a>,
    inst: Instruction,
    next: Evaluator<'a>,
    post: Evaluator<'a>,
    r: Result<(), Fault>,
)
    requires
        !pre.halt,
        pre.steps < u64::MAX,
        crate::loading::fetch_ok(pre.code(), pre.ic(), inst),
        step_post(after_fetch(pre), next, inst, Ok::<(), VmError>(())),
        run_rel(next, post, r),
    ensures
        run_rel(pre, post, r),
{
    let fuel = choose|fuel: nat| run_n(next, post, r, fuel);
    assert(crate::loading::fetch_opcode_assigned(pre.code(), pre.ic())) by {
        assert(op_code_value(inst.opcode) == be_val(
            pre.code().subrange(pre.ic() * 12, pre.ic() * 12 + 4),
        ));
    }
    assert(run_n(next, post, r, fuel));
    assert(run_n(pre, post, r, fuel + 1));
}

impl<'a> Evaluator<'a> {
    /// Dispatches one fetched instruction. The relation between the
    /// state before and after is exactly `step_post`.
    pub fn evaluate_instruction(&mut self, instruction: &Instruction) -> (r: Result<(), VmError>)
        requires
            old(self).wf(),
        ensures
            final(self).wf(),
            step_post(*old(self), *final(self), *instruction, r),
    {
        let operand = instruction.operand;
        let offset = instruction.offset;
        match instruction.opcode {
            OpCode::ALLOC => self.stack_alloc(crate::utils::unsign_of_signed(operand)),
            OpCode::FREE => self.free(crate::utils::unsign_of_signed(operand)),
            OpCode::LOAD => self.load(operand, offset),
            OpCode::STORE => self.store(operand, offset),
            OpCode::PUSH => self.push(operand),
            OpCode::IADD => self.iadd(),
            OpCode::ISUB => self.isub(),
            OpCode::IMUL => self.imul(),
            OpCode::IDIV => self.idiv(),
            OpCode::IMOD => self.imod(),
            OpCode::IEQ => self.ieq(),
            OpCode::ILT => self.ilt(),
            OpCode::ILE => self.ile(),
            OpCode::IAND => self.iand(),
            OpCode::IOR => self.ior(),
            OpCode::IXOR => self.ixor(),
            OpCode::INOT => self.inot(),
            OpCode::JMP => self.jmp(crate::utils::unsign_of_signed(operand)),
            OpCode::JZ => self.jz(crate::utils::unsign_of_signed(operand)),
            OpCode::JNZ => self.jnz(crate::utils::unsign_of_signed(operand)),
            OpCode::CALL => self.call(crate::utils::unsign_of_signed(operand)),
            OpCode::HALT => {
                self.halt = true;
                Ok(())
            },
            OpCode::POP => self.pop(),
            OpCode::IRET => self.iret(crate::utils::unsign_of_signed(operand)),
            OpCode::IGT => self.igt(),
            OpCode::IGE => self.ige(),
            OpCode::INE => self.ine(),
            OpCode::HALLOC => self.halloc(crate::utils::unsign_of_signed(operand)),
            OpCode::FFCALL => self.ffcall(crate::utils::unsign_of_signed(operand)),
            OpCode::SADD => self.sadd(),
            OpCode::PUSHB => self.pushb(#[verifier::truncate] (operand as u8)),
            OpCode::ITOA => self.itoa(),
            OpCode::NOP => Ok(()),
            OpCode::STOREB => self.storeb(operand),
            OpCode::LOADA => self.loada(operand),
            OpCode::RLOAD => self.rload(operand, offset),
            OpCode::RSTORE => self.rstore(operand, offset),
            OpCode::PUSHSP => self.pushsp(operand),
            OpCode::DHALLOC => self.dhalloc(),
        }
    }

    /// Runs until the machine halts, the stream ends, an instruction
    /// fails, or the step counter is spent. Reaching the end of the
    /// stream stops quietly: the program lacks a halt. An unassigned
    /// opcode or a failing instruction is surfaced as a fault. The
    /// whole run is the iterated fetch-and-dispatch relation: the
    /// final state and the result are pinned by `run_rel` over the
    /// starting state.
    #[verifier::rlimit(100)]
    #[verifier::spinoff_prover]
    pub fn evaluate(&mut self) -> (r: Result<(), Fault>)
        requires
            old(self).wf(),
        ensures
            final(self).wf(),
            run_rel(*old(self), *final(self), r),
            r is Ok ==> final(self).halt || final(self).ic() * 12 + 12 > final(self).code().len()
                || final(self).steps == u64::MAX,
            r is Err ==> !final(self).halt,
    {
        while !self.halt
            invariant
                self.wf(),
                forall|post: Evaluator<'a>, rr: Result<(), Fault>|
                    #[trigger] run_rel(*self, post, rr) ==> run_rel(*old(self), post, rr),
            decreases u64::MAX - self.steps,
        {
            let ghost cur = *self;
            if self.steps == u64::MAX {
                proof {
                    assert(run_n(cur, cur, Ok::<(), Fault>(()), 0));
                    assert(run_rel(cur, cur, Ok::<(), Fault>(())));
                }
                return Ok(());
            }
            let instruction = match self.byte_code_parser.parse_instruction() {
                Ok(inst) => inst,
                Err(VmError::Truncation) => {
                    proof {
                        assert(run_n(cur, cur, Ok::<(), Fault>(()), 0));
                        assert(run_rel(cur, cur, Ok::<(), Fault>(())));
                    }
                    return Ok(());
                },
                Err(e) => {
                    let fault = Fault {
                        error: e,
                        instruction: None,
                        ic: self.byte_code_parser.instruction_counter,
                    };
                    proof {
                        assert(run_n(cur, cur, Err::<(), Fault>(fault), 0));
                        assert(run_rel(cur, cur, Err::<(), Fault>(fault)));
                    }
                    return Err(fault);
                },
            };
            self.steps = self.steps + 1;
            proof {
                assert(*self == after_fetch(cur));
            }
            match self.evaluate_instruction(&instruction) {
                Ok(_) => {
                    proof {
                        assert forall|post: Evaluator<'a>, rr: Result<(), Fault>|
                            #[trigger] run_rel(*self, post, rr) implies run_rel(
                            *old(self),
                            post,
                            rr,
                        ) by {
                            lemma_run_prepend(cur, instruction, *self, post, rr);
                        }
                    }
                },
                Err(e) => {
                    let fault = Fault {
                        error: e,
                        instruction: Some(instruction),
                        ic: self.byte_code_parser.instruction_counter,
                    };
                    proof {
                        assert(step_post(after_fetch(cur), *self, instruction, Err::<
                            (),
                            VmError,
                        >(e)));
                        assert(crate::loading::fetch_opcode_assigned(cur.code(), cur.ic())) by {
                            assert(op_code_value(instruction.opcode) == be_val(
                                cur.code().subrange(cur.ic() * 12, cur.ic() * 12 + 4),
                            ));
                        }
                        assert(run_n(cur, *self, Err::<(), Fault>(fault), 1));
                        assert(run_rel(cur, *self, Err::<(), Fault>(fault)));
                    }
                    return Err(fault);
                },
            }
        }
        proof {
            assert(run_n(*self, *self, Ok::<(), Fault>(()), 0));
            assert(run_rel(*self, *self, Ok::<(), Fault>(())));
        }
        Ok(())
    }
}

/// What a fresh machine over the given bytecode looks like: not
/// halted, no step spent, the cursor at the first record, the
/// sentinel frame alone, the stack and heap zeroed, the whole heap
/// one free block, and nothing printed.
pub open spec fn initial_state(e: Evaluator, code: Seq<u8>) -> bool {
    &&& e.wf()
    &&& !e.halt
    &&& e.steps == 0
    &&& e.code() == code
    &&& e.ic() == 0
    &&& e.frames() == seq![0u32]
    &&& e.sp() == 0
    &&& e.stack() == Seq::new(crate::memory::STACK_SIZE as nat, |i: int| 0u8)
    &&& e.heap_mem() == Seq::new(crate::memory::HEAP_SIZE as nat, |i: int| 0u8)
    &&& e.free_list() == seq![heap::FreeBlock { start: 0, size: crate::memory::HEAP_SIZE }]
    &&& e.out() == Seq::<Seq<char>>::empty()
}

/// Runs a bytecode program from its first instruction and returns the
/// lines its foreign calls printed, or the fault that stopped it: a
/// complete run, in the sense of `run_rel`, from a fresh machine over
/// the program.
pub fn evaluate<'a>(byte_code: &'a [u8]) -> (r: Result<Vec<String>, Fault>)
    ensures
        r matches Ok(lines) ==> exists|pre: Evaluator<'a>, post: Evaluator<'a>|
            {
                &&& initial_state(pre, byte_code@)
                &&& #[trigger] run_rel(pre, post, Ok::<(), Fault>(()))
                &&& lines.deep_view() == post.out()
            },
        r matches Err(fault) ==> exists|pre: Evaluator<'a>, post: Evaluator<'a>|
            {
                &&& initial_state(pre, byte_code@)
                &&& #[trigger] run_rel(pre, post, Err::<(), Fault>(fault))
            },
{
    let mut evaluator = Evaluator::new(byte_code);
    let ghost pre = evaluator;
    let res = evaluator.evaluate();
    let ghost post = evaluator;
    proof {
        assert(initial_state(pre, byte_code@));
        assert(run_rel(pre, post, res));
    }
    match res {
        Ok(_) => {
            proof {
                assert(res is Ok);
                assert(res->Ok_0 == ());
                assert(res == Ok::<(), Fault>(()));
                assert(run_rel(pre, post, Ok::<(), Fault>(())));
            }
            Ok(evaluator.output)
        },
        Err(e) => {
            proof {
                assert(run_rel(pre, post, Err::<(), Fault>(e)));
            }
            Err(e)
        },
    }
}

/// Pushing a value and then popping leaves the stack byte-identical:
/// the live region below the old stack pointer is untouched, and the
/// pointer is back where it was.
pub proof fn law_push_pop(s0: Evaluator, s1: Evaluator, s2: Evaluator, x: i32)
    requires
        push_step(s0, s1, x, Ok(())),
        pop_step(s1, s2, Ok(())),
    ensures
        s2.sp() == s0.sp(),
        s2.stack().subrange(0, s0.sp()) == s0.stack().subrange(0, s0.sp()),
        s2.frames() == s0.frames(),
        s2.heap_mem() == s0.heap_mem(),
        s2.free_list() == s0.free_list(),
{
    assert(s2.stack().subrange(0, s0.sp()) =~= s0.stack().subrange(0, s0.sp()));
}

/// After pushing a value, the top four stack bytes decode, big-endian,
/// to exactly that value.
pub proof fn law_push_top(s0: Evaluator, s1: Evaluator, x: i32)
    requires
        push_step(s0, s1, x, Ok(())),
    ensures
        i32_at(s1.stack(), s1.sp() - 4) == x,
{
    assert(s1.stack().subrange(s1.sp() - 4, s1.sp()) =~= be_bytes_i32(x));
    crate::utils::lemma_be_val_be_bytes(unsign_val(x));
    crate::utils::lemma_sign_unsign(x);
}

/// A call followed immediately by a matching return: the stack
/// pointer ends at its value before the call plus the returned size
/// (the return-address slot is consumed, even for a void return, and
/// the return value's bytes take its place), and control returns to
/// the instruction after the call.
pub proof fn law_call_iret(s0: Evaluator, s1: Evaluator, s2: Evaluator, dest: u32, k: u32)
    requires
        s0.wf(),
        call_step(s0, s1, dest, Ok(())),
        iret_step(s1, s2, k, Ok(())),
    ensures
        s2.sp() == s0.sp() + k,
        s2.ic() == s0.ic() % 0x100000000,
        s2.frames() == s0.frames(),
        s2.stack().subrange(s0.sp(), s0.sp() + k) == s1.stack().subrange(
            s1.sp() - k,
            s1.sp(),
        ),
{
    assert(s1.frame_base() == s0.sp() + 4);
    assert(s2.stack().subrange(s0.sp(), s0.sp() + k) =~= s1.stack().subrange(
        s1.sp() - k,
        s1.sp(),
    ));
    assert(s1.stack().subrange(s0.sp(), s0.sp() + 4) =~= be_bytes_i32(ret_addr(s0.ic())));
    assert(i32_at(s1.stack(), s0.sp()) == ret_addr(s0.ic())) by {
        crate::utils::lemma_be_val_be_bytes(unsign_val(ret_addr(s0.ic())));
        crate::utils::lemma_sign_unsign(ret_addr(s0.ic()));
    }
    assert(unsign_val(sign_val((s0.ic() % 0x100000000) as u32)) == (s0.ic() % 0x100000000) as u32)
        by {
        crate::utils::lemma_unsign_sign((s0.ic() % 0x100000000) as u32);
    }
    assert(s2.frames() =~= s0.frames());
}

/// A successful foreign call to `println` appends exactly the
/// characters of the NUL-terminated string its pointer argument
/// names as one line of output, pops only that pointer, and leaves
/// the stack bytes, the heap, the free list and the frames alone.
pub proof fn law_ffcall_println(s0: Evaluator, s1: Evaluator, s: Seq<u8>)
    requires
        ffcall_step(s0, s1, 0, Ok(())),
        s0.sp() >= 4,
        cstr_read(s0, i32_at(s0.stack(), s0.sp() - 4) as int) == Some(s),
    ensures
        s1.out() == s0.out().push(chars_of_bytes(s)),
        s1.sp() == s0.sp() - 4,
        s1.stack() == s0.stack(),
        s1.heap_mem() == s0.heap_mem(),
        s1.free_list() == s0.free_list(),
        s1.frames() == s0.frames(),
{
}

/// Divides, truncating toward zero; the one overflowing quotient
/// wraps.
fn div_i32(a: i32, b: i32) -> (r: i32)
    requires
        b != 0,
    ensures
        r == vstd::wrapping::i32_specs::signed_crop(div_trunc(a as int, b as int)),
{
    let ma: u32 = if a >= 0 {
        a as u32
    } else {
        (-(a as i64)) as u32
    };
    let mb: u32 = if b >= 0 {
        b as u32
    } else {
        (-(b as i64)) as u32
    };
    let q = ma / mb;
    proof {
        assert(ma as int == abs(a as int));
        assert(mb as int == abs(b as int));
        assert(q <= ma) by (nonlinear_arith)
            requires
                mb >= 1,
                q == ma / mb,
        {}
    }
    if (a < 0) != (b < 0) {
        let result = (-(q as i64)) as i32;
        proof {
            assert(div_trunc(a as int, b as int) == -(q as int));
            assert(-0x80000000 <= -(q as int) <= 0);
            assert(vstd::wrapping::i32_specs::signed_crop(-(q as int)) == result);
        }
        result
    } else {
        if q >= 0x80000000u32 {
            proof {
                assert(q == 0x80000000);
                assert(div_trunc(a as int, b as int) == 0x80000000int);
                assert(vstd::wrapping::i32_specs::signed_crop(0x80000000int) == i32::MIN);
            }
            i32::MIN
        } else {
            proof {
                assert(div_trunc(a as int, b as int) == q as int);
                assert(vstd::wrapping::i32_specs::signed_crop(q as int) == q as i32);
            }
            q as i32
        }
    }
}

/// The remainder of truncated division; its sign follows the
/// dividend.
fn rem_i32(a: i32, b: i32) -> (r: i32)
    requires
        b != 0,
    ensures
        r as int == rem_trunc(a as int, b as int),
{
    let ma: u32 = if a >= 0 {
        a as u32
    } else {
        (-(a as i64)) as u32
    };
    let mb: u32 = if b >= 0 {
        b as u32
    } else {
        (-(b as i64)) as u32
    };
    let mr = ma % mb;
    proof {
        assert(ma as int == abs(a as int));
        assert(mb as int == abs(b as int));
        vstd::arithmetic::div_mod::lemma_fundamental_div_mod(ma as int, mb as int);
        assert(ma as int == (mb as int) * ((ma as int) / (mb as int)) + (ma as int) % (mb as int));
        assert(rem_trunc(a as int, b as int) == if a >= 0 {
            mr as int
        } else {
            -(mr as int)
        }) by (nonlinear_arith)
            requires
                b != 0,
                ma as int == abs(a as int),
                mb as int == abs(b as int),
                mr as int == (ma as int) % (mb as int),
                rem_trunc(a as int, b as int) == a - b * div_trunc(a as int, b as int),
                div_trunc(a as int, b as int) == if (a < 0) != (b < 0) {
                    -((ma as int) / (mb as int))
                } else {
                    (ma as int) / (mb as int)
                },
                ma as int == (mb as int) * ((ma as int) / (mb as int)) + (ma as int) % (
                mb as int),
        {}
    }
    if a < 0 {
        (-(mr as i64)) as i32
    } else {
        mr as i32
    }
}

} // verus!

