use proteus_vm::errors::VmError;
use proteus_vm::memory::HEAP_SIZE;
use proteus_vm::memory::Memory;
use proteus_vm::memory::STACK_SIZE;

#[test]
fn new_memory_layout() {
    let memory = Memory::new();
    assert_eq!(memory.stack.len(), STACK_SIZE);
    assert_eq!(memory.heap.memory.len(), HEAP_SIZE);
    assert_eq!(memory.stack_pointer, 0);
    assert_eq!(memory.heap_start(), STACK_SIZE);
}

#[test]
fn push_advances_and_returns_the_old_pointer() {
    let mut memory = Memory::new();
    assert_eq!(memory.push(&[1, 2, 3]), Ok(0));
    assert_eq!(memory.push(&[4]), Ok(3));
    assert_eq!(memory.stack_pointer, 4);
    assert_eq!(&memory.stack[0..4], &[1, 2, 3, 4]);
}

#[test]
fn pop_returns_the_bytes_passed_over() {
    let mut memory = Memory::new();
    memory.push(&[1, 2, 3, 4]).unwrap();
    assert_eq!(memory.pop(2), Ok(vec![3, 4]));
    assert_eq!(memory.stack_pointer, 2);
    assert_eq!(memory.pop(3), Err(VmError::StackUnderflow));
}

#[test]
fn peek_does_not_move_the_pointer() {
    let mut memory = Memory::new();
    memory.push(&[1, 2, 3, 4]).unwrap();
    assert_eq!(memory.peek(2), Ok(vec![3, 4]));
    assert_eq!(memory.stack_pointer, 4);
    assert_eq!(memory.peek_down(1, 2), Ok(vec![2, 3]));
    assert_eq!(memory.peek(5), Err(VmError::StackUnderflow));
}

#[test]
fn stack_overflow_is_fatal() {
    let mut memory = Memory::new();
    assert_eq!(memory.move_stack_pointer_by(STACK_SIZE), Ok(()));
    assert_eq!(memory.push(&[1]), Err(VmError::StackOverflow));
    assert_eq!(memory.move_stack_pointer_by(1), Err(VmError::StackOverflow));
}

#[test]
fn loads_and_stores_translate_heap_addresses() {
    let mut memory = Memory::new();
    let address = memory.allocate_heap(4).unwrap();
    assert_eq!(address, STACK_SIZE);
    assert_eq!(memory.store(address, &[9, 8, 7, 6]), Ok(()));
    assert_eq!(memory.load(address, 4), Ok(vec![9, 8, 7, 6]));
    assert_eq!(memory.heap.load(0, 4), Ok(vec![9, 8, 7, 6]));
}

#[test]
fn stack_loads_and_stores_use_the_address_directly() {
    let mut memory = Memory::new();
    assert_eq!(memory.store(10, &[5, 6]), Ok(()));
    assert_eq!(memory.load(10, 2), Ok(vec![5, 6]));
    assert_eq!(memory.load(STACK_SIZE - 1, 2), Err(VmError::OutOfBoundsLoad));
}

#[test]
fn push_string_appends_a_nul() {
    let mut memory = Memory::new();
    memory.push_string("ab").unwrap();
    assert_eq!(memory.stack_pointer, 3);
    assert_eq!(&memory.stack[0..3], &[b'a', b'b', 0]);
}

#[test]
fn pop_string_reads_downward_to_the_nul() {
    let mut memory = Memory::new();
    memory.push(&[0, b'h', b'i']).unwrap();
    assert_eq!(memory.pop_string(), Ok("ih".to_string()));
    assert_eq!(memory.stack_pointer, 0);
}

#[test]
fn pop_string_without_a_nul_underflows() {
    let mut memory = Memory::new();
    memory.push(&[b'h', b'i']).unwrap();
    assert_eq!(memory.pop_string(), Err(VmError::StackUnderflow));
}

#[test]
fn get_string_reads_stack_or_heap() {
    let mut memory = Memory::new();
    memory.push(&[b'h', b'i', 0]).unwrap();
    assert_eq!(memory.get_string(0), Ok("hi".to_string()));
    let address = memory.allocate_heap(3).unwrap();
    memory.store(address, &[b'y', b'o', 0]).unwrap();
    assert_eq!(memory.get_string(address), Ok("yo".to_string()));
}

#[test]
fn get_string_without_a_nul_fails() {
    let mut memory = Memory::new();
    // the whole stack is zeroed, so scan a heap region with no terminator
    let address = memory.allocate_heap(HEAP_SIZE).unwrap();
    for i in 0..HEAP_SIZE {
        memory.heap.memory[i] = 1;
    }
    assert_eq!(memory.get_string(address), Err(VmError::OutOfBoundsLoad));
    assert_eq!(
        memory.get_string(STACK_SIZE + HEAP_SIZE + 5),
        Err(VmError::OutOfBoundsLoad)
    );
}
