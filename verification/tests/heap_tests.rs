use proteus_vm::errors::VmError;
use proteus_vm::heap::FreeBlock;
use proteus_vm::heap::Heap;

#[test]
fn new_heap_is_one_free_block() {
    let heap = Heap::new(64);
    assert_eq!(heap.memory.len(), 64);
    assert!(heap.memory.iter().all(|b| *b == 0));
    assert_eq!(heap.free_list.len(), 1);
    assert_eq!(heap.free_list[0], FreeBlock { start: 0, size: 64 });
}

#[test]
fn allocate_takes_from_the_front() {
    let mut heap = Heap::new(64);
    assert_eq!(heap.allocate(16), Ok(0));
    assert_eq!(heap.allocate(16), Ok(16));
    assert_eq!(heap.free_list.len(), 1);
    assert_eq!(heap.free_list[0], FreeBlock { start: 32, size: 32 });
}

#[test]
fn allocate_picks_best_fit() {
    let mut heap = Heap::new(100);
    assert_eq!(heap.allocate(10), Ok(0));
    assert_eq!(heap.allocate(30), Ok(10));
    assert_eq!(heap.allocate(10), Ok(40));
    // free the 10-byte hole at 0 and the 30-byte hole at 10
    assert_eq!(heap.free(0, 10), Ok(()));
    assert_eq!(heap.free(10, 30), Ok(()));
    // they coalesce into one 40-byte hole; the tail hole is 50 bytes
    assert_eq!(heap.free_list.len(), 2);
    // an 8-byte request takes the smallest hole large enough: the 40-byte one
    assert_eq!(heap.allocate(8), Ok(0));
}

#[test]
fn allocate_exact_fit_empties_the_free_list() {
    let mut heap = Heap::new(64);
    assert_eq!(heap.allocate(64), Ok(0));
    assert!(heap.free_list.is_empty());
    assert_eq!(heap.allocate(1), Err(VmError::OutOfMemory));
}

#[test]
fn allocate_out_of_memory() {
    let mut heap = Heap::new(64);
    assert_eq!(heap.allocate(65), Err(VmError::OutOfMemory));
    assert_eq!(heap.free_list.len(), 1);
}

#[test]
fn free_list_coalesces_in_any_order() {
    // three adjacent 16-byte blocks; free middle, first, third
    let mut heap = Heap::new(1024);
    let a = heap.allocate(16).unwrap();
    let b = heap.allocate(16).unwrap();
    let c = heap.allocate(16).unwrap();
    assert_eq!((a, b, c), (0, 16, 32));
    assert_eq!(heap.free(b, 16), Ok(()));
    assert_eq!(heap.free(a, 16), Ok(()));
    assert_eq!(heap.free(c, 16), Ok(()));
    assert_eq!(heap.free_list.len(), 1);
    assert_eq!(heap.free_list[0], FreeBlock { start: 0, size: 1024 });
}

#[test]
fn free_list_coalesces_first_then_third_then_middle() {
    let mut heap = Heap::new(1024);
    let a = heap.allocate(16).unwrap();
    let b = heap.allocate(16).unwrap();
    let c = heap.allocate(16).unwrap();
    assert_eq!(heap.free(a, 16), Ok(()));
    // freeing the third block merges it with the tail hole at once
    assert_eq!(heap.free(c, 16), Ok(()));
    assert_eq!(heap.free_list.len(), 2);
    assert_eq!(heap.free(b, 16), Ok(()));
    assert_eq!(heap.free_list.len(), 1);
    assert_eq!(heap.free_list[0], FreeBlock { start: 0, size: 1024 });
}

#[test]
fn allocate_then_free_restores_the_free_list() {
    let mut heap = Heap::new(128);
    assert_eq!(heap.allocate(16), Ok(0));
    assert_eq!(heap.allocate(16), Ok(16));
    assert_eq!(heap.free(0, 16), Ok(()));
    let before: Vec<FreeBlock> = heap.free_list.clone();
    let start = heap.allocate(7).unwrap();
    assert_eq!(heap.free(start, 7), Ok(()));
    assert_eq!(heap.free_list, before);
}

#[test]
fn free_outside_the_arena_is_invalid() {
    let mut heap = Heap::new(64);
    assert_eq!(heap.free(60, 5), Err(VmError::InvalidFree));
    assert_eq!(heap.free(65, 1), Err(VmError::InvalidFree));
}

#[test]
fn double_free_is_invalid() {
    let mut heap = Heap::new(64);
    let start = heap.allocate(16).unwrap();
    assert_eq!(heap.free(start, 16), Ok(()));
    assert_eq!(heap.free(start, 16), Err(VmError::InvalidFree));
    assert_eq!(heap.free(start + 8, 4), Err(VmError::InvalidFree));
}

#[test]
fn store_then_load_round_trip() {
    let mut heap = Heap::new(64);
    let start = heap.allocate(4).unwrap();
    assert_eq!(heap.store(start, &[0xDE, 0xAD, 0xBE, 0xEF]), Ok(()));
    assert_eq!(heap.load(start, 4), Ok(vec![0xDE, 0xAD, 0xBE, 0xEF]));
}

#[test]
fn store_into_free_memory_is_refused() {
    let mut heap = Heap::new(64);
    let start = heap.allocate(16).unwrap();
    assert_eq!(heap.free(start, 16), Ok(()));
    assert_eq!(heap.store(start, &[1, 2, 3]), Err(VmError::WriteToFreed));
    assert_eq!(heap.store(62, &[1, 2, 3]), Err(VmError::OutOfBoundsStore));
}

#[test]
fn load_out_of_bounds() {
    let heap = Heap::new(64);
    assert_eq!(heap.load(62, 4), Err(VmError::OutOfBoundsLoad));
}

#[test]
fn allocate_string_writes_nul_terminated_bytes() {
    let mut heap = Heap::new(64);
    let start = heap.allocate_string("hi").unwrap();
    assert_eq!(heap.load(start, 3), Ok(vec![b'h', b'i', 0]));
}
