use proteus_vm::errors::VmError;
use proteus_vm::evaluator::evaluate;
use proteus_vm::evaluator::Evaluator;
use proteus_vm::ffi::FFIFunction;
use proteus_vm::ffi::FFIType;
use proteus_vm::ffi::FFIValue;
use proteus_vm::heap::FreeBlock;
use proteus_vm::instructions::Instruction;
use proteus_vm::instructions::OpCode;
use proteus_vm::loading::ByteCodeParser;
use proteus_vm::memory::STACK_SIZE;
use proteus_vm::utils::decode_signed;
use proteus_vm::utils::decode_unsigned;
use proteus_vm::utils::encode_signed;
use proteus_vm::utils::encode_unsigned;

fn record(op: OpCode, operand: i32, offset: u32) -> Vec<u8> {
    let mut bytes = Vec::new();
    bytes.extend_from_slice(&encode_unsigned(op.code()));
    bytes.extend_from_slice(&encode_signed(operand));
    bytes.extend_from_slice(&encode_unsigned(offset));
    bytes
}

fn program(instructions: &[(OpCode, i32, u32)]) -> Vec<u8> {
    let mut bytes = Vec::new();
    for (op, operand, offset) in instructions {
        bytes.extend_from_slice(&record(*op, *operand, *offset));
    }
    bytes
}

fn top_i32(evaluator: &Evaluator) -> i32 {
    let sp = evaluator.memory.stack_pointer;
    decode_signed(sp - 4, &evaluator.memory.stack).unwrap()
}

#[test]
fn parser_decodes_a_record() {
    let bytes = program(&[(OpCode::PUSH, -7, 4), (OpCode::HALT, 0, 0)]);
    let mut parser = ByteCodeParser::new(&bytes);
    assert_eq!(
        parser.parse_instruction(),
        Ok(Instruction { opcode: OpCode::PUSH, operand: -7, offset: 4 })
    );
    assert_eq!(parser.instruction_counter, 1);
    assert_eq!(
        parser.parse_instruction(),
        Ok(Instruction { opcode: OpCode::HALT, operand: 0, offset: 0 })
    );
    assert_eq!(parser.parse_instruction(), Err(VmError::Truncation));
    assert_eq!(parser.instruction_counter, 2);
}

#[test]
fn parser_refuses_a_truncated_record() {
    // a record cut off right after the opcode field
    let bytes = encode_unsigned(OpCode::NOP.code()).to_vec();
    let mut parser = ByteCodeParser::new(&bytes);
    assert_eq!(parser.parse_instruction(), Err(VmError::Truncation));
    assert_eq!(parser.instruction_counter, 0);
}

#[test]
fn parser_rejects_unassigned_opcodes() {
    let mut bytes = encode_unsigned(0x0C).to_vec();
    bytes.extend_from_slice(&encode_signed(0));
    bytes.extend_from_slice(&encode_unsigned(0));
    let mut parser = ByteCodeParser::new(&bytes);
    assert_eq!(parser.parse_instruction(), Err(VmError::BadOpcode));
    assert_eq!(parser.instruction_counter, 0);
}

#[test]
fn parser_seeks_by_instruction_index() {
    let bytes = program(&[(OpCode::NOP, 0, 0), (OpCode::PUSH, 3, 4)]);
    let mut parser = ByteCodeParser::new(&bytes);
    parser.go_to(1);
    let instruction = parser.parse_instruction().unwrap();
    assert_eq!(instruction.opcode, OpCode::PUSH);
    assert_eq!(instruction.operand, 3);
}

#[test]
fn opcode_numbers_round_trip() {
    for code in 0u32..=0xFF {
        if let Some(op) = OpCode::from_op_code(code) {
            assert_eq!(op.code(), code);
        }
    }
    assert_eq!(OpCode::from_op_code(0xFF), Some(OpCode::HALT));
    assert_eq!(OpCode::from_op_code(0x62), Some(OpCode::RSTORE));
    assert_eq!(OpCode::from_op_code(0x81), Some(OpCode::DHALLOC));
    assert_eq!(OpCode::from_op_code(0x0C), None);
}

#[test]
fn arithmetic_scenario() {
    // PUSH 2; PUSH 3; IADD; HALT -> top decodes to 5 and SP = 4
    let bytes = program(&[
        (OpCode::PUSH, 2, 4),
        (OpCode::PUSH, 3, 4),
        (OpCode::IADD, 0, 4),
        (OpCode::HALT, 0, 4),
    ]);
    let mut evaluator = Evaluator::new(&bytes);
    assert_eq!(evaluator.evaluate(), Ok(()));
    assert!(evaluator.halt);
    assert_eq!(evaluator.memory.stack_pointer, 4);
    assert_eq!(top_i32(&evaluator), 5);
}

#[test]
fn branch_scenario() {
    // PUSH 0; JZ 4; PUSH 1; HALT; PUSH 7; HALT -> top decodes to 7
    let bytes = program(&[
        (OpCode::PUSH, 0, 4),
        (OpCode::JZ, 4, 4),
        (OpCode::PUSH, 1, 4),
        (OpCode::HALT, 0, 4),
        (OpCode::PUSH, 7, 4),
        (OpCode::HALT, 0, 4),
    ]);
    let mut evaluator = Evaluator::new(&bytes);
    assert_eq!(evaluator.evaluate(), Ok(()));
    assert_eq!(top_i32(&evaluator), 7);
}

#[test]
fn call_return_scenario() {
    // PUSH 10; CALL 3; HALT; PUSH 32; IRET 4
    let bytes = program(&[
        (OpCode::PUSH, 10, 4),
        (OpCode::CALL, 3, 4),
        (OpCode::HALT, 0, 4),
        (OpCode::PUSH, 32, 4),
        (OpCode::IRET, 4, 4),
    ]);
    let mut evaluator = Evaluator::new(&bytes);
    assert_eq!(evaluator.evaluate(), Ok(()));
    // the return value sits on top, the 10 below it remains
    assert_eq!(evaluator.memory.stack_pointer, 8);
    assert_eq!(top_i32(&evaluator), 32);
    assert_eq!(decode_signed(0, &evaluator.memory.stack), Ok(10));
    // the counter rests just past the HALT at index 2
    assert_eq!(evaluator.byte_code_parser.instruction_counter, 3);
}

#[test]
fn heap_round_trip_scenario() {
    // HALLOC 4; PUSH 0xDEADBEEF; RSTORE 0 4; RLOAD 0 4; HALT
    let value = 0xDEADBEEFu32 as i32;
    let bytes = program(&[
        (OpCode::HALLOC, 4, 4),
        (OpCode::PUSH, value, 4),
        (OpCode::RSTORE, 0, 4),
        (OpCode::RLOAD, 0, 4),
        (OpCode::HALT, 0, 4),
    ]);
    let mut evaluator = Evaluator::new(&bytes);
    assert_eq!(evaluator.evaluate(), Ok(()));
    let sp = evaluator.memory.stack_pointer;
    assert_eq!(
        decode_unsigned(sp - 4, &evaluator.memory.stack),
        Ok(0xDEADBEEF)
    );
}

#[test]
fn println_ffi_scenario() {
    // PUSHB 'h','i',0; then ITOA of 42 leaves a pointer for FFCALL 0
    let bytes = program(&[
        (OpCode::PUSHB, 'h' as i32, 4),
        (OpCode::PUSHB, 'i' as i32, 4),
        (OpCode::PUSHB, 0, 4),
        (OpCode::PUSH, 42, 4),
        (OpCode::ITOA, 0, 4),
        (OpCode::FFCALL, 0, 4),
        (OpCode::HALT, 0, 4),
    ]);
    let output = evaluate(&bytes).unwrap();
    assert_eq!(output, vec!["42".to_string()]);
}

#[test]
fn division_by_zero_halts() {
    let bytes = program(&[
        (OpCode::PUSH, 0, 4),
        (OpCode::PUSH, 7, 4),
        (OpCode::IDIV, 0, 4),
        (OpCode::HALT, 0, 4),
    ]);
    let mut evaluator = Evaluator::new(&bytes);
    let fault = evaluator.evaluate().unwrap_err();
    assert_eq!(fault.error, VmError::DivideByZero);
    assert!(!evaluator.halt);
}

#[test]
fn division_truncates_toward_zero() {
    // first pop is the dividend: PUSH divisor, then PUSH dividend
    let bytes = program(&[
        (OpCode::PUSH, 2, 4),
        (OpCode::PUSH, -7, 4),
        (OpCode::IDIV, 0, 4),
        (OpCode::HALT, 0, 4),
    ]);
    let mut evaluator = Evaluator::new(&bytes);
    assert_eq!(evaluator.evaluate(), Ok(()));
    assert_eq!(top_i32(&evaluator), -3);
}

#[test]
fn modulo_follows_the_dividend() {
    let bytes = program(&[
        (OpCode::PUSH, 3, 4),
        (OpCode::PUSH, -7, 4),
        (OpCode::IMOD, 0, 4),
        (OpCode::HALT, 0, 4),
    ]);
    let mut evaluator = Evaluator::new(&bytes);
    assert_eq!(evaluator.evaluate(), Ok(()));
    assert_eq!(top_i32(&evaluator), -1);
}

#[test]
fn subtraction_takes_the_second_from_the_top() {
    // PUSH 10; PUSH 3; ISUB -> 3 - 10 = -7
    let bytes = program(&[
        (OpCode::PUSH, 10, 4),
        (OpCode::PUSH, 3, 4),
        (OpCode::ISUB, 0, 4),
        (OpCode::HALT, 0, 4),
    ]);
    let mut evaluator = Evaluator::new(&bytes);
    assert_eq!(evaluator.evaluate(), Ok(()));
    assert_eq!(top_i32(&evaluator), -7);
}

#[test]
fn iand_is_bitwise_and() {
    let bytes = program(&[
        (OpCode::PUSH, 6, 4),
        (OpCode::PUSH, 3, 4),
        (OpCode::IAND, 0, 4),
        (OpCode::HALT, 0, 4),
    ]);
    let mut evaluator = Evaluator::new(&bytes);
    assert_eq!(evaluator.evaluate(), Ok(()));
    assert_eq!(top_i32(&evaluator), 2);
}

#[test]
fn ile_is_less_or_equal() {
    let bytes = program(&[
        (OpCode::PUSH, 4, 4),
        (OpCode::PUSH, 4, 4),
        (OpCode::ILE, 0, 4),
        (OpCode::HALT, 0, 4),
    ]);
    let mut evaluator = Evaluator::new(&bytes);
    assert_eq!(evaluator.evaluate(), Ok(()));
    assert_eq!(top_i32(&evaluator), 1);
}

#[test]
fn comparisons_push_one_or_zero() {
    // PUSH 5; PUSH 3; ILT -> 3 < 5 -> 1
    let bytes = program(&[
        (OpCode::PUSH, 5, 4),
        (OpCode::PUSH, 3, 4),
        (OpCode::ILT, 0, 4),
        (OpCode::HALT, 0, 4),
    ]);
    let mut evaluator = Evaluator::new(&bytes);
    assert_eq!(evaluator.evaluate(), Ok(()));
    assert_eq!(top_i32(&evaluator), 1);
}

#[test]
fn load_and_store_are_frame_relative() {
    // ALLOC 4; PUSH 99; STORE 0 4; LOAD 0 4; HALT
    let bytes = program(&[
        (OpCode::ALLOC, 4, 4),
        (OpCode::PUSH, 99, 4),
        (OpCode::STORE, 0, 4),
        (OpCode::LOAD, 0, 4),
        (OpCode::HALT, 0, 4),
    ]);
    let mut evaluator = Evaluator::new(&bytes);
    assert_eq!(evaluator.evaluate(), Ok(()));
    assert_eq!(evaluator.memory.stack_pointer, 8);
    assert_eq!(top_i32(&evaluator), 99);
}

#[test]
fn free_returns_a_heap_block() {
    // HALLOC 16; FREE 16; HALT
    let bytes = program(&[
        (OpCode::HALLOC, 16, 4),
        (OpCode::FREE, 16, 4),
        (OpCode::HALT, 0, 4),
    ]);
    let mut evaluator = Evaluator::new(&bytes);
    assert_eq!(evaluator.evaluate(), Ok(()));
    assert_eq!(evaluator.memory.heap.free_list.len(), 1);
    assert_eq!(
        evaluator.memory.heap.free_list[0],
        FreeBlock { start: 0, size: proteus_vm::memory::HEAP_SIZE }
    );
}

#[test]
fn free_of_a_stack_address_is_invalid() {
    let bytes = program(&[
        (OpCode::PUSH, 5, 4),
        (OpCode::FREE, 4, 4),
        (OpCode::HALT, 0, 4),
    ]);
    let mut evaluator = Evaluator::new(&bytes);
    let fault = evaluator.evaluate().unwrap_err();
    assert_eq!(fault.error, VmError::InvalidFree);
}

#[test]
fn dhalloc_pops_its_size() {
    let bytes = program(&[
        (OpCode::PUSH, 8, 4),
        (OpCode::DHALLOC, 0, 4),
        (OpCode::HALT, 0, 4),
    ]);
    let mut evaluator = Evaluator::new(&bytes);
    assert_eq!(evaluator.evaluate(), Ok(()));
    assert_eq!(top_i32(&evaluator), STACK_SIZE as i32);
}

#[test]
fn pushsp_and_loada_push_addresses() {
    let bytes = program(&[
        (OpCode::PUSH, 1, 4),
        (OpCode::PUSHSP, 3, 4),
        (OpCode::LOADA, 2, 4),
        (OpCode::HALT, 0, 4),
    ]);
    let mut evaluator = Evaluator::new(&bytes);
    assert_eq!(evaluator.evaluate(), Ok(()));
    // LOADA is relative to the sentinel frame base 0
    assert_eq!(top_i32(&evaluator), 2);
    assert_eq!(decode_signed(4, &evaluator.memory.stack), Ok(7));
}

#[test]
fn storeb_writes_one_byte() {
    // HALLOC 1; PUSHB 65; STOREB 0; HALT
    let bytes = program(&[
        (OpCode::HALLOC, 1, 4),
        (OpCode::PUSHB, 65, 4),
        (OpCode::STOREB, 0, 4),
        (OpCode::HALT, 0, 4),
    ]);
    let mut evaluator = Evaluator::new(&bytes);
    assert_eq!(evaluator.evaluate(), Ok(()));
    assert_eq!(evaluator.memory.heap.memory[0], 65);
    // the base pointer stays on the stack
    assert_eq!(evaluator.memory.stack_pointer, 4);
}

#[test]
fn sadd_concatenates_heap_strings() {
    // build "hi" and "yo" on the heap by bytes, then SADD
    let h = 'h' as i32;
    let i = 'i' as i32;
    let y = 'y' as i32;
    let o = 'o' as i32;
    let bytes = program(&[
        (OpCode::HALLOC, 3, 4),  // first string block
        (OpCode::PUSHB, h, 4),
        (OpCode::STOREB, 0, 4),
        (OpCode::PUSHB, i, 4),
        (OpCode::STOREB, 1, 4),
        (OpCode::PUSHB, 0, 4),
        (OpCode::STOREB, 2, 4),
        (OpCode::HALLOC, 3, 4),  // second string block
        (OpCode::PUSHB, y, 4),
        (OpCode::STOREB, 0, 4),
        (OpCode::PUSHB, o, 4),
        (OpCode::STOREB, 1, 4),
        (OpCode::PUSHB, 0, 4),
        (OpCode::STOREB, 2, 4),
        // stack now holds [ptr1][ptr2]; SADD pops ptr2 then ptr1
        (OpCode::SADD, 0, 4),
        (OpCode::FFCALL, 0, 4),
        (OpCode::HALT, 0, 4),
    ]);
    let output = evaluate(&bytes).unwrap();
    // the first pop is the left operand: "yo" ++ "hi"
    assert_eq!(output, vec!["yohi".to_string()]);
}

#[test]
fn sadd_joins_raw_bytes() {
    // a one-byte string holding 0xC3: the joined block must hold the
    // bytes themselves, not a re-encoding of them
    let bytes = program(&[
        (OpCode::HALLOC, 2, 4),   // block at heap offset 0
        (OpCode::PUSHB, 0xC3, 4),
        (OpCode::STOREB, 0, 4),
        (OpCode::PUSHB, 0, 4),
        (OpCode::STOREB, 1, 4),
        (OpCode::PUSH, STACK_SIZE as i32, 4), // second pointer to the same block
        (OpCode::SADD, 0, 4),
        (OpCode::HALT, 0, 4),
    ]);
    let mut evaluator = Evaluator::new(&bytes);
    assert_eq!(evaluator.evaluate(), Ok(()));
    // the fresh block lands right after the two-byte one
    assert_eq!(top_i32(&evaluator), STACK_SIZE as i32 + 2);
    assert_eq!(&evaluator.memory.heap.memory[2..5], &[0xC3, 0xC3, 0x00]);
}

#[test]
fn stack_underflow_faults() {
    let bytes = program(&[(OpCode::POP, 0, 4), (OpCode::HALT, 0, 4)]);
    let mut evaluator = Evaluator::new(&bytes);
    let fault = evaluator.evaluate().unwrap_err();
    assert_eq!(fault.error, VmError::StackUnderflow);
    assert_eq!(fault.ic, 1);
}

#[test]
fn stack_overflow_faults() {
    let bytes = program(&[
        (OpCode::ALLOC, STACK_SIZE as i32, 4),
        (OpCode::PUSH, 1, 4),
        (OpCode::HALT, 0, 4),
    ]);
    let mut evaluator = Evaluator::new(&bytes);
    let fault = evaluator.evaluate().unwrap_err();
    assert_eq!(fault.error, VmError::StackOverflow);
}

#[test]
fn out_of_memory_faults() {
    let bytes = program(&[
        (OpCode::HALLOC, proteus_vm::memory::HEAP_SIZE as i32, 4),
        (OpCode::HALLOC, 1, 4),
        (OpCode::HALT, 0, 4),
    ]);
    let mut evaluator = Evaluator::new(&bytes);
    let fault = evaluator.evaluate().unwrap_err();
    assert_eq!(fault.error, VmError::OutOfMemory);
}

#[test]
fn out_of_bounds_load_faults() {
    let bytes = program(&[
        (OpCode::PUSH, -1, 4),
        (OpCode::RLOAD, 0, 4),
        (OpCode::HALT, 0, 4),
    ]);
    let mut evaluator = Evaluator::new(&bytes);
    let fault = evaluator.evaluate().unwrap_err();
    assert_eq!(fault.error, VmError::OutOfBoundsLoad);
}

#[test]
fn unknown_ffi_id_faults() {
    let bytes = program(&[(OpCode::FFCALL, 9, 4), (OpCode::HALT, 0, 4)]);
    let mut evaluator = Evaluator::new(&bytes);
    let fault = evaluator.evaluate().unwrap_err();
    assert_eq!(fault.error, VmError::FFIUnknown);
}

#[test]
fn bad_opcode_faults() {
    let mut bytes = encode_unsigned(0x0C).to_vec();
    bytes.extend_from_slice(&encode_signed(0));
    bytes.extend_from_slice(&encode_unsigned(0));
    let mut evaluator = Evaluator::new(&bytes);
    let fault = evaluator.evaluate().unwrap_err();
    assert_eq!(fault.error, VmError::BadOpcode);
    assert_eq!(fault.instruction, None);
}

#[test]
fn running_off_the_end_stops_quietly() {
    let bytes = program(&[(OpCode::PUSH, 1, 4)]);
    let mut evaluator = Evaluator::new(&bytes);
    assert_eq!(evaluator.evaluate(), Ok(()));
    assert!(!evaluator.halt);
    assert_eq!(evaluator.memory.stack_pointer, 4);
}

#[test]
fn steps_count_executed_instructions() {
    let bytes = program(&[
        (OpCode::NOP, 0, 4),
        (OpCode::NOP, 0, 4),
        (OpCode::HALT, 0, 4),
    ]);
    let mut evaluator = Evaluator::new(&bytes);
    assert_eq!(evaluator.evaluate(), Ok(()));
    assert_eq!(evaluator.steps, 3);
}

#[test]
fn ffi_catalog_holds_println() {
    let f = FFIFunction::find(&0).unwrap();
    assert_eq!(f.name, "println");
    assert_eq!(f.arguments.len(), 1);
    assert!(matches!(f.arguments[0], FFIType::String));
    assert!(matches!(f.return_type, FFIType::Void));
    assert!(FFIFunction::find(&1).is_none());
    assert_eq!(FFIFunction::get_index("println"), Some(0));
    assert_eq!(FFIFunction::get_index("printf"), None);
}

#[test]
fn ffi_call_rejects_bad_arguments() {
    let f = FFIFunction::println();
    assert!(matches!(f.call(Vec::new()), Err(VmError::FFIArgument)));
    let mut args = Vec::new();
    args.push(FFIValue::I32(3));
    assert!(matches!(f.call(args), Err(VmError::FFIArgument)));
    let g = FFIFunction::new("mystery", Vec::new(), FFIType::Void);
    assert!(matches!(g.call(Vec::new()), Err(VmError::FFIUnknown)));
}

#[test]
fn ffi_println_returns_its_line() {
    let f = FFIFunction::println();
    let mut args = Vec::new();
    args.push(FFIValue::String("hello".to_string()));
    let outcome = f.call(args).unwrap();
    assert!(matches!(outcome.value, FFIValue::Void));
    assert_eq!(outcome.output, Some("hello".to_string()));
}
