use proteus_vm::errors::AsmError;
use proteus_vm::evaluator::Evaluator;
use proteus_vm::utils::decode_signed;
use proteus_vm::instructions::Instruction;
use proteus_vm::instructions::OpCode;
use proteus_vm::loading::ByteCodeParser;
use proteus_vm::loading::ByteCodeTranslator;
use proteus_vm::loading::split_tokens;
use proteus_vm::symbol_table::SymbolTable;

#[test]
fn split_tokens_on_whitespace() {
    assert_eq!(split_tokens("5 2 4"), vec!["5", "2", "4"]);
    assert_eq!(split_tokens("  5\t2\n4  "), vec!["5", "2", "4"]);
    assert_eq!(split_tokens(""), Vec::<String>::new());
    assert_eq!(split_tokens("   \n\t "), Vec::<String>::new());
}

#[test]
fn translate_packs_twelve_byte_records() {
    let table = SymbolTable::new();
    // PUSH 2; PUSH 3; IADD; HALT, numerically
    let translator = ByteCodeTranslator::new("5 2 4\n5 3 4\n16 0 4\n255 0 4", &table);
    let byte_code = translator.translate().unwrap();
    assert_eq!(byte_code.len(), 48);
    let mut parser = ByteCodeParser::new(&byte_code);
    assert_eq!(
        parser.parse_instruction(),
        Ok(Instruction { opcode: OpCode::PUSH, operand: 2, offset: 4 })
    );
    assert_eq!(
        parser.parse_instruction(),
        Ok(Instruction { opcode: OpCode::PUSH, operand: 3, offset: 4 })
    );
    assert_eq!(
        parser.parse_instruction(),
        Ok(Instruction { opcode: OpCode::IADD, operand: 0, offset: 4 })
    );
    assert_eq!(
        parser.parse_instruction(),
        Ok(Instruction { opcode: OpCode::HALT, operand: 0, offset: 4 })
    );
}

#[test]
fn translate_reads_hex_and_binary() {
    let table = SymbolTable::new();
    let translator = ByteCodeTranslator::new("0x05 0b101 0x10", &table);
    let byte_code = translator.translate().unwrap();
    let mut parser = ByteCodeParser::new(&byte_code);
    assert_eq!(
        parser.parse_instruction(),
        Ok(Instruction { opcode: OpCode::PUSH, operand: 5, offset: 16 })
    );
}

#[test]
fn translate_reads_negative_operands() {
    let table = SymbolTable::new();
    let translator = ByteCodeTranslator::new("5 -7 4", &table);
    let byte_code = translator.translate().unwrap();
    let mut parser = ByteCodeParser::new(&byte_code);
    assert_eq!(
        parser.parse_instruction(),
        Ok(Instruction { opcode: OpCode::PUSH, operand: -7, offset: 4 })
    );
}

#[test]
fn translate_resolves_labels() {
    let mut table = SymbolTable::new();
    table.add_symbol("start".to_string(), 3);
    // JMP start
    let translator = ByteCodeTranslator::new("7 start 4", &table);
    let byte_code = translator.translate().unwrap();
    let mut parser = ByteCodeParser::new(&byte_code);
    assert_eq!(
        parser.parse_instruction(),
        Ok(Instruction { opcode: OpCode::JMP, operand: 3, offset: 4 })
    );
}

#[test]
fn translate_resolves_ffi_names() {
    let table = SymbolTable::new();
    // FFCALL println
    let translator = ByteCodeTranslator::new("144 println 4", &table);
    let byte_code = translator.translate().unwrap();
    let mut parser = ByteCodeParser::new(&byte_code);
    assert_eq!(
        parser.parse_instruction(),
        Ok(Instruction { opcode: OpCode::FFCALL, operand: 0, offset: 4 })
    );
}

#[test]
fn translate_errors() {
    let table = SymbolTable::new();
    assert_eq!(
        ByteCodeTranslator::new("5 2", &table).translate(),
        Err(AsmError::MissingToken)
    );
    assert_eq!(
        ByteCodeTranslator::new("nop 0 4", &table).translate(),
        Err(AsmError::InvalidOpcode)
    );
    assert_eq!(
        ByteCodeTranslator::new("7 nowhere 4", &table).translate(),
        Err(AsmError::UnknownSymbol)
    );
    assert_eq!(
        ByteCodeTranslator::new("5 2 up", &table).translate(),
        Err(AsmError::InvalidOffset)
    );
}

#[test]
fn parse_number_bounds() {
    let table = SymbolTable::new();
    let translator = ByteCodeTranslator::new("", &table);
    assert_eq!(translator.parse_number("2147483647"), Some(i32::MAX));
    assert_eq!(translator.parse_number("-2147483648"), Some(i32::MIN));
    assert_eq!(translator.parse_number("2147483648"), None);
    assert_eq!(translator.parse_number("0xff"), Some(255));
    assert_eq!(translator.parse_number("0b110"), Some(6));
    assert_eq!(translator.parse_number(""), None);
    assert_eq!(translator.parse_number("-"), None);
    assert_eq!(translator.parse_number("12a"), None);
    assert_eq!(translator.parse_number("+9"), Some(9));
}

#[test]
fn assembled_programs_run() {
    let table = SymbolTable::new();
    // PUSH 2; PUSH 3; IADD; HALT
    let translator = ByteCodeTranslator::new("5 2 4\n5 3 4\n0x10 0 4\n0xFF 0 4\n", &table);
    let byte_code = translator.translate().unwrap();
    let mut evaluator = Evaluator::new(&byte_code);
    assert_eq!(evaluator.evaluate(), Ok(()));
    assert!(evaluator.halt);
    assert_eq!(evaluator.memory.stack_pointer, 4);
    assert_eq!(decode_signed(0, &evaluator.memory.stack), Ok(5));
}

#[test]
fn symbol_table_binds_and_replaces() {
    let mut table = SymbolTable::new();
    assert!(table.get_symbol("loop_top").is_none());
    table.add_symbol("loop_top".to_string(), 2);
    table.add_symbol("end".to_string(), 9);
    assert_eq!(table.get_symbol("loop_top"), Some(&2));
    assert_eq!(table.get_symbol("end"), Some(&9));
    table.add_symbol("loop_top".to_string(), 5);
    assert_eq!(table.get_symbol("loop_top"), Some(&5));
    assert_eq!(table.get_symbol("end"), Some(&9));
}
