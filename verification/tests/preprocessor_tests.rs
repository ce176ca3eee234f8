use proteus_vm::errors::AsmError;
use proteus_vm::evaluator::Evaluator;
use proteus_vm::loading::ByteCodeTranslator;
use proteus_vm::preprocessor::process;
use proteus_vm::preprocessor::split_lines;
use proteus_vm::preprocessor::PreProcessor;
use proteus_vm::utils::decode_signed;

#[test]
fn split_lines_drops_empty_lines() {
    assert_eq!(split_lines("a\nb\n\nc"), vec!["a", "b", "c"]);
    assert_eq!(split_lines("\n\n"), Vec::<String>::new());
    assert_eq!(split_lines("one"), vec!["one"]);
}

#[test]
fn process_maps_mnemonics_to_numbers() {
    let (text, table) = process("start: push 2\npush 3\niadd\nhalt").unwrap();
    assert_eq!(text, "5 2 4\n5 3 4\n16 0 4\n255 0 4\n");
    assert_eq!(table.get_symbol("start"), Some(&0));
}

#[test]
fn process_accepts_any_letter_case() {
    let (text, _) = process("PuSh 1").unwrap();
    assert_eq!(text, "5 1 4\n");
}

#[test]
fn process_defaults_operand_and_offset() {
    let (text, _) = process("push").unwrap();
    assert_eq!(text, "5 0 4\n");
    let (text, _) = process("load 2 8").unwrap();
    assert_eq!(text, "1 2 8\n");
}

#[test]
fn process_passes_numeric_opcodes_through() {
    let (text, _) = process("0x05 2 4").unwrap();
    assert_eq!(text, "5 2 4\n");
}

#[test]
fn process_binds_labels_to_the_next_instruction() {
    let (text, table) = process("top:\nmid: nop\nhalt\nend:").unwrap();
    assert_eq!(text, "0 0 4\n255 0 4\n");
    assert_eq!(table.get_symbol("top"), Some(&0));
    assert_eq!(table.get_symbol("mid"), Some(&0));
    assert_eq!(table.get_symbol("end"), Some(&2));
    assert_eq!(table.get_symbol("gone"), None);
}

#[test]
fn process_errors() {
    assert_eq!(process("frobnicate").unwrap_err(), AsmError::InvalidOpcode);
    assert_eq!(process("push 1 2 3").unwrap_err(), AsmError::ExtraToken);
}

#[test]
fn preprocessor_struct_collects_labels() {
    let mut preprocessor = PreProcessor::new("here: jmp here");
    let text = preprocessor.process().unwrap();
    assert_eq!(text, "7 here 4\n");
    assert_eq!(preprocessor.symbol_table.get_symbol("here"), Some(&0));
}

#[test]
fn assembled_source_runs_end_to_end() {
    let source = "push 0\njz target\npush 1\nhalt\ntarget: push 7\nhalt";
    let (text, table) = process(source).unwrap();
    let translator = ByteCodeTranslator::new(text.as_str(), &table);
    let byte_code = translator.translate().unwrap();
    let mut evaluator = Evaluator::new(&byte_code);
    assert_eq!(evaluator.evaluate(), Ok(()));
    let sp = evaluator.memory.stack_pointer;
    assert_eq!(decode_signed(sp - 4, &evaluator.memory.stack), Ok(7));
}
