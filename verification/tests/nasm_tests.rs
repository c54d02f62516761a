use slasm::basic_block::BasicBlock;
use slasm::error::SlasmError;
use slasm::function::Function;
use slasm::instruction::Instruction;
use slasm::program::Program;
use slasm::visitors::nasm::{emit_program, is_lowerable, FunctionInfo};

const HEADER: &str = "H #ENTRY_FUNC_NAME# T";

fn ret_block() -> BasicBlock {
    let mut block = BasicBlock::new();
    block.append(Instruction::Ret).unwrap();
    block
}

fn function_with_block(name: &str, block: BasicBlock) -> Function {
    let mut f = Function::new(String::from(name), vec![], vec![], vec![]).unwrap();
    f.add_basic_block(String::from("entry"), block).unwrap();
    f.set_entry(String::from("entry")).unwrap();
    f
}

fn demo_program() -> Program {
    let mut program = Program::new(String::from("demo"));
    program.add_global(String::from("g"), vec![1, 2, 255]).unwrap();
    let mut block = BasicBlock::new();
    block.append(Instruction::Noop).unwrap();
    block.append(Instruction::Ret).unwrap();
    program.add_function(function_with_block("Main", block)).unwrap();
    program.set_entry(String::from("Main")).unwrap();
    program
}

#[test]
fn layout_of_procedure_with_params() {
    let callee = Function::new(
        String::from("Callee"),
        vec![(String::from("a"), 8), (String::from("b"), 16)],
        vec![],
        vec![],
    )
    .unwrap();
    let info = FunctionInfo::new(&callee);
    assert_eq!(info.param_buffer_size, 24);
    assert_eq!(info.return_buffer_size, 0);
    assert_eq!(info.return_buffer_padding, 0);
    assert_eq!(info.padded_return_buffer_size, 0);
    assert_eq!(info.pre_call_padding, 0);
    assert_eq!(info.pre_call_allocated_space, 24);
    assert_eq!(info.post_call_pop_amt, 24);
}

#[test]
fn layout_with_return_padding() {
    let f = Function::new(
        String::from("F"),
        vec![(String::from("a"), 8)],
        vec![],
        vec![2, 7],
    )
    .unwrap();
    let info = FunctionInfo::new(&f);
    assert_eq!(info.param_buffer_size, 8);
    assert_eq!(info.return_buffer_size, 9);
    assert_eq!(info.return_buffer_padding, 7);
    assert_eq!(info.padded_return_buffer_size, 16);
    assert_eq!(info.pre_call_padding, 8);
    assert_eq!(info.pre_call_allocated_space, 16);
    assert_eq!(info.post_call_pop_amt, 7);
}

#[test]
fn layout_of_single_byte_return() {
    let f = Function::new(String::from("F"), vec![], vec![], vec![1]).unwrap();
    let info = FunctionInfo::new(&f);
    assert_eq!(info.return_buffer_padding, 7);
    assert_eq!(info.padded_return_buffer_size, 8);
    assert_eq!(info.pre_call_padding, 8);
    assert_eq!(info.pre_call_allocated_space, 8);
    assert_eq!(info.post_call_pop_amt, 7);
}

#[test]
fn whole_document() {
    let text = emit_program(&demo_program(), String::from(HEADER)).unwrap();
    let expected = "H Main T\n; ==================== END OF HEADER ====================\n\n; GENERATED FROM SLASM VERSION 1.0.0\n\n    section .data\ng: db 1, 2, 255\n\n    section .text\nMain:\n    .entry:\n        ; noop\n        nop\n        ; ret\n        mov rsp, rbp\n        pop rbp\n        ret\n\n";
    assert_eq!(text, expected);
}

#[test]
fn call_of_procedure_pops_parameters() {
    let mut program = Program::new(String::from("demo"));
    let callee = Function::new(
        String::from("Callee"),
        vec![(String::from("a"), 8), (String::from("b"), 16)],
        vec![],
        vec![],
    )
    .unwrap();
    let mut callee = callee;
    callee.add_basic_block(String::from("entry"), ret_block()).unwrap();
    callee.set_entry(String::from("entry")).unwrap();
    program.add_function(callee).unwrap();

    let mut block = BasicBlock::new();
    block.append(Instruction::Call { target: String::from("Callee") }).unwrap();
    block.append(Instruction::Ret).unwrap();
    program.add_function(function_with_block("Main", block)).unwrap();
    program.set_entry(String::from("Main")).unwrap();

    let text = emit_program(&program, String::from(HEADER)).unwrap();
    assert!(text.contains(
        "; call Callee\n        call Callee\n        add rsp, 24 ; leave only the return buffer on the stack\n"
    ));
    assert!(!text.contains("sub rsp, 0"));
}

#[test]
fn call_with_padding_adjusts_both_sides() {
    let mut program = Program::new(String::from("demo"));
    let mut callee = Function::new(
        String::from("F"),
        vec![(String::from("a"), 8)],
        vec![],
        vec![2, 7],
    )
    .unwrap();
    callee.add_basic_block(String::from("entry"), ret_block()).unwrap();
    callee.set_entry(String::from("entry")).unwrap();
    program.add_function(callee).unwrap();

    let mut block = BasicBlock::new();
    block.append(Instruction::Call { target: String::from("F") }).unwrap();
    block.append(Instruction::Ret).unwrap();
    program.add_function(function_with_block("Main", block)).unwrap();
    program.set_entry(String::from("Main")).unwrap();

    let text = emit_program(&program, String::from(HEADER)).unwrap();
    assert!(text.contains(
        "sub rsp, 8 ; pad stack for the return buffer\n        call F\n        add rsp, 7 ; leave only the return buffer on the stack\n"
    ));
}

#[test]
fn push_of_fourteen_bytes_makes_two_chunks() {
    let mut block = BasicBlock::new();
    block
        .append(Instruction::Push { data: vec![15, 14, 13, 12, 11, 10, 9, 8, 7, 6, 5, 4, 3, 2] })
        .unwrap();
    block.append(Instruction::Ret).unwrap();
    let mut program = Program::new(String::from("demo"));
    program.add_function(function_with_block("Main", block)).unwrap();
    program.set_entry(String::from("Main")).unwrap();

    let text = emit_program(&program, String::from(HEADER)).unwrap();
    assert!(text.contains("; push 0F:0E:0D:0C:0B:0A:09:08:07:06:05:04:03:02"));
    assert!(text.contains("mov rax, 0x0F0E0D0C0B0A0908\n        push rax\n"));
    assert!(text.contains("mov rax, 0x0706050403020000\n        push rax\n        add rsp, 2\n"));
}

#[test]
fn return_with_padding_copies_words_back() {
    let mut program = Program::new(String::from("demo"));
    let mut f = Function::new(
        String::from("Main"),
        vec![(String::from("a"), 8)],
        vec![],
        vec![2, 7],
    )
    .unwrap();
    f.add_basic_block(String::from("entry"), ret_block()).unwrap();
    f.set_entry(String::from("entry")).unwrap();
    program.add_function(f).unwrap();
    program.set_entry(String::from("Main")).unwrap();

    let text = emit_program(&program, String::from(HEADER)).unwrap();
    // R = 9, padded = 16, pre-call allocated = 16: two copied words,
    // seven bytes of stack padding, buffer start at rbp + 0.
    assert!(text.contains("; ret\n        sub rsp, 7\n        mov rax, rbp\n        add rax, 0\n"));
    assert_eq!(text.matches("pop r10\n        sub rax, 8\n        mov [rax], r10\n").count(), 2);
}

#[test]
fn jump_lowerings_use_local_labels() {
    let mut block = BasicBlock::new();
    block.append(Instruction::Noop).unwrap();
    block
        .append(Instruction::CondJump {
            true_target: String::from("yes"),
            false_target: String::from("no"),
        })
        .unwrap();
    let mut yes = BasicBlock::new();
    yes.append(Instruction::Jump { target: String::from("no") }).unwrap();
    let mut no = BasicBlock::new();
    no.append(Instruction::Ret).unwrap();

    let mut f = Function::new(String::from("Main"), vec![], vec![], vec![]).unwrap();
    f.add_basic_block(String::from("entry"), block).unwrap();
    f.add_basic_block(String::from("yes"), yes).unwrap();
    f.add_basic_block(String::from("no"), no).unwrap();
    f.set_entry(String::from("entry")).unwrap();
    let mut program = Program::new(String::from("demo"));
    program.add_function(f).unwrap();
    program.set_entry(String::from("Main")).unwrap();

    let text = emit_program(&program, String::from(HEADER)).unwrap();
    assert!(text.contains("pop rax\n        cmp rax, 0\n        jne .yes\n        jmp .no\n"));
    assert!(text.contains("; jump no\n        jmp .no\n"));
    assert!(text.contains("    .yes:\n"));
    assert!(text.contains("    .no:\n"));
}

#[test]
fn indirect_call_uses_literal_sizes() {
    let mut block = BasicBlock::new();
    block
        .append(Instruction::IndirectCall { param_buffer_size: 8, ret_buffer_size: 9 })
        .unwrap();
    block.append(Instruction::Ret).unwrap();
    let mut program = Program::new(String::from("demo"));
    program.add_function(function_with_block("Main", block)).unwrap();
    program.set_entry(String::from("Main")).unwrap();

    let text = emit_program(&program, String::from(HEADER)).unwrap();
    assert!(text.contains(
        "; indirect_call 8 9\n        pop r11\n        sub rsp, 8 ; pad stack for the return buffer\n        call r11\n        add rsp, 7 ; leave only the return buffer on the stack\n"
    ));
}

#[test]
fn pop_and_allocate_lowerings() {
    let mut block = BasicBlock::new();
    block.append(Instruction::Allocate { amt: 32 }).unwrap();
    block.append(Instruction::Pop { amt: 8 }).unwrap();
    block.append(Instruction::Ret).unwrap();
    let mut program = Program::new(String::from("demo"));
    program.add_function(function_with_block("Main", block)).unwrap();
    program.set_entry(String::from("Main")).unwrap();

    let text = emit_program(&program, String::from(HEADER)).unwrap();
    assert!(text.contains(
        "; allocate 32\n        mov rax, rsp\n        sub rsp, 32\n        push rax\n"
    ));
    assert!(text.contains("; pop 8\n        add rsp, 8\n"));
}

#[test]
fn template_placeholder_is_replaced_everywhere() {
    let header = String::from("X#ENTRY_FUNC_NAME#Y#ENTRY_FUNC_NAME#Z");
    let text = emit_program(&demo_program(), header).unwrap();
    assert!(text.starts_with("XMainYMainZ\n"));
    assert!(!text.contains("#ENTRY_FUNC_NAME#"));
}

#[test]
fn template_without_placeholder_is_rejected() {
    let r = emit_program(&demo_program(), String::from("; plain header"));
    assert_eq!(r, Err(SlasmError::MalformedTemplate));
}

#[test]
fn missing_entry_is_rejected() {
    let mut program = Program::new(String::from("demo"));
    program.add_function(function_with_block("Main", ret_block())).unwrap();
    let r = emit_program(&program, String::from(HEADER));
    assert_eq!(r, Err(SlasmError::MissingEntry));
}

#[test]
fn nonterminated_block_is_rejected() {
    let mut block = BasicBlock::new();
    block.append(Instruction::Noop).unwrap();
    let mut program = Program::new(String::from("demo"));
    program.add_function(function_with_block("Main", block)).unwrap();
    program.set_entry(String::from("Main")).unwrap();
    let r = emit_program(&program, String::from(HEADER));
    assert_eq!(r, Err(SlasmError::NonTerminatedBlock));
}

#[test]
fn unknown_call_target_is_rejected() {
    let mut block = BasicBlock::new();
    block.append(Instruction::Call { target: String::from("Missing") }).unwrap();
    block.append(Instruction::Ret).unwrap();
    let mut program = Program::new(String::from("demo"));
    program.add_function(function_with_block("Main", block)).unwrap();
    program.set_entry(String::from("Main")).unwrap();
    let r = emit_program(&program, String::from(HEADER));
    assert_eq!(r, Err(SlasmError::UnknownFunction));
}

#[test]
fn lowerable_recognizes_supported_programs() {
    assert!(is_lowerable(&demo_program()));
}

#[test]
fn unsupported_opcode_is_not_lowerable() {
    let mut block = BasicBlock::new();
    block
        .append(Instruction::Add { data_type: slasm::word::DataType::I64 })
        .unwrap();
    block.append(Instruction::Ret).unwrap();
    let mut program = Program::new(String::from("demo"));
    program.add_function(function_with_block("Main", block)).unwrap();
    program.set_entry(String::from("Main")).unwrap();
    assert!(!is_lowerable(&program));
}

#[test]
fn oversized_indirect_return_is_not_lowerable() {
    let mut block = BasicBlock::new();
    block
        .append(Instruction::IndirectCall {
            param_buffer_size: 0,
            ret_buffer_size: u64::MAX,
        })
        .unwrap();
    block.append(Instruction::Ret).unwrap();
    let mut program = Program::new(String::from("demo"));
    program.add_function(function_with_block("Main", block)).unwrap();
    program.set_entry(String::from("Main")).unwrap();
    assert!(!is_lowerable(&program));
}

#[test]
fn overflowing_parameter_sizes_are_not_lowerable() {
    let mut program = Program::new(String::from("demo"));
    let f = Function::new(
        String::from("Main"),
        vec![(String::from("a"), u64::MAX), (String::from("b"), 1)],
        vec![],
        vec![],
    )
    .unwrap();
    program.add_function(f).unwrap();
    assert!(!is_lowerable(&program));
}

#[test]
fn empty_global_data_gets_a_bare_line() {
    let mut program = demo_program();
    program.add_global(String::from("empty"), vec![]).unwrap();
    let text = emit_program(&program, String::from(HEADER)).unwrap();
    assert!(text.contains("g: db 1, 2, 255\nempty: db \n"));
}

#[test]
fn nasm_emission_is_deterministic() {
    let program = demo_program();
    let first = emit_program(&program, String::from(HEADER)).unwrap();
    let second = emit_program(&program, String::from(HEADER)).unwrap();
    assert_eq!(first, second);
}
