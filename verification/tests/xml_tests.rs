use slasm::basic_block::BasicBlock;
use slasm::error::SlasmError;
use slasm::function::Function;
use slasm::instruction::Instruction;
use slasm::program::Program;
use slasm::visitors::xml::{emit_function, emit_instruction, emit_program};
use slasm::word::DataType;

fn demo_program() -> Program {
    let mut program = Program::new(String::from("test"));
    program
        .add_global(String::from("my_string"), b"Hello, World!\0".to_vec())
        .unwrap();
    let mut function = Function::new(String::from("Main"), vec![], vec![], vec![]).unwrap();
    let mut block = BasicBlock::new();
    block.append(Instruction::Noop).unwrap();
    block.append(Instruction::Ret).unwrap();
    function.add_basic_block(String::from("entry"), block).unwrap();
    function.set_entry(String::from("entry")).unwrap();
    program.add_function(function).unwrap();
    program.set_entry(String::from("Main")).unwrap();
    program
}

#[test]
fn whole_program_serialization() {
    let xml = emit_program(&demo_program()).unwrap();
    let expected = "<program slasm_version=\"1.0.0\" entry=\"Main\"><global name=\"my_string\" data=\"48:65:6C:6C:6F:2C:20:57:6F:72:6C:64:21:00\" /><function name=\"Main\" entry=\"entry\"><basic_block label=\"entry\"><noop /><ret /></basic_block></function></program>";
    assert_eq!(xml, expected);
}

#[test]
fn program_without_entry_is_rejected() {
    let mut program = Program::new(String::from("test"));
    assert_eq!(emit_program(&program), Err(SlasmError::MissingEntry));
    program
        .add_function(Function::new(String::from("Main"), vec![], vec![], vec![]).unwrap())
        .unwrap();
    program.set_entry(String::from("Main")).unwrap();
    // The function's own entry is still unset.
    assert_eq!(emit_program(&program), Err(SlasmError::MissingEntry));
}

#[test]
fn function_without_entry_is_rejected() {
    let f = Function::new(String::from("f"), vec![], vec![], vec![]).unwrap();
    assert_eq!(emit_function(&f), Err(SlasmError::MissingEntry));
}

#[test]
fn function_children_order() {
    let mut f = Function::new(
        String::from("f"),
        vec![(String::from("a"), 8)],
        vec![(String::from("x"), 2)],
        vec![4, 8],
    )
    .unwrap();
    let mut block = BasicBlock::new();
    block.append(Instruction::Ret).unwrap();
    f.add_basic_block(String::from("entry"), block).unwrap();
    f.set_entry(String::from("entry")).unwrap();
    let expected = "<function name=\"f\" entry=\"entry\"><param name=\"a\" size=\"8\" /><local name=\"x\" size=\"2\" /><return size=\"4\" /><return size=\"8\" /><basic_block label=\"entry\"><ret /></basic_block></function>";
    assert_eq!(emit_function(&f).unwrap(), expected);
}

#[test]
fn attribute_values_are_escaped() {
    let instr = Instruction::Jump { target: String::from("a<b>&\"c'") };
    assert_eq!(
        emit_instruction(&instr),
        "<jump target=\"a&lt;b&gt;&amp;&quot;c&apos;\" />"
    );
}

#[test]
fn instruction_elements() {
    assert_eq!(emit_instruction(&Instruction::Noop), "<noop />");
    assert_eq!(emit_instruction(&Instruction::Ret), "<ret />");
    assert_eq!(emit_instruction(&Instruction::Or), "<or />");
    assert_eq!(
        emit_instruction(&Instruction::Pop { amt: 24 }),
        "<pop amt=\"24\" />"
    );
    assert_eq!(
        emit_instruction(&Instruction::Allocate { amt: 0 }),
        "<allocate amt=\"0\" />"
    );
    assert_eq!(
        emit_instruction(&Instruction::Push { data: vec![0x0F, 0xA0, 0x00] }),
        "<push data=\"0F:A0:00\" />"
    );
    assert_eq!(
        emit_instruction(&Instruction::LoadMem { offset: -16 }),
        "<load_mem offset=\"-16\" />"
    );
    assert_eq!(
        emit_instruction(&Instruction::StoreMem { offset: i64::MIN }),
        "<store_mem offset=\"-9223372036854775808\" />"
    );
    assert_eq!(
        emit_instruction(&Instruction::LoadLocal { name: String::from("x") }),
        "<load_local name=\"x\" />"
    );
    assert_eq!(
        emit_instruction(&Instruction::Add { data_type: DataType::UI32 }),
        "<add data_type=\"UI32\" />"
    );
    assert_eq!(
        emit_instruction(&Instruction::Convert { from: DataType::I8, to: DataType::F64 }),
        "<convert from=\"I8\" to=\"F64\" />"
    );
    assert_eq!(
        emit_instruction(&Instruction::CondJump {
            true_target: String::from("yes"),
            false_target: String::from("no"),
        }),
        "<cond_jump true_target=\"yes\" false_target=\"no\" />"
    );
    assert_eq!(
        emit_instruction(&Instruction::Call { target: String::from("F") }),
        "<call target=\"F\" />"
    );
    assert_eq!(
        emit_instruction(&Instruction::IndirectCall {
            param_buffer_size: 24,
            ret_buffer_size: 9,
        }),
        "<indirect_call param_buffer_size=\"24\" ret_buffer_size=\"9\" />"
    );
}

#[test]
fn largest_amount_renders_in_full() {
    assert_eq!(
        emit_instruction(&Instruction::Pop { amt: u64::MAX }),
        "<pop amt=\"18446744073709551615\" />"
    );
    assert_eq!(
        emit_instruction(&Instruction::Pop { amt: 0 }),
        "<pop amt=\"0\" />"
    );
}

#[test]
fn empty_global_data_serializes_to_empty_attribute() {
    let mut program = demo_program();
    program.add_global(String::from("empty"), vec![]).unwrap();
    let xml = emit_program(&program).unwrap();
    assert!(xml.contains("<global name=\"empty\" data=\"\" />"));
}

#[test]
fn xml_emission_is_deterministic() {
    let program = demo_program();
    let first = emit_program(&program).unwrap();
    let second = emit_program(&program).unwrap();
    assert_eq!(first, second);
}
