use slasm::basic_block::BasicBlock;
use slasm::error::SlasmError;
use slasm::instruction::Instruction;

#[test]
fn append_after_ret_is_rejected() {
    let mut block = BasicBlock::new();
    block.append(Instruction::Ret).unwrap();
    assert_eq!(block.append(Instruction::Noop), Err(SlasmError::Terminated));
}

#[test]
fn every_terminator_terminates() {
    let terminators = [
        Instruction::Jump { target: String::from("next") },
        Instruction::CondJump {
            true_target: String::from("yes"),
            false_target: String::from("no"),
        },
        Instruction::Ret,
    ];
    for term in terminators {
        let mut block = BasicBlock::new();
        block.append(Instruction::Noop).unwrap();
        block.append(term).unwrap();
        assert!(block.is_terminated());
        assert_eq!(block.append(Instruction::Noop), Err(SlasmError::Terminated));
        assert_eq!(block.append(Instruction::Ret), Err(SlasmError::Terminated));
    }
}

#[test]
fn empty_block_is_not_terminated() {
    let block = BasicBlock::new();
    assert!(!block.is_terminated());
    assert_eq!(block.size(), 0);
}

#[test]
fn non_terminator_does_not_terminate() {
    let mut block = BasicBlock::new();
    block.append(Instruction::Noop).unwrap();
    block.append(Instruction::Pop { amt: 8 }).unwrap();
    assert!(!block.is_terminated());
    assert_eq!(block.size(), 2);
}

#[test]
fn index_reads_in_order() {
    let mut block = BasicBlock::new();
    block.append(Instruction::Noop).unwrap();
    block.append(Instruction::Ret).unwrap();
    assert!(matches!(block.index(0), Ok(Instruction::Noop)));
    assert!(matches!(block.index(1), Ok(Instruction::Ret)));
    assert_eq!(block.index(2).err(), Some(SlasmError::OutOfRange));
}

#[test]
fn iter_walks_all_instructions() {
    let mut block = BasicBlock::new();
    block.append(Instruction::Allocate { amt: 16 }).unwrap();
    block.append(Instruction::Ret).unwrap();
    let instrs = block.iter();
    assert_eq!(instrs.len(), 2);
    assert!(matches!(instrs[0], Instruction::Allocate { amt: 16 }));
    assert!(matches!(instrs[1], Instruction::Ret));
}
