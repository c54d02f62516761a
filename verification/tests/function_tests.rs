use slasm::basic_block::BasicBlock;
use slasm::error::SlasmError;
use slasm::function::Function;
use slasm::instruction::Instruction;

fn terminated_block() -> BasicBlock {
    let mut block = BasicBlock::new();
    block.append(Instruction::Ret).unwrap();
    block
}

#[test]
fn zero_sized_param_is_invalid_layout() {
    let r = Function::new(
        String::from("f"),
        vec![(String::from("a"), 0)],
        vec![],
        vec![],
    );
    assert_eq!(r.err(), Some(SlasmError::InvalidLayout));
}

#[test]
fn zero_sized_local_is_invalid_layout() {
    let r = Function::new(
        String::from("f"),
        vec![],
        vec![(String::from("x"), 0)],
        vec![],
    );
    assert_eq!(r.err(), Some(SlasmError::InvalidLayout));
}

#[test]
fn zero_sized_return_is_invalid_layout() {
    let r = Function::new(String::from("f"), vec![], vec![], vec![8, 0]);
    assert_eq!(r.err(), Some(SlasmError::InvalidLayout));
}

#[test]
fn duplicate_param_names_are_rejected() {
    let r = Function::new(
        String::from("f"),
        vec![(String::from("a"), 8), (String::from("a"), 16)],
        vec![],
        vec![],
    );
    assert_eq!(r.err(), Some(SlasmError::DuplicateName));
}

#[test]
fn add_basic_block_rejects_duplicates() {
    let mut f = Function::new(String::from("f"), vec![], vec![], vec![]).unwrap();
    f.add_basic_block(String::from("entry"), BasicBlock::new()).unwrap();
    let r = f.add_basic_block(String::from("entry"), BasicBlock::new());
    assert_eq!(r, Err(SlasmError::DuplicateName));
}

#[test]
fn set_entry_rejects_unknown_blocks() {
    let mut f = Function::new(String::from("f"), vec![], vec![], vec![]).unwrap();
    f.add_basic_block(String::from("entry"), BasicBlock::new()).unwrap();
    assert_eq!(f.set_entry(String::from("missing")), Err(SlasmError::UnknownBlock));
    assert!(!f.has_entry());
    f.set_entry(String::from("entry")).unwrap();
    assert!(f.has_entry());
    assert_eq!(f.entry().as_str(), "entry");
}

#[test]
fn nonterminated_blocks_are_found() {
    let mut f = Function::new(String::from("f"), vec![], vec![], vec![]).unwrap();
    assert!(!f.contains_nonterminated_basic_block());
    f.add_basic_block(String::from("done"), terminated_block()).unwrap();
    assert!(!f.contains_nonterminated_basic_block());
    f.add_basic_block(String::from("open"), BasicBlock::new()).unwrap();
    assert!(f.contains_nonterminated_basic_block());
}

#[test]
fn totals_and_procedures() {
    let f = Function::new(String::from("f"), vec![], vec![], vec![2, 7]).unwrap();
    assert_eq!(f.total_returns_size(), 9);
    assert!(!f.is_procedure());
    assert_eq!(f.return_sizes(), &vec![2, 7]);

    let p = Function::new(
        String::from("p"),
        vec![(String::from("a"), 8)],
        vec![],
        vec![],
    )
    .unwrap();
    assert_eq!(p.total_returns_size(), 0);
    assert!(p.is_procedure());
}

#[test]
fn accessors_reflect_construction() {
    let f = Function::new(
        String::from("f"),
        vec![(String::from("a"), 8), (String::from("b"), 16)],
        vec![(String::from("c"), 2)],
        vec![4],
    )
    .unwrap();
    assert_eq!(f.name().as_str(), "f");
    assert_eq!(f.params().len(), 2);
    assert_eq!(f.params()[0], (String::from("a"), 8));
    assert_eq!(f.params()[1], (String::from("b"), 16));
    assert_eq!(f.locals(), &vec![(String::from("c"), 2)]);
    assert_eq!(f.basic_blocks().len(), 0);
}
