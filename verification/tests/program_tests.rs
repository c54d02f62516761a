use slasm::error::SlasmError;
use slasm::function::Function;
use slasm::program::Program;

fn named_function(name: &str) -> Function {
    Function::new(String::from(name), vec![], vec![], vec![]).unwrap()
}

#[test]
fn add_function_rejects_duplicates() {
    let mut p = Program::new(String::from("test"));
    p.add_function(named_function("Main")).unwrap();
    let r = p.add_function(named_function("Main"));
    assert_eq!(r, Err(SlasmError::DuplicateName));
    assert_eq!(p.functions().len(), 1);
}

#[test]
fn add_global_rejects_duplicates() {
    let mut p = Program::new(String::from("test"));
    p.add_global(String::from("g"), vec![1, 2]).unwrap();
    let r = p.add_global(String::from("g"), vec![3]);
    assert_eq!(r, Err(SlasmError::DuplicateName));
    assert_eq!(p.globals(), &vec![(String::from("g"), vec![1, 2])]);
}

#[test]
fn set_entry_rejects_unknown_functions() {
    let mut p = Program::new(String::from("test"));
    p.add_function(named_function("Main")).unwrap();
    assert_eq!(p.set_entry(String::from("Start")), Err(SlasmError::UnknownFunction));
    assert!(!p.has_entry());
    p.set_entry(String::from("Main")).unwrap();
    assert!(p.has_entry());
    assert_eq!(p.entry().as_str(), "Main");
}

#[test]
fn nonterminated_blocks_are_found_across_functions() {
    let mut p = Program::new(String::from("test"));
    let mut f = named_function("Main");
    f.add_basic_block(String::from("entry"), slasm::basic_block::BasicBlock::new()).unwrap();
    p.add_function(f).unwrap();
    assert!(p.contains_nonterminated_basic_block());
}

#[test]
fn name_is_kept() {
    let p = Program::new(String::from("artifact"));
    assert_eq!(p.name().as_str(), "artifact");
    assert_eq!(p.functions().len(), 0);
    assert_eq!(p.globals().len(), 0);
}
