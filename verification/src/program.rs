//! Programs: named collections of global data blobs and functions, plus
//! a designated entry function.

use vstd::prelude::*;
use crate::error::SlasmError;
use crate::function::{Function, FunctionView};
use crate::names::{distinct_keys, entry_views, has_key, lemma_lookup_views, lookup_index, string_eq};

verus! {

/// The mathematical view of a program.
#[verifier::ext_equal]
pub struct ProgramView {
    pub name: Seq<char>,
    pub globals: Seq<(Seq<char>, Seq<u8>)>,
    pub functions: Seq<FunctionView>,
    pub entry: Option<Seq<char>>,
}

/// Whether some function of the sequence carries the name.
pub open spec fn has_function(fs: Seq<FunctionView>, name: Seq<char>) -> bool {
    exists|i: int| 0 <= i < fs.len() && fs[i].name == name
}

/// Whether no two functions of the sequence share a name.
pub open spec fn distinct_function_names(fs: Seq<FunctionView>) -> bool {
    forall|i: int, j: int| 0 <= i < j < fs.len() ==> fs[i].name != fs[j].name
}

impl ProgramView {
    /// The structural invariants of a program: unique global and function
    /// names, well-formed functions, and an entry that refers to an
    /// existing function once set.
    pub open spec fn wf(self) -> bool {
        &&& distinct_keys(self.globals)
        &&& distinct_function_names(self.functions)
        &&& forall|i: int| 0 <= i < self.functions.len() ==> (#[trigger] self.functions[i]).wf()
        &&& match self.entry {
            Some(e) => has_function(self.functions, e),
            None => true,
        }
    }

    /// Whether some block of some function lacks a terminator.
    pub open spec fn has_nonterminated_block(self) -> bool {
        exists|i: int|
            0 <= i < self.functions.len() && (#[trigger] self.functions[i]).has_nonterminated_block()
    }
}

/// A complete SLASM compilation unit: globals, functions, and an entry
/// function, all keyed by unique names in insertion order.
pub struct Program {
    name: String,
    globals: Vec<(String, Vec<u8>)>,
    functions: Vec<Function>,
    entry: Option<String>,
}

impl View for Program {
    type V = ProgramView;

    closed spec fn view(&self) -> ProgramView {
        ProgramView {
            name: self.name@,
            globals: entry_views(self.globals@),
            functions: self.functions@.map_values(|f: Function| f@),
            entry: match self.entry {
                Some(ref e) => Some(e@),
                None => None,
            },
        }
    }
}

impl Program {
    /// An empty program with the given artifact name.
    pub fn new(name: String) -> (r: Program)
        ensures
            r@ == (ProgramView {
                name: name@,
                globals: Seq::empty(),
                functions: Seq::empty(),
                entry: None,
            }),
            r@.wf(),
    {
        let p = Program { name, globals: Vec::new(), functions: Vec::new(), entry: None };
        proof {
            assert(p@ =~= (ProgramView {
                name: p.name@,
                globals: Seq::empty(),
                functions: Seq::empty(),
                entry: None,
            }));
        }
        p
    }

    /// Registers a function under its own name; duplicates are rejected.
    pub fn add_function(&mut self, function: Function) -> (r: Result<(), SlasmError>)
        ensures
            has_function(old(self)@.functions, function@.name) ==> r == Result::<
                (),
                SlasmError,
            >::Err(SlasmError::DuplicateName) && final(self)@ == old(self)@,
            !has_function(old(self)@.functions, function@.name) ==> r == Result::<
                (),
                SlasmError,
            >::Ok(()) && final(self)@ == (ProgramView {
                functions: old(self)@.functions.push(function@),
                ..old(self)@
            }),
            old(self)@.wf() && function@.wf() ==> final(self)@.wf(),
    {
        if self.function_index(function.name()).is_some() {
            return Err(SlasmError::DuplicateName);
        }
        let ghost prev = self@;
        self.functions.push(function);
        proof {
            assert(final(self)@ =~= (ProgramView {
                functions: prev.functions.push(self.functions@.last()@),
                ..prev
            }));
            if prev.wf() {
                let nf = final(self)@.functions;
                assert forall|p: int, q: int| 0 <= p < q < nf.len() implies nf[p].name
                    != nf[q].name by {
                    if q == nf.len() - 1 {
                        assert(nf[p] == prev.functions[p]);
                    }
                }
                match prev.entry {
                    Some(e) => {
                        let k = choose|k: int|
                            0 <= k < prev.functions.len() && prev.functions[k].name == e;
                        assert(nf[k] == prev.functions[k]);
                    },
                    None => {},
                }
            }
        }
        Ok(())
    }

    /// Stores a global data blob verbatim under a label; duplicates are
    /// rejected.
    pub fn add_global(&mut self, label: String, data: Vec<u8>) -> (r: Result<(), SlasmError>)
        ensures
            has_key(old(self)@.globals, label@) ==> r == Result::<(), SlasmError>::Err(
                SlasmError::DuplicateName,
            ) && final(self)@ == old(self)@,
            !has_key(old(self)@.globals, label@) ==> r == Result::<(), SlasmError>::Ok(())
                && final(self)@ == (ProgramView {
                globals: old(self)@.globals.push((label@, data@)),
                ..old(self)@
            }),
            old(self)@.wf() ==> final(self)@.wf(),
    {
        let found = lookup_index(&self.globals, &label);
        proof {
            lemma_lookup_views(self.globals@, label@, found);
        }
        if found.is_some() {
            return Err(SlasmError::DuplicateName);
        }
        let ghost prev = self@;
        self.globals.push((label, data));
        proof {
            assert(final(self)@ =~= (ProgramView {
                globals: prev.globals.push(
                    (self.globals@.last().0@, self.globals@.last().1@),
                ),
                ..prev
            }));
            if prev.wf() {
                let ng = final(self)@.globals;
                assert forall|p: int, q: int| 0 <= p < q < ng.len() implies ng[p].0 != ng[q].0 by {
                    if q == ng.len() - 1 {
                        assert(ng[p] == prev.globals[p]);
                    }
                }
            }
        }
        Ok(())
    }

    /// Whether some block of some registered function lacks a terminator.
    pub fn contains_nonterminated_basic_block(&self) -> (r: bool)
        ensures
            r == self@.has_nonterminated_block(),
    {
        let mut i: usize = 0;
        while i < self.functions.len()
            invariant
                i <= self.functions.len(),
                forall|j: int|
                    0 <= j < i ==> !(#[trigger] self@.functions[j]).has_nonterminated_block(),
            decreases self.functions.len() - i,
        {
            if self.functions[i].contains_nonterminated_basic_block() {
                assert(self@.functions[i as int].has_nonterminated_block());
                return true;
            }
            i = i + 1;
        }
        false
    }

    /// The program's artifact name.
    pub fn name(&self) -> (r: &String)
        ensures
            r@ == self@.name,
    {
        &self.name
    }

    /// The registered globals, in insertion order.
    pub fn globals(&self) -> (r: &Vec<(String, Vec<u8>)>)
        ensures
            entry_views(r@) == self@.globals,
    {
        &self.globals
    }

    /// The registered functions, in insertion order.
    pub fn functions(&self) -> (r: &Vec<Function>)
        ensures
            r@.map_values(|f: Function| f@) == self@.functions,
    {
        &self.functions
    }

    /// Whether the entry function has been designated.
    pub fn has_entry(&self) -> (r: bool)
        ensures
            r == (self@.entry is Some),
    {
        self.entry.is_some()
    }

    /// The designated entry function's name; the entry must have been
    /// set.
    pub fn entry(&self) -> (r: &String)
        requires
            self@.entry is Some,
        ensures
            r@ == self@.entry->0,
    {
        self.entry.as_ref().unwrap()
    }

    /// Designates an existing function as the entry; unknown names are
    /// rejected.
    pub fn set_entry(&mut self, value: String) -> (r: Result<(), SlasmError>)
        ensures
            !has_function(old(self)@.functions, value@) ==> r == Result::<(), SlasmError>::Err(
                SlasmError::UnknownFunction,
            ) && final(self)@ == old(self)@,
            has_function(old(self)@.functions, value@) ==> r == Result::<(), SlasmError>::Ok(())
                && final(self)@ == (ProgramView { entry: Some(value@), ..old(self)@ }),
            old(self)@.wf() ==> final(self)@.wf(),
    {
        if self.function_index(&value).is_none() {
            return Err(SlasmError::UnknownFunction);
        }
        let ghost prev = self@;
        self.entry = Some(value);
        proof {
            assert(final(self)@ =~= (ProgramView { entry: Some(value@), ..prev }));
        }
        Ok(())
    }

    /// Finds the index of the function carrying the name, if any.
    fn function_index(&self, name: &String) -> (r: Option<usize>)
        ensures
            match r {
                Some(i) => 0 <= i < self@.functions.len() && self@.functions[i as int].name
                    == name@ && has_function(self@.functions, name@),
                None => !has_function(self@.functions, name@),
            },
    {
        let mut i: usize = 0;
        while i < self.functions.len()
            invariant
                i <= self.functions.len(),
                forall|j: int| 0 <= j < i ==> self@.functions[j].name != name@,
            decreases self.functions.len() - i,
        {
            let same = string_eq(self.functions[i].name(), name);
            proof {
                assert(self@.functions[i as int] == self.functions@[i as int]@);
            }
            if same {
                return Some(i);
            }
            i = i + 1;
        }
        None
    }
}

} // verus!
