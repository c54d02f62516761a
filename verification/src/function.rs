//! Functions: named units with typed parameters, locals, return slots,
//! and a named set of basic blocks with a designated entry block.

use vstd::prelude::*;
use crate::basic_block::{spec_terminated, BasicBlock};
use crate::error::SlasmError;
use crate::instruction::InstrView;
use crate::names::{distinct_keys, entry_views, has_key, lemma_lookup_views, lookup_index, find_duplicate_key};
use crate::sums::{
    lemma_seq_sum_split, lemma_seq_sum_take_snoc, lemma_seq_sum_nonneg, lemma_seq_sum_zero_iff,
    seq_sum_u64,
};

verus! {

/// The mathematical view of a function.
#[verifier::ext_equal]
pub struct FunctionView {
    pub name: Seq<char>,
    pub params: Seq<(Seq<char>, u64)>,
    pub locals: Seq<(Seq<char>, u64)>,
    pub rets: Seq<u64>,
    pub basic_blocks: Seq<(Seq<char>, Seq<InstrView>)>,
    pub entry: Option<Seq<char>>,
}

/// Whether every named slot has a positive byte size.
pub open spec fn sizes_positive(m: Seq<(Seq<char>, u64)>) -> bool {
    forall|i: int| 0 <= i < m.len() ==> m[i].1 > 0
}

/// Whether every return slot has a positive byte size.
pub open spec fn returns_positive(s: Seq<u64>) -> bool {
    forall|i: int| 0 <= i < s.len() ==> s[i] > 0
}

impl FunctionView {
    /// The structural invariants of a function: positive slot sizes,
    /// unique names within each namespace, and an entry that refers to
    /// an existing block once set.
    pub open spec fn wf(self) -> bool {
        &&& sizes_positive(self.params)
        &&& sizes_positive(self.locals)
        &&& returns_positive(self.rets)
        &&& distinct_keys(self.params)
        &&& distinct_keys(self.locals)
        &&& distinct_keys(self.basic_blocks)
        &&& match self.entry {
            Some(e) => has_key(self.basic_blocks, e),
            None => true,
        }
    }

    /// Whether some block of the function lacks a terminator.
    pub open spec fn has_nonterminated_block(self) -> bool {
        exists|i: int|
            0 <= i < self.basic_blocks.len() && !spec_terminated(self.basic_blocks[i].1)
    }
}

/// A named unit of code: typed parameters and locals, return slots, and
/// basic blocks with a designated entry.
pub struct Function {
    name: String,
    params: Vec<(String, u64)>,
    locals: Vec<(String, u64)>,
    rets: Vec<u64>,
    basic_blocks: Vec<(String, BasicBlock)>,
    entry: Option<String>,
}

impl View for Function {
    type V = FunctionView;

    closed spec fn view(&self) -> FunctionView {
        FunctionView {
            name: self.name@,
            params: entry_views(self.params@),
            locals: entry_views(self.locals@),
            rets: self.rets@,
            basic_blocks: entry_views(self.basic_blocks@),
            entry: match self.entry {
                Some(ref e) => Some(e@),
                None => None,
            },
        }
    }
}

impl Function {
    /// Builds a function with no blocks and no entry. Zero-sized
    /// parameters, locals or return slots are rejected as an invalid
    /// layout; duplicate parameter or local names are rejected.
    pub fn new(name: String, params: Vec<(String, u64)>, locals: Vec<(String, u64)>, rets: Vec<
        u64,
    >) -> (r: Result<Function, SlasmError>)
        ensures
            ({
                let pv = entry_views(params@);
                let lv = entry_views(locals@);
                let layout_ok = sizes_positive(pv) && sizes_positive(lv) && returns_positive(
                    rets@,
                );
                let unique = distinct_keys(pv) && distinct_keys(lv);
                match r {
                    Ok(f) => layout_ok && unique && f@ == (FunctionView {
                        name: name@,
                        params: pv,
                        locals: lv,
                        rets: rets@,
                        basic_blocks: Seq::empty(),
                        entry: None,
                    }) && f@.wf(),
                    Err(e) => (!layout_ok && e == SlasmError::InvalidLayout) || (layout_ok
                        && !unique && e == SlasmError::DuplicateName),
                }
            }),
    {
        let ghost pv = entry_views(params@);
        let ghost lv = entry_views(locals@);
        if !all_sizes_positive(&params) || !all_sizes_positive(&locals) || !all_returns_positive(
            &rets,
        ) {
            return Err(SlasmError::InvalidLayout);
        }
        if find_duplicate_key(&params) || find_duplicate_key(&locals) {
            return Err(SlasmError::DuplicateName);
        }
        let f = Function {
            name,
            params,
            locals,
            rets,
            basic_blocks: Vec::new(),
            entry: None,
        };
        proof {
            assert(f@.basic_blocks =~= Seq::<(Seq<char>, Seq<InstrView>)>::empty());
        }
        Ok(f)
    }

    /// Registers a block under a name; duplicates are rejected.
    pub fn add_basic_block(&mut self, name: String, basic_block: BasicBlock) -> (r: Result<
        (),
        SlasmError,
    >)
        ensures
            has_key(old(self)@.basic_blocks, name@) ==> r == Result::<(), SlasmError>::Err(
                SlasmError::DuplicateName,
            ) && final(self)@ == old(self)@,
            !has_key(old(self)@.basic_blocks, name@) ==> r == Result::<(), SlasmError>::Ok(())
                && final(self)@ == (FunctionView {
                basic_blocks: old(self)@.basic_blocks.push((name@, basic_block@)),
                ..old(self)@
            }),
            old(self)@.wf() ==> final(self)@.wf(),
    {
        let found = lookup_index(&self.basic_blocks, &name);
        proof {
            lemma_lookup_views(self.basic_blocks@, name@, found);
        }
        if found.is_some() {
            return Err(SlasmError::DuplicateName);
        }
        let ghost prev = self@;
        self.basic_blocks.push((name, basic_block));
        proof {
            assert(final(self)@ =~= (FunctionView {
                basic_blocks: prev.basic_blocks.push(
                    (self.basic_blocks@.last().0@, self.basic_blocks@.last().1@),
                ),
                ..prev
            }));
            if prev.wf() {
                let nb = final(self)@.basic_blocks;
                assert forall|i: int, j: int| 0 <= i < j < nb.len() implies nb[i].0 != nb[j].0 by {
                    if j == nb.len() - 1 {
                        assert(nb[i] == prev.basic_blocks[i]);
                    }
                }
                match prev.entry {
                    Some(e) => {
                        let k = choose|k: int|
                            0 <= k < prev.basic_blocks.len() && prev.basic_blocks[k].0 == e;
                        assert(nb[k] == prev.basic_blocks[k]);
                    },
                    None => {},
                }
            }
        }
        Ok(())
    }

    /// Whether any block of the function lacks a terminator.
    pub fn contains_nonterminated_basic_block(&self) -> (r: bool)
        ensures
            r == self@.has_nonterminated_block(),
    {
        let mut i: usize = 0;
        while i < self.basic_blocks.len()
            invariant
                i <= self.basic_blocks.len(),
                forall|j: int|
                    0 <= j < i ==> spec_terminated(self@.basic_blocks[j].1),
            decreases self.basic_blocks.len() - i,
        {
            if !self.basic_blocks[i].1.is_terminated() {
                assert(!spec_terminated(self@.basic_blocks[i as int].1));
                return true;
            }
            i = i + 1;
        }
        false
    }

    /// The function's name.
    pub fn name(&self) -> (r: &String)
        ensures
            r@ == self@.name,
    {
        &self.name
    }

    /// The named parameter sizes, in insertion order.
    pub fn params(&self) -> (r: &Vec<(String, u64)>)
        ensures
            entry_views(r@) == self@.params,
    {
        &self.params
    }

    /// The named local sizes, in insertion order.
    pub fn locals(&self) -> (r: &Vec<(String, u64)>)
        ensures
            entry_views(r@) == self@.locals,
    {
        &self.locals
    }

    /// The ordered return slot sizes.
    pub fn return_sizes(&self) -> (r: &Vec<u64>)
        ensures
            r@ == self@.rets,
    {
        &self.rets
    }

    /// The total byte size of the return buffer.
    pub fn total_returns_size(&self) -> (r: u64)
        requires
            seq_sum_u64(self@.rets) <= u64::MAX,
        ensures
            r == seq_sum_u64(self@.rets),
    {
        sum_of(&self.rets)
    }

    /// The registered basic blocks, in insertion order.
    pub fn basic_blocks(&self) -> (r: &Vec<(String, BasicBlock)>)
        ensures
            entry_views(r@) == self@.basic_blocks,
    {
        &self.basic_blocks
    }

    /// True exactly when the function returns nothing.
    pub fn is_procedure(&self) -> (r: bool)
        ensures
            r == (seq_sum_u64(self@.rets) == 0),
    {
        proof {
            lemma_seq_sum_zero_iff(self@.rets);
        }
        let mut i: usize = 0;
        while i < self.rets.len()
            invariant
                i <= self.rets.len(),
                forall|j: int| 0 <= j < i ==> self@.rets[j] == 0,
            decreases self.rets.len() - i,
        {
            if self.rets[i] != 0 {
                proof {
                    lemma_seq_sum_zero_iff(self@.rets);
                    if seq_sum_u64(self@.rets) == 0 {
                        assert(self@.rets[i as int] == 0);
                    }
                }
                return false;
            }
            i = i + 1;
        }
        true
    }

    /// Whether the entry block has been designated.
    pub fn has_entry(&self) -> (r: bool)
        ensures
            r == (self@.entry is Some),
    {
        self.entry.is_some()
    }

    /// The designated entry block's name; the entry must have been set.
    pub fn entry(&self) -> (r: &String)
        requires
            self@.entry is Some,
        ensures
            r@ == self@.entry->0,
    {
        self.entry.as_ref().unwrap()
    }

    /// Designates an existing block as the entry; unknown names are
    /// rejected.
    pub fn set_entry(&mut self, value: String) -> (r: Result<(), SlasmError>)
        ensures
            !has_key(old(self)@.basic_blocks, value@) ==> r == Result::<(), SlasmError>::Err(
                SlasmError::UnknownBlock,
            ) && final(self)@ == old(self)@,
            has_key(old(self)@.basic_blocks, value@) ==> r == Result::<(), SlasmError>::Ok(())
                && final(self)@ == (FunctionView { entry: Some(value@), ..old(self)@ }),
            old(self)@.wf() ==> final(self)@.wf(),
    {
        let found = lookup_index(&self.basic_blocks, &value);
        proof {
            lemma_lookup_views(self.basic_blocks@, value@, found);
        }
        if found.is_none() {
            return Err(SlasmError::UnknownBlock);
        }
        let ghost prev = self@;
        self.entry = Some(value);
        proof {
            assert(final(self)@ =~= (FunctionView { entry: Some(value@), ..prev }));
        }
        Ok(())
    }
}

fn all_sizes_positive(entries: &Vec<(String, u64)>) -> (r: bool)
    ensures
        r == sizes_positive(entry_views(entries@)),
{
    let ghost m = entry_views(entries@);
    let mut i: usize = 0;
    while i < entries.len()
        invariant
            i <= entries.len(),
            m == entry_views(entries@),
            forall|j: int| 0 <= j < i ==> m[j].1 > 0,
        decreases entries.len() - i,
    {
        if entries[i].1 == 0 {
            assert(m[i as int].1 == 0);
            return false;
        }
        i = i + 1;
    }
    true
}

fn all_returns_positive(rets: &Vec<u64>) -> (r: bool)
    ensures
        r == returns_positive(rets@),
{
    let mut i: usize = 0;
    while i < rets.len()
        invariant
            i <= rets.len(),
            forall|j: int| 0 <= j < i ==> rets@[j] > 0,
        decreases rets.len() - i,
    {
        if rets[i] == 0 {
            return false;
        }
        i = i + 1;
    }
    true
}

/// Sums byte sizes; the caller guarantees the total fits a `u64`.
pub fn sum_of(sizes: &Vec<u64>) -> (r: u64)
    requires
        seq_sum_u64(sizes@) <= u64::MAX,
    ensures
        r == seq_sum_u64(sizes@),
{
    let mut total: u64 = 0;
    let mut i: usize = 0;
    while i < sizes.len()
        invariant
            i <= sizes.len(),
            seq_sum_u64(sizes@) <= u64::MAX,
            total == seq_sum_u64(sizes@.take(i as int)),
        decreases sizes.len() - i,
    {
        proof {
            lemma_seq_sum_take_snoc(sizes@, i as int);
            lemma_seq_sum_split(sizes@, i + 1);
            lemma_seq_sum_nonneg(sizes@.skip(i + 1));
        }
        total = total + sizes[i];
        i = i + 1;
    }
    proof {
        assert(sizes@.take(sizes@.len() as int) =~= sizes@);
    }
    total
}

} // verus!
