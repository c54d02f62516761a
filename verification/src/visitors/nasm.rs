//! The NASM visitor: lowers a program to x86-64 assembly text for
//! NASM, using a stack-based calling convention. A callee receives its
//! parameters by value on the stack and writes its return values back
//! over the same region, so the caller reserves room for whichever of
//! the two buffers is larger and pops down to exactly the return buffer
//! after the call.
//!
//! Emission runs in two phases: first a [`GlobalContext`] of per-function
//! layout facts is computed, then each function is lowered against it.
//! The mandated lowerings are emitted for `Noop`, `Push`, `Pop`,
//! `Allocate`, `Jump`, `CondJump`, `Call`, `IndirectCall` and `Ret`; the
//! remaining opcodes are lowering stubs and are left out of the
//! emitter's domain by precondition.

use vstd::prelude::*;
use crate::basic_block::BasicBlock;
use crate::error::SlasmError;
use crate::function::{Function, FunctionView};
use crate::instruction::{InstrView, Instruction};
use crate::names::{
    entry_views, has_key, lemma_first_key_index, lemma_key_index, lemma_lookup_views,
    lookup_index, string_eq, value_for,
};
use crate::program::{has_function, Program, ProgramView};
use crate::text::{concat_map, join_map, replace_all};
use crate::sums::{
    lemma_seq_sum_nonneg, lemma_seq_sum_split, lemma_seq_sum_take_snoc, seq_sum_u64, sizes_sum,
};

verus! {

/// The padding that rounds a return buffer up to a whole number of
/// 8-byte words.
pub open spec fn cc_ret_padding(r: int) -> int {
    (8 - r % 8) % 8
}

/// The return buffer size rounded up to a multiple of the word size.
pub open spec fn cc_padded_ret(r: int) -> int {
    r + cc_ret_padding(r)
}

/// How many bytes the caller opens below the parameters so that the
/// padded return buffer fits.
pub open spec fn cc_pre_call_padding(p: int, r: int) -> int {
    if cc_padded_ret(r) > p {
        cc_padded_ret(r) - p
    } else {
        0
    }
}

/// The total stack space the caller reserves before the call.
pub open spec fn cc_pre_call_allocated(p: int, r: int) -> int {
    p + cc_pre_call_padding(p, r)
}

/// How many bytes the caller pops after the call so that exactly the
/// return buffer is left on top of the stack.
pub open spec fn cc_post_call_pop(p: int, r: int) -> int {
    cc_pre_call_allocated(p, r) - r
}

/// Per-function calling-convention layout facts, derived from the
/// parameter and return buffer sizes.
#[derive(Debug, Clone, Copy, PartialEq, Eq, Structural)]
pub struct FunctionInfo {
    /// The bytes needed to hold all parameters.
    pub param_buffer_size: u64,
    /// The bytes needed to hold all return values.
    pub return_buffer_size: u64,
    /// The return buffer size rounded up to the next multiple of the
    /// word size.
    pub padded_return_buffer_size: u64,
    /// The stack space the caller reserves before the call.
    pub pre_call_allocated_space: u64,
    /// The bytes the caller opens below the parameters before the call.
    pub pre_call_padding: u64,
    /// The bytes that round the return buffer up to a word multiple.
    pub return_buffer_padding: u64,
    /// The bytes the caller pops after the call.
    pub post_call_pop_amt: u64,
}

impl View for FunctionInfo {
    type V = FunctionInfo;

    open spec fn view(&self) -> FunctionInfo {
        *self
    }
}

/// The layout facts for given parameter and return buffer sizes.
pub open spec fn cc_of(p: int, r: int) -> FunctionInfo {
    FunctionInfo {
        param_buffer_size: p as u64,
        return_buffer_size: r as u64,
        padded_return_buffer_size: cc_padded_ret(r) as u64,
        pre_call_allocated_space: cc_pre_call_allocated(p, r) as u64,
        pre_call_padding: cc_pre_call_padding(p, r) as u64,
        return_buffer_padding: cc_ret_padding(r) as u64,
        post_call_pop_amt: cc_post_call_pop(p, r) as u64,
    }
}

/// The internal consistency of layout facts, as the lowerings rely on
/// it: the padded buffer is the buffer plus its padding, a whole number
/// of words, and never larger than what the caller reserves.
pub open spec fn cc_wf(info: FunctionInfo) -> bool {
    &&& info.padded_return_buffer_size == info.return_buffer_size + info.return_buffer_padding
    &&& info.return_buffer_padding < 8
    &&& info.padded_return_buffer_size % 8 == 0
    &&& info.pre_call_allocated_space == info.param_buffer_size + info.pre_call_padding
    &&& info.pre_call_allocated_space >= info.padded_return_buffer_size
    &&& info.post_call_pop_amt == info.pre_call_allocated_space - info.return_buffer_size
}

/// The layout facts of a function: parameter sizes summed against
/// return slot sizes summed.
pub open spec fn fn_info_of(f: FunctionView) -> FunctionInfo {
    cc_of(sizes_sum(f.params), seq_sum_u64(f.rets))
}

/// The name-to-layout map that the code generator is driven by.
pub open spec fn infos_of(fs: Seq<FunctionView>) -> Seq<(Seq<char>, FunctionInfo)> {
    fs.map_values(|f: FunctionView| (f.name, fn_info_of(f)))
}

/// Whether a function's buffer sizes stay within the machine's word:
/// the layout arithmetic is computed in 64 bits.
pub open spec fn fn_sizes_fit(f: FunctionView) -> bool {
    &&& sizes_sum(f.params) <= u64::MAX
    &&& sizes_sum(f.locals) <= u64::MAX
    &&& seq_sum_u64(f.rets) <= u64::MAX - 7
}

/// Computes the layout facts from raw buffer sizes.
fn cc_from_sizes(p: u64, r: u64) -> (info: FunctionInfo)
    requires
        r <= u64::MAX - 7,
    ensures
        info == cc_of(p as int, r as int),
        cc_wf(info),
{
    let rpad: u64 = (8 - r % 8) % 8;
    let padded: u64 = r + rpad;
    proof {
        assert(rpad == cc_ret_padding(r as int));
        assert(padded % 8 == 0) by {
            assert(r % 8 < 8);
            if r % 8 == 0 {
                assert(rpad == 0);
                assert(padded % 8 == 0);
            } else {
                assert(rpad == 8 - r % 8);
                assert(padded == r + 8 - r % 8);
                assert((r + 8 - r % 8) % 8 == 0) by (nonlinear_arith)
                    requires
                        r % 8 != 0,
                        r <= u64::MAX - 7,
                ;
            }
        }
    }
    let prepad: u64 = if padded > p {
        padded - p
    } else {
        0
    };
    let prealloc: u64 = p + prepad;
    let postpop: u64 = prealloc - r;
    FunctionInfo {
        param_buffer_size: p,
        return_buffer_size: r,
        padded_return_buffer_size: padded,
        pre_call_allocated_space: prealloc,
        pre_call_padding: prepad,
        return_buffer_padding: rpad,
        post_call_pop_amt: postpop,
    }
}

/// Sums the size components of a name-to-size sequence; the caller
/// guarantees the total fits.
fn sum_sizes(entries: &Vec<(String, u64)>) -> (r: u64)
    requires
        sizes_sum(entry_views(entries@)) <= u64::MAX,
    ensures
        r == sizes_sum(entry_views(entries@)),
{
    let ghost m = entry_views(entries@);
    let ghost sz = m.map_values(|e: (Seq<char>, u64)| e.1);
    let mut total: u64 = 0;
    let mut i: usize = 0;
    while i < entries.len()
        invariant
            i <= entries.len(),
            m == entry_views(entries@),
            sz == m.map_values(|e: (Seq<char>, u64)| e.1),
            sz.len() == entries@.len(),
            seq_sum_u64(sz) <= u64::MAX,
            total == seq_sum_u64(sz.take(i as int)),
        decreases entries.len() - i,
    {
        proof {
            lemma_seq_sum_take_snoc(sz, i as int);
            lemma_seq_sum_split(sz, i + 1);
            lemma_seq_sum_nonneg(sz.skip(i + 1));
            assert(sz[i as int] == entries@[i as int].1);
        }
        total = total + entries[i].1;
        i = i + 1;
    }
    proof {
        assert(sz.take(sz.len() as int) =~= sz);
    }
    total
}

impl FunctionInfo {
    /// Derives the layout facts of one function. Every field equals the
    /// calling-convention arithmetic applied to the function's summed
    /// parameter sizes and summed return slot sizes.
    pub fn new(function: &Function) -> (r: FunctionInfo)
        requires
            fn_sizes_fit(function@),
        ensures
            r == fn_info_of(function@),
            cc_wf(r),
    {
        let p = sum_sizes(function.params());
        let r = sum_of_returns(function);
        cc_from_sizes(p, r)
    }
}

/// Reads the summed return slot sizes of a function.
fn sum_of_returns(function: &Function) -> (r: u64)
    requires
        seq_sum_u64(function@.rets) <= u64::MAX,
    ensures
        r == seq_sum_u64(function@.rets),
{
    function.total_returns_size()
}

/// The per-function layout facts of a whole program, keyed by function
/// name.
pub struct GlobalContext {
    functions: Vec<(String, FunctionInfo)>,
}

impl View for GlobalContext {
    type V = Seq<(Seq<char>, FunctionInfo)>;

    closed spec fn view(&self) -> Seq<(Seq<char>, FunctionInfo)> {
        entry_views(self.functions@)
    }
}

impl GlobalContext {
    /// Looks up a callee's layout facts; an unregistered name is
    /// rejected.
    pub fn get_function_info(&self, name: &String) -> (r: Result<&FunctionInfo, SlasmError>)
        ensures
            has_key(self@, name@) ==> r is Ok && *(r->Ok_0) == value_for(self@, name@),
            !has_key(self@, name@) ==> r == Result::<&FunctionInfo, SlasmError>::Err(
                SlasmError::UnknownFunction,
            ),
    {
        let found = lookup_index(&self.functions, name);
        proof {
            lemma_lookup_views(self.functions@, name@, found);
        }
        match found {
            Some(i) => {
                proof {
                    assert forall|j: int| 0 <= j < i implies self@[j].0 != name@ by {
                        assert(self@[j].0 == self.functions@[j].0@);
                    }
                    lemma_first_key_index(self@, name@, i as int);
                }
                Ok(&self.functions[i].1)
            },
            None => Err(SlasmError::UnknownFunction),
        }
    }
}

/// The layout of named slots: each name with its byte offset and size,
/// offsets ascending in insertion order.
pub open spec fn layout_of(m: Seq<(Seq<char>, u64)>) -> Seq<(Seq<char>, (u64, u64))> {
    Seq::new(m.len(), |i: int| (m[i].0, (sizes_sum(m.take(i)) as u64, m[i].1)))
}

/// Assigns ascending byte offsets to named slots in insertion order.
fn build_layout(entries: &Vec<(String, u64)>) -> (r: Vec<(String, (u64, u64))>)
    requires
        sizes_sum(entry_views(entries@)) <= u64::MAX,
    ensures
        r@.map_values(|e: (String, (u64, u64))| (e.0@, e.1)) == layout_of(entry_views(entries@)),
{
    let ghost m = entry_views(entries@);
    let ghost sz = m.map_values(|e: (Seq<char>, u64)| e.1);
    let mut out: Vec<(String, (u64, u64))> = Vec::new();
    let mut offset: u64 = 0;
    let mut i: usize = 0;
    while i < entries.len()
        invariant
            i <= entries.len(),
            m == entry_views(entries@),
            sz == m.map_values(|e: (Seq<char>, u64)| e.1),
            sz.len() == entries@.len(),
            seq_sum_u64(sz) <= u64::MAX,
            offset == seq_sum_u64(sz.take(i as int)),
            out@.map_values(|e: (String, (u64, u64))| (e.0@, e.1)) =~= layout_of(m).take(i as int),
        decreases entries.len() - i,
    {
        proof {
            lemma_seq_sum_take_snoc(sz, i as int);
            lemma_seq_sum_split(sz, i + 1);
            lemma_seq_sum_nonneg(sz.skip(i + 1));
            assert(sz[i as int] == entries@[i as int].1);
            assert(m.take(i as int) =~= entry_views(entries@).take(i as int));
            assert(sz.take(i as int) =~= m.take(i as int).map_values(
                |e: (Seq<char>, u64)| e.1,
            ));
            assert(sizes_sum(m.take(i as int)) == seq_sum_u64(sz.take(i as int)));
        }
        let name = entries[i].0.clone();
        let ghost nv = name@;
        let size = entries[i].1;
        let ghost prev_mapped = out@.map_values(|e: (String, (u64, u64))| (e.0@, e.1));
        out.push((name, (offset, size)));
        proof {
            lemma_seq_sum_nonneg(sz.take(i as int));
            assert(nv == m[i as int].0);
            assert(size == m[i as int].1);
            assert(layout_of(m)[i as int] == (m[i as int].0, (sizes_sum(m.take(i as int)) as u64,
            m[i as int].1)));
            let mapped = out@.map_values(|e: (String, (u64, u64))| (e.0@, e.1));
            assert(mapped.len() == prev_mapped.len() + 1);
            assert forall|q: int| 0 <= q < mapped.len() implies mapped[q] == layout_of(m).take(
                i + 1,
            )[q] by {
                if q < i {
                    assert(mapped[q] == prev_mapped[q]);
                } else {
                    assert(out@[q] == (name, (offset, size)));
                    assert(mapped[q] == (nv, (offset, size)));
                }
            }
            assert(mapped =~= layout_of(m).take(i + 1));
        }
        offset = offset + size;
        i = i + 1;
    }
    proof {
        assert(layout_of(m).take(m.len() as int) =~= layout_of(m));
    }
    out
}

/// Everything the lowering of one function's instructions consults: the
/// program-wide layout facts, the function's own layout facts, and the
/// per-slot offsets of its parameters and locals.
pub struct FunctionContext<'a> {
    /// The program-wide per-function layout facts.
    pub global_ctx: &'a GlobalContext,
    /// The name of the function being lowered.
    pub name: &'a String,
    /// Parameter offsets and sizes, ascending in insertion order.
    pub params: Vec<(String, (u64, u64))>,
    /// Local offsets and sizes, ascending in insertion order.
    pub locals: Vec<(String, (u64, u64))>,
    /// The layout facts of the function being lowered.
    pub cc_info: &'a FunctionInfo,
}

impl<'a> FunctionContext<'a> {
    /// The program-wide layout facts.
    pub fn global_ctx(&self) -> (r: &GlobalContext)
        ensures
            r == self.global_ctx,
    {
        self.global_ctx
    }

    /// The layout facts of the function being lowered.
    pub fn cc_info(&self) -> (r: &FunctionInfo)
        ensures
            r == self.cc_info,
    {
        self.cc_info
    }
}

/// The 8-byte immediate that materializes a chunk: the chunk's bytes in
/// file order, zero-extended to the full word.
pub open spec fn chunk_immediate(chunk: Seq<u8>) -> Seq<char>
    recommends
        chunk.len() <= 8,
{
    crate::word::hex_string_chars(chunk + Seq::new((8 - chunk.len()) as nat, |i: int| 0u8))
}

/// The lowering of one pushed chunk: load the immediate, push the full
/// word, and for a short chunk give back the unused high bytes.
pub open spec fn chunk_lines(chunk: Seq<u8>) -> Seq<char>
    recommends
        1 <= chunk.len() <= 8,
{
    if chunk.len() == 8 {
        "mov rax, "@ + chunk_immediate(chunk) + "\npush rax\n"@
    } else {
        "mov rax, "@ + chunk_immediate(chunk) + "\npush rax\nadd rsp, "@ + crate::text::dec_digits(
            (8 - chunk.len()) as nat,
        ) + seq!['\n']
    }
}

/// The lowering of a `Push`: the data split into 8-byte chunks from the
/// start, each materialized in turn.
pub open spec fn push_chunks_text(data: Seq<u8>) -> Seq<char>
    decreases data.len(),
{
    if data.len() == 0 {
        Seq::empty()
    } else if data.len() >= 8 {
        chunk_lines(data.take(8)) + push_chunks_text(data.skip(8))
    } else {
        chunk_lines(data)
    }
}

/// The decimal rendering of an unsigned size.
pub open spec fn dec_u(n: u64) -> Seq<char> {
    crate::text::dec_digits(n as nat)
}

/// The stack adjustment before a call, when the padded return buffer
/// needs more room than the parameters occupy.
pub open spec fn pre_pad_line(info: FunctionInfo) -> Seq<char> {
    if info.pre_call_padding != 0 {
        "sub rsp, "@ + dec_u(info.pre_call_padding) + " ; pad stack for the return buffer\n"@
    } else {
        Seq::empty()
    }
}

/// The stack adjustment after a call, down to exactly the return buffer.
pub open spec fn post_pop_line(info: FunctionInfo) -> Seq<char> {
    if info.post_call_pop_amt != 0 {
        "add rsp, "@ + dec_u(info.post_call_pop_amt)
            + " ; leave only the return buffer on the stack\n"@
    } else {
        Seq::empty()
    }
}

/// The lowering of a direct call against the callee's layout facts.
pub open spec fn call_text(target: Seq<char>, info: FunctionInfo) -> Seq<char> {
    "; call "@ + target + seq!['\n'] + pre_pad_line(info) + "call "@ + target + seq!['\n']
        + post_pop_line(info)
}

/// The lowering of an indirect call: the callee address is popped off
/// the stack, and the same arithmetic is applied to the literal sizes.
pub open spec fn indirect_call_text(p: u64, r: u64) -> Seq<char> {
    let info = cc_of(p as int, r as int);
    "; indirect_call "@ + dec_u(p) + seq![' '] + dec_u(r) + "\npop r11\n"@ + pre_pad_line(info)
        + "call r11\n"@ + post_pop_line(info)
}

/// A text repeated a number of times.
pub open spec fn repeat_text(t: Seq<char>, n: nat) -> Seq<char>
    decreases n,
{
    if n == 0 {
        Seq::empty()
    } else {
        t + repeat_text(t, (n - 1) as nat)
    }
}

/// One more repetition appends one more copy.
pub proof fn lemma_repeat_text_snoc(t: Seq<char>, n: nat)
    ensures
        repeat_text(t, n + 1) == repeat_text(t, n) + t,
    decreases n,
{
    if n == 0 {
        assert(repeat_text(t, 1) == t + repeat_text(t, 0));
        assert(t + Seq::<char>::empty() =~= t);
        assert(Seq::<char>::empty() + t =~= t);
    } else {
        lemma_repeat_text_snoc(t, (n - 1) as nat);
        assert(repeat_text(t, n + 1) == t + repeat_text(t, n));
        assert(repeat_text(t, n) == t + repeat_text(t, (n - 1) as nat));
        assert(t + (repeat_text(t, (n - 1) as nat) + t) =~= (t + repeat_text(t, (n - 1) as nat))
            + t);
    }
}

/// The word-by-word copy that a `Ret` uses to move the padded return
/// bytes into the caller's buffer.
pub open spec fn ret_copy_step() -> Seq<char> {
    "pop r10\nsub rax, 8\nmov [rax], r10\n"@
}

/// The lowering of `Ret`: for a procedure just the frame restoration;
/// otherwise pad the stack to a word multiple, point `rax` past the
/// caller-reserved buffer, pop the padded words back into it, and
/// restore the frame.
pub open spec fn ret_text(info: FunctionInfo) -> Seq<char> {
    "; ret\n"@ + (if info.return_buffer_size != 0 {
        (if info.return_buffer_padding != 0 {
            "sub rsp, "@ + dec_u(info.return_buffer_padding) + seq!['\n']
        } else {
            Seq::empty()
        }) + "mov rax, rbp\nadd rax, "@ + crate::text::dec_digits(
            (info.pre_call_allocated_space - info.padded_return_buffer_size) as nat,
        ) + seq!['\n'] + repeat_text(
            ret_copy_step(),
            (info.padded_return_buffer_size / 8) as nat,
        )
    } else {
        Seq::empty()
    }) + "mov rsp, rbp\npop rbp\nret\n"@
}

/// The lowering of one instruction, against the program-wide layout
/// facts and those of the enclosing function.
pub open spec fn instr_nasm(
    i: InstrView,
    infos: Seq<(Seq<char>, FunctionInfo)>,
    self_info: FunctionInfo,
) -> Seq<char> {
    match i {
        InstrView::Noop => "; noop\nnop\n"@,
        InstrView::Push { data } => "; push "@ + crate::text::hex_pairs_colon(data) + seq!['\n']
            + push_chunks_text(data),
        InstrView::Pop { amt } => "; pop "@ + dec_u(amt) + "\nadd rsp, "@ + dec_u(amt)
            + seq!['\n'],
        InstrView::Allocate { amt } => "; allocate "@ + dec_u(amt) + "\nmov rax, rsp\nsub rsp, "@
            + dec_u(amt) + "\npush rax\n"@,
        InstrView::Jump { target } => "; jump "@ + target + "\njmp ."@ + target + seq!['\n'],
        InstrView::CondJump { true_target, false_target } => "; cond_jump "@ + true_target
            + seq![' '] + false_target + "\npop rax\ncmp rax, 0\njne ."@ + true_target
            + "\njmp ."@ + false_target + seq!['\n'],
        InstrView::Call { target } => call_text(target, value_for(infos, target)),
        InstrView::IndirectCall { param_buffer_size, ret_buffer_size } => indirect_call_text(
            param_buffer_size,
            ret_buffer_size,
        ),
        InstrView::Ret => ret_text(self_info),
        _ => Seq::empty(),
    }
}

/// Whether the emitter lowers the instruction: the mandated opcodes,
/// with an indirect call's literal return size small enough for the
/// padding arithmetic.
pub open spec fn lowerable_instr(i: InstrView) -> bool {
    match i {
        InstrView::Noop => true,
        InstrView::Push { .. } => true,
        InstrView::Pop { .. } => true,
        InstrView::Allocate { .. } => true,
        InstrView::Jump { .. } => true,
        InstrView::CondJump { .. } => true,
        InstrView::Call { .. } => true,
        InstrView::IndirectCall { ret_buffer_size, .. } => ret_buffer_size <= u64::MAX - 7,
        InstrView::Ret => true,
        _ => false,
    }
}

/// Whether a direct call's target is registered, for one instruction.
pub open spec fn instr_target_known(i: InstrView, infos: Seq<(Seq<char>, FunctionInfo)>) -> bool {
    match i {
        InstrView::Call { target } => has_key(infos, target),
        _ => true,
    }
}

/// Renders the lowering of a `Push`.
fn emit_push(data: &Vec<u8>) -> (r: String)
    ensures
        r@ == "; push "@ + crate::text::hex_pairs_colon(data@) + seq!['\n'] + push_chunks_text(
            data@,
        ),
{
    let mut out = String::new();
    crate::text::push_str(&mut out, "; push ");
    crate::text::push_hex_pairs_colon(&mut out, data.as_slice());
    crate::text::push_char(&mut out, '\n');
    let ghost head = "; push "@ + crate::text::hex_pairs_colon(data@) + seq!['\n'];
    proof {
        assert(out@ =~= head);
        assert(data@.skip(0) =~= data@);
    }
    let n = data.len();
    let mut i: usize = 0;
    while i < n
        invariant
            n == data@.len(),
            i <= n,
            head == "; push "@ + crate::text::hex_pairs_colon(data@) + seq!['\n'],
            head + push_chunks_text(data@) == out@ + push_chunks_text(data@.skip(i as int)),
        decreases n - i,
    {
        let end = if n - i >= 8 {
            i + 8
        } else {
            n
        };
        let ghost chunk = data@.subrange(i as int, end as int);
        let mut imm: Vec<u8> = Vec::new();
        let mut j: usize = i;
        while j < end
            invariant
                i <= j <= end <= n,
                n == data@.len(),
                chunk == data@.subrange(i as int, end as int),
                imm@ =~= data@.subrange(i as int, j as int),
            decreases end - j,
        {
            imm.push(data[j]);
            proof {
                assert(imm@ =~= data@.subrange(i as int, j + 1));
            }
            j = j + 1;
        }
        let k = end - i;
        while imm.len() < 8
            invariant
                k <= imm@.len() <= 8,
                chunk == imm@.take(k as int),
                forall|q: int| k <= q < imm@.len() ==> imm@[q] == 0u8,
            decreases 8 - imm@.len(),
        {
            imm.push(0);
        }
        proof {
            assert(imm@ =~= chunk + Seq::new((8 - chunk.len()) as nat, |q: int| 0u8));
        }
        let immediate = crate::word::to_hex_string(imm.as_slice());
        let ghost before = out@;
        crate::text::push_str(&mut out, "mov rax, ");
        crate::text::push_str(&mut out, immediate.as_str());
        if k < 8 {
            crate::text::push_str(&mut out, "\npush rax\nadd rsp, ");
            crate::text::push_dec_u64(&mut out, (8 - k) as u64);
            crate::text::push_char(&mut out, '\n');
            proof {
                assert(chunk.len() == k && k >= 1);
                assert(immediate@ == chunk_immediate(chunk));
                assert(out@ =~= before + chunk_lines(chunk));
            }
        } else {
            crate::text::push_str(&mut out, "\npush rax\n");
            proof {
                assert(chunk.len() == 8);
                assert(immediate@ == chunk_immediate(chunk));
                assert(out@ =~= before + chunk_lines(chunk));
            }
        }
        proof {
            let t = data@.skip(i as int);
            if n - i >= 8 {
                assert(t.len() >= 8);
                assert(t.take(8) =~= chunk);
                assert(t.skip(8) =~= data@.skip(end as int));
                assert(push_chunks_text(t) == chunk_lines(chunk) + push_chunks_text(
                    data@.skip(end as int),
                ));
            } else {
                assert(t =~= chunk);
                assert(0 < t.len() < 8);
                assert(push_chunks_text(t) == chunk_lines(t));
                assert(data@.skip(end as int).len() == 0);
                assert(push_chunks_text(data@.skip(end as int)) == Seq::<char>::empty());
            }
            assert(head + push_chunks_text(data@) =~= out@ + push_chunks_text(
                data@.skip(end as int),
            ));
        }
        i = end;
    }
    proof {
        assert(data@.skip(n as int).len() == 0);
        assert(push_chunks_text(data@.skip(n as int)) == Seq::<char>::empty());
        assert(out@ =~= head + push_chunks_text(data@));
    }
    out
}

/// Renders the lowering of a direct call.
fn emit_call(target: &String, info: &FunctionInfo) -> (r: String)
    ensures
        r@ == call_text(target@, *info),
{
    let mut out = String::new();
    crate::text::push_str(&mut out, "; call ");
    crate::text::push_str(&mut out, target.as_str());
    crate::text::push_char(&mut out, '\n');
    if info.pre_call_padding != 0 {
        crate::text::push_str(&mut out, "sub rsp, ");
        crate::text::push_dec_u64(&mut out, info.pre_call_padding);
        crate::text::push_str(&mut out, " ; pad stack for the return buffer\n");
    }
    crate::text::push_str(&mut out, "call ");
    crate::text::push_str(&mut out, target.as_str());
    crate::text::push_char(&mut out, '\n');
    if info.post_call_pop_amt != 0 {
        crate::text::push_str(&mut out, "add rsp, ");
        crate::text::push_dec_u64(&mut out, info.post_call_pop_amt);
        crate::text::push_str(&mut out, " ; leave only the return buffer on the stack\n");
    }
    proof {
        assert(out@ =~= call_text(target@, *info));
    }
    out
}

/// Renders the lowering of an indirect call.
fn emit_indirect_call(param_buffer_size: u64, ret_buffer_size: u64) -> (r: String)
    requires
        ret_buffer_size <= u64::MAX - 7,
    ensures
        r@ == indirect_call_text(param_buffer_size, ret_buffer_size),
{
    let info = cc_from_sizes(param_buffer_size, ret_buffer_size);
    let mut out = String::new();
    crate::text::push_str(&mut out, "; indirect_call ");
    crate::text::push_dec_u64(&mut out, param_buffer_size);
    crate::text::push_char(&mut out, ' ');
    crate::text::push_dec_u64(&mut out, ret_buffer_size);
    crate::text::push_str(&mut out, "\npop r11\n");
    if info.pre_call_padding != 0 {
        crate::text::push_str(&mut out, "sub rsp, ");
        crate::text::push_dec_u64(&mut out, info.pre_call_padding);
        crate::text::push_str(&mut out, " ; pad stack for the return buffer\n");
    }
    crate::text::push_str(&mut out, "call r11\n");
    if info.post_call_pop_amt != 0 {
        crate::text::push_str(&mut out, "add rsp, ");
        crate::text::push_dec_u64(&mut out, info.post_call_pop_amt);
        crate::text::push_str(&mut out, " ; leave only the return buffer on the stack\n");
    }
    proof {
        assert(out@ =~= indirect_call_text(param_buffer_size, ret_buffer_size));
    }
    out
}

/// Renders the lowering of a `Ret`.
fn emit_ret(info: &FunctionInfo) -> (r: String)
    requires
        cc_wf(*info),
    ensures
        r@ == ret_text(*info),
{
    let mut out = String::new();
    crate::text::push_str(&mut out, "; ret\n");
    if info.return_buffer_size != 0 {
        if info.return_buffer_padding != 0 {
            crate::text::push_str(&mut out, "sub rsp, ");
            crate::text::push_dec_u64(&mut out, info.return_buffer_padding);
            crate::text::push_char(&mut out, '\n');
        }
        crate::text::push_str(&mut out, "mov rax, rbp\nadd rax, ");
        crate::text::push_dec_u64(
            &mut out,
            info.pre_call_allocated_space - info.padded_return_buffer_size,
        );
        crate::text::push_char(&mut out, '\n');
        let ghost before_copies = out@;
        let words = info.padded_return_buffer_size / 8;
        let mut c: u64 = 0;
        proof {
            assert(out@ =~= before_copies + repeat_text(ret_copy_step(), 0));
        }
        while c < words
            invariant
                c <= words,
                out@ == before_copies + repeat_text(ret_copy_step(), c as nat),
            decreases words - c,
        {
            crate::text::push_str(&mut out, "pop r10\nsub rax, 8\nmov [rax], r10\n");
            proof {
                lemma_repeat_text_snoc(ret_copy_step(), c as nat);
                assert(out@ =~= before_copies + repeat_text(ret_copy_step(), (c + 1) as nat));
            }
            c = c + 1;
        }
    }
    crate::text::push_str(&mut out, "mov rsp, rbp\npop rbp\nret\n");
    proof {
        assert(out@ =~= ret_text(*info));
    }
    out
}

/// Renders one instruction's lowering.
fn emit_instruction(instr: &Instruction, ctx: &FunctionContext) -> (r: String)
    requires
        lowerable_instr(instr@),
        instr_target_known(instr@, ctx.global_ctx@),
        cc_wf(*ctx.cc_info),
    ensures
        r@ == instr_nasm(instr@, ctx.global_ctx@, *ctx.cc_info),
{
    let mut out = String::new();
    match instr {
        Instruction::Noop => {
            crate::text::push_str(&mut out, "; noop\nnop\n");
            proof {
                assert(out@ =~= instr_nasm(instr@, ctx.global_ctx@, *ctx.cc_info));
            }
        },
        Instruction::Push { data } => {
            out = emit_push(data);
        },
        Instruction::Pop { amt } => {
            crate::text::push_str(&mut out, "; pop ");
            crate::text::push_dec_u64(&mut out, *amt);
            crate::text::push_str(&mut out, "\nadd rsp, ");
            crate::text::push_dec_u64(&mut out, *amt);
            crate::text::push_char(&mut out, '\n');
            proof {
                assert(out@ =~= instr_nasm(instr@, ctx.global_ctx@, *ctx.cc_info));
            }
        },
        Instruction::Allocate { amt } => {
            crate::text::push_str(&mut out, "; allocate ");
            crate::text::push_dec_u64(&mut out, *amt);
            crate::text::push_str(&mut out, "\nmov rax, rsp\nsub rsp, ");
            crate::text::push_dec_u64(&mut out, *amt);
            crate::text::push_str(&mut out, "\npush rax\n");
            proof {
                assert(out@ =~= instr_nasm(instr@, ctx.global_ctx@, *ctx.cc_info));
            }
        },
        Instruction::Jump { target } => {
            crate::text::push_str(&mut out, "; jump ");
            crate::text::push_str(&mut out, target.as_str());
            crate::text::push_str(&mut out, "\njmp .");
            crate::text::push_str(&mut out, target.as_str());
            crate::text::push_char(&mut out, '\n');
            proof {
                assert(out@ =~= instr_nasm(instr@, ctx.global_ctx@, *ctx.cc_info));
            }
        },
        Instruction::CondJump { true_target, false_target } => {
            crate::text::push_str(&mut out, "; cond_jump ");
            crate::text::push_str(&mut out, true_target.as_str());
            crate::text::push_char(&mut out, ' ');
            crate::text::push_str(&mut out, false_target.as_str());
            crate::text::push_str(&mut out, "\npop rax\ncmp rax, 0\njne .");
            crate::text::push_str(&mut out, true_target.as_str());
            crate::text::push_str(&mut out, "\njmp .");
            crate::text::push_str(&mut out, false_target.as_str());
            crate::text::push_char(&mut out, '\n');
            proof {
                assert(out@ =~= instr_nasm(instr@, ctx.global_ctx@, *ctx.cc_info));
            }
        },
        Instruction::Call { target } => {
            let info = match ctx.global_ctx.get_function_info(target) {
                Ok(info) => info,
                Err(_) => {
                    proof {
                        assert(false);
                    }
                    ctx.cc_info
                },
            };
            out = emit_call(target, info);
        },
        Instruction::IndirectCall { param_buffer_size, ret_buffer_size } => {
            out = emit_indirect_call(*param_buffer_size, *ret_buffer_size);
        },
        Instruction::Ret => {
            out = emit_ret(ctx.cc_info);
        },
        _ => {
            proof {
                assert(false);
            }
        },
    }
    out
}

/// What `textwrap::indent` returns: the text indented by the prefix.
/// The result depends on the two arguments alone.
pub uninterp spec fn indent_of(s: Seq<char>, prefix: Seq<char>) -> Seq<char>;

/// Relies on `textwrap::indent`: indents each line of the text by the
/// prefix (lines of nothing but whitespace get the prefix trimmed).
#[verifier::external_body]
fn indent_text(s: &str, prefix: &str) -> (r: String)
    ensures
        r@ == indent_of(s@, prefix@),
{
    textwrap::indent(s, prefix)
}

/// Whether every instruction of a block is lowered by the emitter.
pub open spec fn block_lowerable(instrs: Seq<InstrView>) -> bool {
    forall|k: int| 0 <= k < instrs.len() ==> lowerable_instr(#[trigger] instrs[k])
}

/// Whether a function's sizes fit the layout arithmetic and all its
/// instructions are lowered.
pub open spec fn fn_lowerable(f: FunctionView) -> bool {
    &&& fn_sizes_fit(f)
    &&& forall|j: int|
        0 <= j < f.basic_blocks.len() ==> block_lowerable((#[trigger] f.basic_blocks[j]).1)
}

/// Whether the whole program is within the emitter's domain.
pub open spec fn lowerable(p: ProgramView) -> bool {
    forall|i: int| 0 <= i < p.functions.len() ==> fn_lowerable(#[trigger] p.functions[i])
}

/// Whether one instruction's direct call target, if any, is a
/// registered function.
pub open spec fn instr_calls_known(i: InstrView, fs: Seq<FunctionView>) -> bool {
    match i {
        InstrView::Call { target } => has_function(fs, target),
        _ => true,
    }
}

/// Whether every direct call of a block goes to a registered function.
pub open spec fn block_calls_known(instrs: Seq<InstrView>, fs: Seq<FunctionView>) -> bool {
    forall|k: int| 0 <= k < instrs.len() ==> instr_calls_known(#[trigger] instrs[k], fs)
}

/// Whether every direct call of a function goes to a registered
/// function.
pub open spec fn fn_calls_known(f: FunctionView, fs: Seq<FunctionView>) -> bool {
    forall|j: int|
        0 <= j < f.basic_blocks.len() ==> block_calls_known((#[trigger] f.basic_blocks[j]).1, fs)
}

/// Whether every direct call of the program goes to a registered
/// function.
pub open spec fn calls_known(p: ProgramView) -> bool {
    forall|i: int|
        0 <= i < p.functions.len() ==> fn_calls_known(#[trigger] p.functions[i], p.functions)
}

/// Whether every direct call target of a block has layout facts.
pub open spec fn block_targets_known(
    instrs: Seq<InstrView>,
    infos: Seq<(Seq<char>, FunctionInfo)>,
) -> bool {
    forall|k: int| 0 <= k < instrs.len() ==> instr_target_known(#[trigger] instrs[k], infos)
}

/// Whether every direct call target of a function has layout facts.
pub open spec fn fn_targets_known(f: FunctionView, infos: Seq<(Seq<char>, FunctionInfo)>) -> bool {
    forall|j: int|
        0 <= j < f.basic_blocks.len() ==> block_targets_known(
            (#[trigger] f.basic_blocks[j]).1,
            infos,
        )
}

/// The layout map of a function sequence carries exactly the function
/// names as keys, and well-formed facts when the sizes fit.
pub proof fn lemma_infos_keys(fs: Seq<FunctionView>, t: Seq<char>)
    ensures
        has_key(infos_of(fs), t) == has_function(fs, t),
{
    let infos = infos_of(fs);
    if has_key(infos, t) {
        let i = choose|i: int| 0 <= i < infos.len() && infos[i].0 == t;
        assert(infos[i] == (fs[i].name, fn_info_of(fs[i])));
        assert(fs[i].name == t);
    }
    if has_function(fs, t) {
        let i = choose|i: int| 0 <= i < fs.len() && fs[i].name == t;
        assert(infos[i] == (fs[i].name, fn_info_of(fs[i])));
        assert(infos[i].0 == t);
    }
}

/// The layout facts computed from in-range sizes are well-formed.
pub proof fn lemma_cc_of_wf(p: int, r: int)
    requires
        0 <= p <= u64::MAX,
        0 <= r <= u64::MAX - 7,
    ensures
        cc_wf(cc_of(p, r)),
{
    assert(0 <= r % 8 < 8);
    assert(cc_padded_ret(r) % 8 == 0) by {
        if r % 8 == 0 {
            assert(cc_ret_padding(r) == 0);
        } else {
            assert(cc_ret_padding(r) == 8 - r % 8);
            assert((r + (8 - r % 8)) % 8 == 0) by (nonlinear_arith)
                requires
                    r % 8 != 0,
                    r >= 0,
            ;
        }
    }
    assert(cc_padded_ret(r) >= r);
    let padded = cc_padded_ret(r);
    let prealloc = cc_pre_call_allocated(p, r);
    assert(prealloc == if padded > p {
        padded
    } else {
        p
    });
    assert((padded as u64) % 8 == 0);
}

/// The label and indented lowerings of one basic block.
pub open spec fn block_nasm(
    name: Seq<char>,
    instrs: Seq<InstrView>,
    infos: Seq<(Seq<char>, FunctionInfo)>,
    self_info: FunctionInfo,
) -> Seq<char> {
    seq!['.'] + name + ":\n"@ + indent_of(
        concat_map(instrs, |i: InstrView| instr_nasm(i, infos, self_info)),
        "    "@,
    )
}

/// The label and indented blocks of one function.
pub open spec fn function_nasm(f: FunctionView, infos: Seq<(Seq<char>, FunctionInfo)>) -> Seq<
    char,
> {
    f.name + ":\n"@ + indent_of(
        concat_map(
            f.basic_blocks,
            |e: (Seq<char>, Seq<InstrView>)| block_nasm(e.0, e.1, infos, value_for(infos, f.name)),
        ),
        "    "@,
    )
}

/// One data-section line: the label and the comma-separated decimal
/// bytes.
pub open spec fn global_line(e: (Seq<char>, Seq<u8>)) -> Seq<char> {
    e.0 + ": db "@ + join_map(e.1, |b: u8| crate::text::dec_digits(b as nat), ", "@)
}

/// The placeholder that the header template must contain.
pub open spec fn placeholder_chars() -> Seq<char> {
    "#ENTRY_FUNC_NAME#"@
}

/// The whole NASM document: the header with the placeholder replaced by
/// the entry function's name, the end-of-header marker, the version
/// comment, the data section, and the text section, with functions and
/// globals in insertion order.
pub open spec fn nasm_document(p: ProgramView, header: Seq<char>) -> Seq<char> {
    replace_all(header, placeholder_chars(), p.entry->0)
        + "\n; ==================== END OF HEADER ====================\n\n; GENERATED FROM SLASM VERSION "@
        + crate::word::version_chars() + "\n\n    section .data\n"@ + join_map(
        p.globals,
        |e: (Seq<char>, Seq<u8>)| global_line(e),
        seq!['\n'],
    ) + "\n\n    section .text\n"@ + join_map(
        p.functions,
        |f: FunctionView| function_nasm(f, infos_of(p.functions)),
        seq!['\n'],
    ) + seq!['\n']
}

/// Renders one basic block: its local label and its indented
/// instruction lowerings.
fn emit_basic_block(name: &String, basic_block: &BasicBlock, ctx: &FunctionContext) -> (r: String)
    requires
        cc_wf(*ctx.cc_info),
        block_lowerable(basic_block@),
        block_targets_known(basic_block@, ctx.global_ctx@),
    ensures
        r@ == block_nasm(name@, basic_block@, ctx.global_ctx@, *ctx.cc_info),
{
    let ghost bv = basic_block@;
    let ghost instr_text = |i: InstrView| instr_nasm(i, ctx.global_ctx@, *ctx.cc_info);
    let mut body = String::new();
    let instrs = basic_block.iter();
    let mut j: usize = 0;
    while j < instrs.len()
        invariant
            instrs@.map_values(|x: Instruction| x@) == bv,
            j <= instrs@.len(),
            block_lowerable(bv),
            block_targets_known(bv, ctx.global_ctx@),
            cc_wf(*ctx.cc_info),
            instr_text == (|i: InstrView| instr_nasm(i, ctx.global_ctx@, *ctx.cc_info)),
            body@ == concat_map(bv.take(j as int), instr_text),
        decreases instrs@.len() - j,
    {
        proof {
            crate::text::lemma_concat_map_take_snoc(bv, instr_text, j as int);
            assert(bv[j as int] == instrs@[j as int]@);
        }
        let text = emit_instruction(&instrs[j], ctx);
        crate::text::push_str(&mut body, text.as_str());
        proof {
            assert(body@ =~= concat_map(bv.take(j + 1), instr_text));
        }
        j = j + 1;
    }
    proof {
        assert(bv.take(bv.len() as int) =~= bv);
    }
    let indented = indent_text(body.as_str(), "    ");
    let mut out = String::new();
    crate::text::push_char(&mut out, '.');
    crate::text::push_str(&mut out, name.as_str());
    crate::text::push_str(&mut out, ":\n");
    crate::text::push_str(&mut out, indented.as_str());
    proof {
        assert(out@ =~= block_nasm(name@, bv, ctx.global_ctx@, *ctx.cc_info));
    }
    out
}

/// Renders one function: its label and its indented blocks, lowered
/// against its own layout facts from the global context.
fn emit_function(function: &Function, global_ctx: &GlobalContext) -> (r: String)
    requires
        fn_sizes_fit(function@),
        has_key(global_ctx@, function@.name),
        cc_wf(value_for(global_ctx@, function@.name)),
        forall|j: int|
            0 <= j < function@.basic_blocks.len() ==> block_lowerable(
                (#[trigger] function@.basic_blocks[j]).1,
            ),
        fn_targets_known(function@, global_ctx@),
    ensures
        r@ == function_nasm(function@, global_ctx@),
{
    let ghost f = function@;
    let cc_info = global_ctx.get_function_info(function.name()).unwrap();
    let ctx = FunctionContext {
        global_ctx,
        name: function.name(),
        params: build_layout(function.params()),
        locals: build_layout(function.locals()),
        cc_info,
    };
    let ghost block_text = |e: (Seq<char>, Seq<InstrView>)|
        block_nasm(e.0, e.1, global_ctx@, value_for(global_ctx@, f.name));
    let mut blocks_text = String::new();
    let blocks = function.basic_blocks();
    let mut i: usize = 0;
    while i < blocks.len()
        invariant
            entry_views(blocks@) == f.basic_blocks,
            i <= blocks@.len(),
            cc_wf(*ctx.cc_info),
            ctx.global_ctx@ == global_ctx@,
            *ctx.cc_info == value_for(global_ctx@, f.name),
            forall|j: int|
                0 <= j < f.basic_blocks.len() ==> block_lowerable(
                    (#[trigger] f.basic_blocks[j]).1,
                ),
            fn_targets_known(f, global_ctx@),
            block_text == (|e: (Seq<char>, Seq<InstrView>)|
                block_nasm(e.0, e.1, global_ctx@, value_for(global_ctx@, f.name))),
            blocks_text@ == concat_map(f.basic_blocks.take(i as int), block_text),
        decreases blocks@.len() - i,
    {
        proof {
            crate::text::lemma_concat_map_take_snoc(f.basic_blocks, block_text, i as int);
            assert(f.basic_blocks[i as int] == (blocks@[i as int].0@, blocks@[i as int].1@));
        }
        let text = emit_basic_block(&blocks[i].0, &blocks[i].1, &ctx);
        crate::text::push_str(&mut blocks_text, text.as_str());
        proof {
            assert(blocks_text@ =~= concat_map(f.basic_blocks.take(i + 1), block_text));
        }
        i = i + 1;
    }
    proof {
        assert(f.basic_blocks.take(f.basic_blocks.len() as int) =~= f.basic_blocks);
    }
    let indented = indent_text(blocks_text.as_str(), "    ");
    let mut out = String::new();
    crate::text::push_str(&mut out, function.name().as_str());
    crate::text::push_str(&mut out, ":\n");
    crate::text::push_str(&mut out, indented.as_str());
    proof {
        assert(out@ =~= function_nasm(f, global_ctx@));
    }
    out
}

/// Renders one data-section line.
fn emit_global(name: &String, data: &Vec<u8>) -> (r: String)
    ensures
        r@ == global_line((name@, data@)),
{
    let ghost byte_text = |b: u8| crate::text::dec_digits(b as nat);
    let mut out = String::new();
    crate::text::push_str(&mut out, name.as_str());
    crate::text::push_str(&mut out, ": db ");
    let ghost head = name@ + ": db "@;
    proof {
        assert(out@ =~= head);
    }
    let mut i: usize = 0;
    while i < data.len()
        invariant
            i <= data@.len(),
            head == name@ + ": db "@,
            byte_text == (|b: u8| crate::text::dec_digits(b as nat)),
            out@ == head + join_map(data@.take(i as int), byte_text, ", "@),
        decreases data.len() - i,
    {
        proof {
            crate::text::lemma_join_map_take_snoc(data@, byte_text, ", "@, i as int);
        }
        if i > 0 {
            crate::text::push_str(&mut out, ", ");
        }
        crate::text::push_dec_u64(&mut out, data[i] as u64);
        proof {
            assert(out@ =~= head + join_map(data@.take(i + 1), byte_text, ", "@));
        }
        i = i + 1;
    }
    proof {
        assert(data@.take(data@.len() as int) =~= data@);
    }
    out
}

/// The calling-convention arithmetic, for any parameter buffer size and
/// any list of positive return slot sizes: the padded return buffer is
/// a whole number of words reached with fewer than eight bytes of
/// padding, the caller reserves at least both buffers, and what it pops
/// afterwards leaves exactly the return buffer. A procedure (no return
/// slots) gets no padding, and the caller pops exactly the parameter
/// buffer.
pub proof fn lemma_calling_convention(p: int, rs: Seq<u64>)
    requires
        p >= 0,
        forall|i: int| 0 <= i < rs.len() ==> rs[i] > 0,
    ensures
        cc_padded_ret(seq_sum_u64(rs)) % 8 == 0,
        0 <= cc_ret_padding(seq_sum_u64(rs)) < 8,
        cc_pre_call_allocated(p, seq_sum_u64(rs)) >= p,
        cc_pre_call_allocated(p, seq_sum_u64(rs)) >= cc_padded_ret(seq_sum_u64(rs)),
        cc_pre_call_allocated(p, seq_sum_u64(rs)) - seq_sum_u64(rs) == cc_post_call_pop(
            p,
            seq_sum_u64(rs),
        ),
        cc_post_call_pop(p, seq_sum_u64(rs)) >= 0,
        rs.len() == 0 ==> cc_ret_padding(seq_sum_u64(rs)) == 0 && cc_padded_ret(seq_sum_u64(rs))
            == 0 && cc_pre_call_allocated(p, seq_sum_u64(rs)) == p && cc_post_call_pop(
            p,
            seq_sum_u64(rs),
        ) == p,
{
    let r = seq_sum_u64(rs);
    lemma_seq_sum_nonneg(rs);
    assert(0 <= r % 8 < 8);
    assert(cc_padded_ret(r) % 8 == 0) by {
        if r % 8 == 0 {
            assert(cc_ret_padding(r) == 0);
        } else {
            assert(cc_ret_padding(r) == 8 - r % 8);
            assert((r + (8 - r % 8)) % 8 == 0) by (nonlinear_arith)
                requires
                    r % 8 != 0,
                    r >= 0,
            ;
        }
    }
    assert(cc_padded_ret(r) >= r);
}


/// Sums sizes with overflow detection.
fn checked_sum_list(sizes: &Vec<u64>) -> (r: Option<u64>)
    ensures
        match r {
            Some(total) => total == seq_sum_u64(sizes@),
            None => seq_sum_u64(sizes@) > u64::MAX,
        },
{
    let mut total: u64 = 0;
    let mut i: usize = 0;
    while i < sizes.len()
        invariant
            i <= sizes.len(),
            total == seq_sum_u64(sizes@.take(i as int)),
        decreases sizes.len() - i,
    {
        proof {
            lemma_seq_sum_take_snoc(sizes@, i as int);
        }
        let v = sizes[i];
        if v > u64::MAX - total {
            proof {
                lemma_seq_sum_split(sizes@, i + 1);
                lemma_seq_sum_nonneg(sizes@.skip(i + 1));
            }
            return None;
        }
        total = total + v;
        i = i + 1;
    }
    proof {
        assert(sizes@.take(sizes@.len() as int) =~= sizes@);
    }
    Some(total)
}

/// Sums the size components of named slots with overflow detection.
fn checked_sum_sizes(entries: &Vec<(String, u64)>) -> (r: Option<u64>)
    ensures
        match r {
            Some(total) => total == sizes_sum(entry_views(entries@)),
            None => sizes_sum(entry_views(entries@)) > u64::MAX,
        },
{
    let ghost sz = entry_views(entries@).map_values(|e: (Seq<char>, u64)| e.1);
    let mut total: u64 = 0;
    let mut i: usize = 0;
    while i < entries.len()
        invariant
            i <= entries.len(),
            sz == entry_views(entries@).map_values(|e: (Seq<char>, u64)| e.1),
            sz.len() == entries@.len(),
            total == seq_sum_u64(sz.take(i as int)),
        decreases entries.len() - i,
    {
        proof {
            lemma_seq_sum_take_snoc(sz, i as int);
            assert(sz[i as int] == entries@[i as int].1);
        }
        let v = entries[i].1;
        if v > u64::MAX - total {
            proof {
                lemma_seq_sum_split(sz, i + 1);
                lemma_seq_sum_nonneg(sz.skip(i + 1));
            }
            return None;
        }
        total = total + v;
        i = i + 1;
    }
    proof {
        assert(sz.take(sz.len() as int) =~= sz);
    }
    Some(total)
}

/// Whether the emitter lowers this instruction.
fn instr_is_lowerable(instr: &Instruction) -> (r: bool)
    ensures
        r == lowerable_instr(instr@),
{
    match instr {
        Instruction::Noop => true,
        Instruction::Push { .. } => true,
        Instruction::Pop { .. } => true,
        Instruction::Allocate { .. } => true,
        Instruction::Jump { .. } => true,
        Instruction::CondJump { .. } => true,
        Instruction::Call { .. } => true,
        Instruction::IndirectCall { ret_buffer_size, .. } => *ret_buffer_size <= u64::MAX - 7,
        Instruction::Ret => true,
        _ => false,
    }
}

/// Whether the whole program lies within the emitter's domain: all
/// buffer sizes fit the 64-bit layout arithmetic and every instruction
/// has a lowering. `emit_program` asks its callers for exactly this.
pub fn is_lowerable(program: &Program) -> (r: bool)
    ensures
        r == lowerable(program@),
{
    let ghost p = program@;
    let functions = program.functions();
    let mut i: usize = 0;
    while i < functions.len()
        invariant
            p == program@,
            functions@.map_values(|f: Function| f@) == p.functions,
            i <= functions@.len(),
            forall|q: int| 0 <= q < i ==> fn_lowerable(#[trigger] p.functions[q]),
        decreases functions@.len() - i,
    {
        let function = &functions[i];
        proof {
            assert(p.functions[i as int] == functions@[i as int]@);
        }
        let ghost f = p.functions[i as int];
        if checked_sum_sizes(function.params()).is_none() {
            proof {
                assert(!fn_sizes_fit(f));
            }
            return false;
        }
        if checked_sum_sizes(function.locals()).is_none() {
            proof {
                assert(!fn_sizes_fit(f));
            }
            return false;
        }
        match checked_sum_list(function.return_sizes()) {
            None => {
                proof {
                    assert(!fn_sizes_fit(f));
                }
                return false;
            },
            Some(total) => {
                if total > u64::MAX - 7 {
                    proof {
                        assert(!fn_sizes_fit(f));
                    }
                    return false;
                }
            },
        }
        let blocks = function.basic_blocks();
        let mut j: usize = 0;
        while j < blocks.len()
            invariant
                p == program@,
                i < p.functions.len(),
                f == p.functions[i as int],
                entry_views(blocks@) == f.basic_blocks,
                j <= blocks@.len(),
                forall|q: int| 0 <= q < j ==> block_lowerable((#[trigger] f.basic_blocks[q]).1),
            decreases blocks@.len() - j,
        {
            let ghost bv = f.basic_blocks[j as int].1;
            proof {
                assert(f.basic_blocks[j as int] == (blocks@[j as int].0@, blocks@[j as int].1@));
            }
            let instrs = blocks[j].1.iter();
            let mut k: usize = 0;
            while k < instrs.len()
                invariant
                    p == program@,
                    i < p.functions.len(),
                    f == p.functions[i as int],
                    j < f.basic_blocks.len(),
                    bv == f.basic_blocks[j as int].1,
                    instrs@.map_values(|x: Instruction| x@) == bv,
                    k <= instrs@.len(),
                    forall|q: int| 0 <= q < k ==> lowerable_instr(#[trigger] bv[q]),
                decreases instrs@.len() - k,
            {
                proof {
                    assert(bv[k as int] == instrs@[k as int]@);
                }
                if !instr_is_lowerable(&instrs[k]) {
                    proof {
                        assert(!lowerable_instr(bv[k as int]));
                        assert(!block_lowerable(f.basic_blocks[j as int].1));
                        assert(!fn_lowerable(p.functions[i as int]));
                    }
                    return false;
                }
                k = k + 1;
            }
            j = j + 1;
        }
        i = i + 1;
    }
    true
}

/// Whether some registered function carries the name.
fn has_function_named(functions: &Vec<Function>, name: &String) -> (r: bool)
    ensures
        r == has_function(functions@.map_values(|f: Function| f@), name@),
{
    let ghost fs = functions@.map_values(|f: Function| f@);
    let mut i: usize = 0;
    while i < functions.len()
        invariant
            fs == functions@.map_values(|f: Function| f@),
            i <= functions@.len(),
            forall|j: int| 0 <= j < i ==> fs[j].name != name@,
        decreases functions.len() - i,
    {
        proof {
            assert(fs[i as int] == functions@[i as int]@);
        }
        if string_eq(functions[i].name(), name) {
            return true;
        }
        i = i + 1;
    }
    false
}

/// Whether every direct call of the program goes to a registered
/// function.
fn all_calls_known(program: &Program) -> (r: bool)
    ensures
        r == calls_known(program@),
{
    let ghost p = program@;
    let functions = program.functions();
    let mut i: usize = 0;
    while i < functions.len()
        invariant
            p == program@,
            functions@.map_values(|f: Function| f@) == p.functions,
            i <= functions@.len(),
            forall|q: int| 0 <= q < i ==> fn_calls_known(#[trigger] p.functions[q], p.functions),
        decreases functions@.len() - i,
    {
        proof {
            assert(p.functions[i as int] == functions@[i as int]@);
        }
        let ghost f = p.functions[i as int];
        let blocks = functions[i].basic_blocks();
        let mut j: usize = 0;
        while j < blocks.len()
            invariant
                p == program@,
                functions@.map_values(|f2: Function| f2@) == p.functions,
                i < p.functions.len(),
                f == p.functions[i as int],
                entry_views(blocks@) == f.basic_blocks,
                j <= blocks@.len(),
                forall|q: int|
                    0 <= q < j ==> block_calls_known((#[trigger] f.basic_blocks[q]).1, p.functions),
            decreases blocks@.len() - j,
        {
            let ghost bv = f.basic_blocks[j as int].1;
            proof {
                assert(f.basic_blocks[j as int] == (blocks@[j as int].0@, blocks@[j as int].1@));
            }
            let instrs = blocks[j].1.iter();
            let mut k: usize = 0;
            while k < instrs.len()
                invariant
                    p == program@,
                    functions@.map_values(|x: Function| x@) == p.functions,
                    i < p.functions.len(),
                    f == p.functions[i as int],
                    j < f.basic_blocks.len(),
                    bv == f.basic_blocks[j as int].1,
                    instrs@.map_values(|x: Instruction| x@) == bv,
                    k <= instrs@.len(),
                    forall|q: int| 0 <= q < k ==> instr_calls_known(#[trigger] bv[q], p.functions),
                decreases instrs@.len() - k,
            {
                proof {
                    assert(bv[k as int] == instrs@[k as int]@);
                }
                match &instrs[k] {
                    Instruction::Call { target } => {
                        if !has_function_named(functions, target) {
                            proof {
                                assert(bv[k as int] == InstrView::Call { target: target@ });
                                assert(!instr_calls_known(bv[k as int], p.functions));
                                assert(!block_calls_known(f.basic_blocks[j as int].1, p.functions));
                                assert(!fn_calls_known(p.functions[i as int], p.functions));
                            }
                            return false;
                        }
                    },
                    _ => {},
                }
                k = k + 1;
            }
            j = j + 1;
        }
        i = i + 1;
    }
    true
}

/// Lowers a whole program to a NASM document against a platform header
/// template. The program entry must have been set, the template must
/// contain the entry-point placeholder, every block must be terminated,
/// and every direct call must go to a registered function; the
/// violations are reported in that order.
pub fn emit_program(program: &Program, header: String) -> (r: Result<String, SlasmError>)
    requires
        lowerable(program@),
    ensures
        program@.entry is None ==> r == Result::<String, SlasmError>::Err(SlasmError::MissingEntry),
        program@.entry is Some && !crate::text::occurs(header@, placeholder_chars()) ==> r
            == Result::<String, SlasmError>::Err(SlasmError::MalformedTemplate),
        program@.entry is Some && crate::text::occurs(header@, placeholder_chars())
            && program@.has_nonterminated_block() ==> r == Result::<String, SlasmError>::Err(
            SlasmError::NonTerminatedBlock,
        ),
        program@.entry is Some && crate::text::occurs(header@, placeholder_chars())
            && !program@.has_nonterminated_block() && !calls_known(program@) ==> r == Result::<
            String,
            SlasmError,
        >::Err(SlasmError::UnknownFunction),
        program@.entry is Some && crate::text::occurs(header@, placeholder_chars())
            && !program@.has_nonterminated_block() && calls_known(program@) ==> r is Ok && (
        r->Ok_0)@ == nasm_document(program@, header@),
{
    let ghost p = program@;
    proof {
        reveal_strlit("#ENTRY_FUNC_NAME#");
    }
    if !program.has_entry() {
        return Err(SlasmError::MissingEntry);
    }
    if crate::text::find_pat(header.as_str(), "#ENTRY_FUNC_NAME#").is_none() {
        return Err(SlasmError::MalformedTemplate);
    }
    if program.contains_nonterminated_basic_block() {
        return Err(SlasmError::NonTerminatedBlock);
    }
    if !all_calls_known(program) {
        return Err(SlasmError::UnknownFunction);
    }

    let functions = program.functions();
    let mut info_entries: Vec<(String, FunctionInfo)> = Vec::new();
    let mut i: usize = 0;
    while i < functions.len()
        invariant
            p == program@,
            lowerable(p),
            functions@.map_values(|f: Function| f@) == p.functions,
            i <= functions@.len(),
            entry_views(info_entries@) =~= infos_of(p.functions.take(i as int)),
        decreases functions@.len() - i,
    {
        proof {
            assert(p.functions[i as int] == functions@[i as int]@);
        }
        let ghost prev_entries = info_entries@;
        let ghost prev_views = entry_views(info_entries@);
        let name = functions[i].name().clone();
        let ghost nv = name@;
        let info = FunctionInfo::new(&functions[i]);
        info_entries.push((name, info));
        proof {
            let views = entry_views(info_entries@);
            assert(info_entries@.len() == prev_entries.len() + 1);
            assert(prev_views.len() == p.functions.take(i as int).len());
            assert(prev_entries.len() == i as int);
            assert(i + 1 <= p.functions.len());
            assert(views.len() == i + 1);
            assert(infos_of(p.functions.take(i + 1)).len() == i + 1);
            assert forall|q: int| 0 <= q < views.len() implies views[q] == infos_of(
                p.functions.take(i + 1),
            )[q] by {
                assert(0 <= q < i + 1);
                assert(p.functions.take(i + 1).len() == i + 1);
                assert(views[q] == (info_entries@[q].0@, info_entries@[q].1@));
                assert(p.functions.take(i + 1)[q] == p.functions[q]);
                assert(infos_of(p.functions.take(i + 1))[q] == (p.functions[q].name, fn_info_of(
                    p.functions[q],
                )));
                if q < i {
                    assert(info_entries@[q] == prev_entries[q]);
                    assert(prev_views[q] == (prev_entries[q].0@, prev_entries[q].1@));
                    assert(p.functions.take(i as int)[q] == p.functions[q]);
                    assert(prev_views[q] == infos_of(p.functions.take(i as int))[q]);
                    assert(infos_of(p.functions.take(i as int))[q] == (p.functions[q].name,
                    fn_info_of(p.functions[q])));
                } else {
                    assert(info_entries@[q] == (name, info));
                    assert(nv == p.functions[i as int].name);
                    assert(info == fn_info_of(p.functions[i as int]));
                }
            }
            assert(views =~= infos_of(p.functions.take(i + 1)));
        }
        i = i + 1;
    }
    let global_ctx = GlobalContext { functions: info_entries };
    proof {
        assert(p.functions.take(p.functions.len() as int) =~= p.functions);
        assert(global_ctx@ =~= infos_of(p.functions));
        assert forall|q: int| 0 <= q < global_ctx@.len() implies cc_wf(
            (#[trigger] global_ctx@[q]).1,
        ) by {
            assert(global_ctx@[q] == (p.functions[q].name, fn_info_of(p.functions[q])));
            assert(fn_lowerable(p.functions[q]));
            crate::sums::lemma_seq_sum_nonneg(
                p.functions[q].params.map_values(|e: (Seq<char>, u64)| e.1),
            );
            crate::sums::lemma_seq_sum_nonneg(p.functions[q].rets);
            lemma_cc_of_wf(sizes_sum(p.functions[q].params), seq_sum_u64(p.functions[q].rets));
        }
    }

    let replaced = crate::text::replace_pat(
        header.as_str(),
        "#ENTRY_FUNC_NAME#",
        program.entry().as_str(),
    );
    let mut out = String::new();
    crate::text::push_str(&mut out, replaced.as_str());
    crate::text::push_str(
        &mut out,
        "\n; ==================== END OF HEADER ====================\n\n; GENERATED FROM SLASM VERSION ",
    );
    crate::text::push_str(&mut out, crate::word::version());
    crate::text::push_str(&mut out, "\n\n    section .data\n");
    let ghost head = replace_all(header@, placeholder_chars(), p.entry->0)
        + "\n; ==================== END OF HEADER ====================\n\n; GENERATED FROM SLASM VERSION "@
        + crate::word::version_chars() + "\n\n    section .data\n"@;
    proof {
        assert(out@ =~= head);
    }

    let ghost global_text = |e: (Seq<char>, Seq<u8>)| global_line(e);
    let globals = program.globals();
    let mut i: usize = 0;
    while i < globals.len()
        invariant
            p == program@,
            entry_views(globals@) == p.globals,
            i <= globals@.len(),
            global_text == (|e: (Seq<char>, Seq<u8>)| global_line(e)),
            head == replace_all(header@, placeholder_chars(), p.entry->0)
                + "\n; ==================== END OF HEADER ====================\n\n; GENERATED FROM SLASM VERSION "@
                + crate::word::version_chars() + "\n\n    section .data\n"@,
            out@ == head + join_map(p.globals.take(i as int), global_text, seq!['\n']),
        decreases globals@.len() - i,
    {
        proof {
            crate::text::lemma_join_map_take_snoc(p.globals, global_text, seq!['\n'], i as int);
            assert(p.globals[i as int] == (globals@[i as int].0@, globals@[i as int].1@));
        }
        if i > 0 {
            crate::text::push_char(&mut out, '\n');
        }
        let line = emit_global(&globals[i].0, &globals[i].1);
        crate::text::push_str(&mut out, line.as_str());
        proof {
            assert(out@ =~= head + join_map(p.globals.take(i + 1), global_text, seq!['\n']));
        }
        i = i + 1;
    }
    crate::text::push_str(&mut out, "\n\n    section .text\n");
    let ghost head2 = head + join_map(p.globals, global_text, seq!['\n'])
        + "\n\n    section .text\n"@;
    proof {
        assert(p.globals.take(p.globals.len() as int) =~= p.globals);
        assert(out@ =~= head2);
    }

    let ghost fn_text = |f: FunctionView| function_nasm(f, infos_of(p.functions));
    let mut i: usize = 0;
    while i < functions.len()
        invariant
            p == program@,
            lowerable(p),
            calls_known(p),
            functions@.map_values(|f: Function| f@) == p.functions,
            global_ctx@ == infos_of(p.functions),
            forall|q: int| 0 <= q < global_ctx@.len() ==> cc_wf((#[trigger] global_ctx@[q]).1),
            i <= functions@.len(),
            fn_text == (|f: FunctionView| function_nasm(f, infos_of(p.functions))),
            head2 == head + join_map(p.globals, global_text, seq!['\n'])
                + "\n\n    section .text\n"@,
            out@ == head2 + join_map(p.functions.take(i as int), fn_text, seq!['\n']),
        decreases functions@.len() - i,
    {
        let ghost f = p.functions[i as int];
        proof {
            crate::text::lemma_join_map_take_snoc(p.functions, fn_text, seq!['\n'], i as int);
            assert(f == functions@[i as int]@);
            assert(fn_lowerable(f));
            assert(fn_calls_known(f, p.functions));
            assert(infos_of(p.functions)[i as int] == (f.name, fn_info_of(f)));
            assert(has_key(global_ctx@, f.name));
            lemma_key_index(global_ctx@, f.name);
            assert(cc_wf(value_for(global_ctx@, f.name)));
            assert forall|j: int| 0 <= j < f.basic_blocks.len() implies block_targets_known(
                (#[trigger] f.basic_blocks[j]).1,
                global_ctx@,
            ) by {
                let bv = f.basic_blocks[j].1;
                assert(block_calls_known(bv, p.functions));
                assert forall|k: int| 0 <= k < bv.len() implies instr_target_known(
                    #[trigger] bv[k],
                    global_ctx@,
                ) by {
                    assert(instr_calls_known(bv[k], p.functions));
                    match bv[k] {
                        InstrView::Call { target } => {
                            lemma_infos_keys(p.functions, target);
                        },
                        _ => {},
                    }
                }
            }
        }
        if i > 0 {
            crate::text::push_char(&mut out, '\n');
        }
        let text = emit_function(&functions[i], &global_ctx);
        crate::text::push_str(&mut out, text.as_str());
        proof {
            assert(out@ =~= head2 + join_map(p.functions.take(i + 1), fn_text, seq!['\n']));
        }
        i = i + 1;
    }
    crate::text::push_char(&mut out, '\n');
    proof {
        assert(p.functions.take(p.functions.len() as int) =~= p.functions);
        assert(out@ =~= nasm_document(p, header@));
    }
    Ok(out)
}

/// The NASM document is a function of the program's mathematical view
/// and the header text alone: two programs with equal views and equal
/// headers are rendered to identical bytes, so emission is deterministic
/// once the insertion order of the underlying containers is fixed.
pub proof fn lemma_emission_deterministic(
    p1: ProgramView,
    p2: ProgramView,
    h1: Seq<char>,
    h2: Seq<char>,
)
    requires
        p1 == p2,
        h1 == h2,
    ensures
        nasm_document(p1, h1) == nasm_document(p2, h2),
{
}

/// The template contract: in a header made of a prefix, the entry-point
/// placeholder, and a suffix, where prefix, suffix and the entry name
/// are free of `#`, emission replaces the placeholder by the entry name
/// and no placeholder remains in what the header became.
pub proof fn lemma_template_contract(before: Seq<char>, after: Seq<char>, entry: Seq<char>)
    requires
        forall|i: int| 0 <= i < before.len() ==> before[i] != '#',
        forall|i: int| 0 <= i < after.len() ==> after[i] != '#',
        forall|i: int| 0 <= i < entry.len() ==> entry[i] != '#',
    ensures
        crate::text::occurs(before + placeholder_chars() + after, placeholder_chars()),
        replace_all(before + placeholder_chars() + after, placeholder_chars(), entry) == before
            + entry + after,
        !crate::text::occurs(before + entry + after, placeholder_chars()),
{
    reveal_strlit("#ENTRY_FUNC_NAME#");
    assert(placeholder_chars().len() == 17);
    assert(placeholder_chars()[0] == '#');
    crate::text::lemma_replace_single(before, placeholder_chars(), after, entry);
}

} // verus!
