//! The XML visitor: a pure traversal that renders a program as a single
//! `<program>` element. Tags are lower-case mnemonics; attribute values
//! are escaped; byte sequences are printed as colon-separated upper-case
//! hexadecimal pairs. Children of a `<function>` appear in the order
//! parameters, locals, return slots, basic blocks. The visitor never
//! mutates the IR and performs no semantic checks beyond requiring every
//! entry to have been set.

use vstd::prelude::*;
use crate::error::SlasmError;
use crate::function::{Function, FunctionView};
use crate::instruction::{InstrView, Instruction};
use crate::program::{Program, ProgramView};
use crate::text::{
    concat_map, dec_digits, dec_int, hex_pairs_colon, i64_string, lemma_concat_map_take_snoc,
    push_char, push_hex_pairs_colon, push_str, u64_string,
};
use crate::word::{data_type_chars, version_chars};

verus! {

/// One escaped character of an attribute value.
pub open spec fn esc_char(c: char) -> Seq<char> {
    if c == '&' {
        "&amp;"@
    } else if c == '<' {
        "&lt;"@
    } else if c == '>' {
        "&gt;"@
    } else if c == '"' {
        "&quot;"@
    } else if c == '\'' {
        "&apos;"@
    } else {
        seq![c]
    }
}

/// An attribute value with the five XML special characters escaped.
pub open spec fn xml_escape(s: Seq<char>) -> Seq<char> {
    concat_map(s, |c: char| esc_char(c))
}

/// One rendered attribute: a space, the key, `="`, the escaped value,
/// and a closing quote.
pub open spec fn attr_chars(key: Seq<char>, value: Seq<char>) -> Seq<char> {
    seq![' '] + key + seq!['=', '"'] + xml_escape(value) + seq!['"']
}

/// The XML element of one instruction.
pub open spec fn instr_xml(i: InstrView) -> Seq<char> {
    match i {
        InstrView::Noop => "<noop />"@,
        InstrView::Push { data } => "<push"@ + attr_chars("data"@, hex_pairs_colon(data)) + " />"@,
        InstrView::Pop { amt } => "<pop"@ + attr_chars("amt"@, dec_digits(amt as nat)) + " />"@,
        InstrView::Allocate { amt } => "<allocate"@ + attr_chars("amt"@, dec_digits(amt as nat))
            + " />"@,
        InstrView::LoadLocal { name } => "<load_local"@ + attr_chars("name"@, name) + " />"@,
        InstrView::StoreLocal { name } => "<store_local"@ + attr_chars("name"@, name) + " />"@,
        InstrView::LoadParam { name } => "<load_param"@ + attr_chars("name"@, name) + " />"@,
        InstrView::StoreParam { name } => "<store_param"@ + attr_chars("name"@, name) + " />"@,
        InstrView::LoadGlobal { name } => "<load_global"@ + attr_chars("name"@, name) + " />"@,
        InstrView::StoreGlobal { name } => "<store_global"@ + attr_chars("name"@, name) + " />"@,
        InstrView::LoadMem { offset } => "<load_mem"@ + attr_chars(
            "offset"@,
            dec_int(offset as int),
        ) + " />"@,
        InstrView::StoreMem { offset } => "<store_mem"@ + attr_chars(
            "offset"@,
            dec_int(offset as int),
        ) + " />"@,
        InstrView::LoadLocalAddr { name } => "<load_local_addr"@ + attr_chars("name"@, name)
            + " />"@,
        InstrView::LoadParamAddr { name } => "<load_param_addr"@ + attr_chars("name"@, name)
            + " />"@,
        InstrView::LoadGlobalAddr { name } => "<load_global_addr"@ + attr_chars("name"@, name)
            + " />"@,
        InstrView::LoadFuncAddr { name } => "<load_func_addr"@ + attr_chars("name"@, name)
            + " />"@,
        InstrView::Add { data_type } => "<add"@ + attr_chars(
            "data_type"@,
            data_type_chars(data_type),
        ) + " />"@,
        InstrView::Sub { data_type } => "<sub"@ + attr_chars(
            "data_type"@,
            data_type_chars(data_type),
        ) + " />"@,
        InstrView::Mul { data_type } => "<mul"@ + attr_chars(
            "data_type"@,
            data_type_chars(data_type),
        ) + " />"@,
        InstrView::Div { data_type } => "<div"@ + attr_chars(
            "data_type"@,
            data_type_chars(data_type),
        ) + " />"@,
        InstrView::Mod { data_type } => "<mod"@ + attr_chars(
            "data_type"@,
            data_type_chars(data_type),
        ) + " />"@,
        InstrView::Inc { data_type } => "<inc"@ + attr_chars(
            "data_type"@,
            data_type_chars(data_type),
        ) + " />"@,
        InstrView::Dec { data_type } => "<dec"@ + attr_chars(
            "data_type"@,
            data_type_chars(data_type),
        ) + " />"@,
        InstrView::Eq { data_type } => "<eq"@ + attr_chars(
            "data_type"@,
            data_type_chars(data_type),
        ) + " />"@,
        InstrView::Neq { data_type } => "<neq"@ + attr_chars(
            "data_type"@,
            data_type_chars(data_type),
        ) + " />"@,
        InstrView::Gt { data_type } => "<gt"@ + attr_chars(
            "data_type"@,
            data_type_chars(data_type),
        ) + " />"@,
        InstrView::Lt { data_type } => "<lt"@ + attr_chars(
            "data_type"@,
            data_type_chars(data_type),
        ) + " />"@,
        InstrView::GtEq { data_type } => "<gteq"@ + attr_chars(
            "data_type"@,
            data_type_chars(data_type),
        ) + " />"@,
        InstrView::LtEq { data_type } => "<lteq"@ + attr_chars(
            "data_type"@,
            data_type_chars(data_type),
        ) + " />"@,
        InstrView::Neg { data_type } => "<neg"@ + attr_chars(
            "data_type"@,
            data_type_chars(data_type),
        ) + " />"@,
        InstrView::Or => "<or />"@,
        InstrView::And => "<and />"@,
        InstrView::Xor => "<xor />"@,
        InstrView::Not => "<not />"@,
        InstrView::Shl => "<shl />"@,
        InstrView::Shr => "<shr />"@,
        InstrView::Convert { from, to } => "<convert"@ + attr_chars(
            "from"@,
            data_type_chars(from),
        ) + attr_chars("to"@, data_type_chars(to)) + " />"@,
        InstrView::Jump { target } => "<jump"@ + attr_chars("target"@, target) + " />"@,
        InstrView::CondJump { true_target, false_target } => "<cond_jump"@ + attr_chars(
            "true_target"@,
            true_target,
        ) + attr_chars("false_target"@, false_target) + " />"@,
        InstrView::Call { target } => "<call"@ + attr_chars("target"@, target) + " />"@,
        InstrView::IndirectCall { param_buffer_size, ret_buffer_size } => "<indirect_call"@
            + attr_chars("param_buffer_size"@, dec_digits(param_buffer_size as nat)) + attr_chars(
            "ret_buffer_size"@,
            dec_digits(ret_buffer_size as nat),
        ) + " />"@,
        InstrView::Ret => "<ret />"@,
    }
}

/// The XML element of one parameter.
pub open spec fn param_xml(e: (Seq<char>, u64)) -> Seq<char> {
    "<param"@ + attr_chars("name"@, e.0) + attr_chars("size"@, dec_digits(e.1 as nat)) + " />"@
}

/// The XML element of one local.
pub open spec fn local_xml(e: (Seq<char>, u64)) -> Seq<char> {
    "<local"@ + attr_chars("name"@, e.0) + attr_chars("size"@, dec_digits(e.1 as nat)) + " />"@
}

/// The XML element of one return slot.
pub open spec fn return_xml(size: u64) -> Seq<char> {
    "<return"@ + attr_chars("size"@, dec_digits(size as nat)) + " />"@
}

/// The XML element of one basic block.
pub open spec fn block_xml(e: (Seq<char>, Seq<InstrView>)) -> Seq<char> {
    "<basic_block"@ + attr_chars("label"@, e.0) + seq!['>'] + concat_map(
        e.1,
        |i: InstrView| instr_xml(i),
    ) + "</basic_block>"@
}

/// The XML element of one function, defined for functions whose entry is
/// set.
pub open spec fn function_xml(f: FunctionView) -> Seq<char> {
    "<function"@ + attr_chars("name"@, f.name) + attr_chars("entry"@, f.entry->0) + seq!['>']
        + concat_map(f.params, |e: (Seq<char>, u64)| param_xml(e)) + concat_map(
        f.locals,
        |e: (Seq<char>, u64)| local_xml(e),
    ) + concat_map(f.rets, |s: u64| return_xml(s)) + concat_map(
        f.basic_blocks,
        |e: (Seq<char>, Seq<InstrView>)| block_xml(e),
    ) + "</function>"@
}

/// The XML element of one global data blob.
pub open spec fn global_xml(e: (Seq<char>, Seq<u8>)) -> Seq<char> {
    "<global"@ + attr_chars("name"@, e.0) + attr_chars("data"@, hex_pairs_colon(e.1)) + " />"@
}

/// The XML document of a whole program, defined when all entries are
/// set.
pub open spec fn program_xml(p: ProgramView) -> Seq<char> {
    "<program"@ + attr_chars("slasm_version"@, version_chars()) + attr_chars("entry"@, p.entry->0)
        + seq!['>'] + concat_map(p.globals, |e: (Seq<char>, Seq<u8>)| global_xml(e)) + concat_map(
        p.functions,
        |f: FunctionView| function_xml(f),
    ) + "</program>"@
}

/// Whether the program and every registered function have an entry set,
/// the one condition the XML visitor enforces.
pub open spec fn all_entries_set(p: ProgramView) -> bool {
    &&& p.entry is Some
    &&& forall|i: int| 0 <= i < p.functions.len() ==> (#[trigger] p.functions[i]).entry is Some
}

/// Appends one escaped, quoted attribute.
fn push_attr(out: &mut String, key: &str, value: &str)
    ensures
        final(out)@ == old(out)@ + attr_chars(key@, value@),
{
    push_char(out, ' ');
    push_str(out, key);
    push_char(out, '=');
    push_char(out, '"');
    let ghost head = old(out)@ + seq![' '] + key@ + seq!['=', '"'];
    proof {
        assert(out@ =~= head);
    }
    let n = value.unicode_len();
    let mut i: usize = 0;
    while i < n
        invariant
            n == value@.len(),
            i <= n,
            head == old(out)@ + seq![' '] + key@ + seq!['=', '"'],
            out@ == head + xml_escape(value@.take(i as int)),
        decreases n - i,
    {
        proof {
            lemma_concat_map_take_snoc(value@, |c: char| esc_char(c), i as int);
        }
        let c = value.get_char(i);
        if c == '&' {
            push_str(out, "&amp;");
        } else if c == '<' {
            push_str(out, "&lt;");
        } else if c == '>' {
            push_str(out, "&gt;");
        } else if c == '"' {
            push_str(out, "&quot;");
        } else if c == '\'' {
            push_str(out, "&apos;");
        } else {
            push_char(out, c);
        }
        proof {
            assert(out@ =~= head + xml_escape(value@.take(i + 1)));
        }
        i = i + 1;
    }
    push_char(out, '"');
    proof {
        assert(value@.take(n as int) =~= value@);
        assert(final(out)@ =~= old(out)@ + attr_chars(key@, value@));
    }
}

/// An element with no attributes and no children.
fn leaf0(text: &'static str) -> (r: String)
    ensures
        r@ == text@,
{
    let mut out = String::new();
    push_str(&mut out, text);
    proof {
        assert(out@ =~= text@);
    }
    out
}

/// An element with one attribute and no children.
fn leaf_attr1(open: &'static str, key: &'static str, value: &str) -> (r: String)
    ensures
        r@ == open@ + attr_chars(key@, value@) + " />"@,
{
    let mut out = String::new();
    push_str(&mut out, open);
    push_attr(&mut out, key, value);
    push_str(&mut out, " />");
    proof {
        assert(out@ =~= open@ + attr_chars(key@, value@) + " />"@);
    }
    out
}

/// An element with two attributes and no children.
fn leaf_attr2(open: &'static str, k1: &'static str, v1: &str, k2: &'static str, v2: &str) -> (r:
    String)
    ensures
        r@ == open@ + attr_chars(k1@, v1@) + attr_chars(k2@, v2@) + " />"@,
{
    let mut out = String::new();
    push_str(&mut out, open);
    push_attr(&mut out, k1, v1);
    push_attr(&mut out, k2, v2);
    push_str(&mut out, " />");
    proof {
        assert(out@ =~= open@ + attr_chars(k1@, v1@) + attr_chars(k2@, v2@) + " />"@);
    }
    out
}

/// Renders one instruction as its XML element.
pub fn emit_instruction(instr: &Instruction) -> (r: String)
    ensures
        r@ == instr_xml(instr@),
{
    match instr {
        Instruction::Noop => leaf0("<noop />"),
        Instruction::Push { data } => {
            let mut value = String::new();
            push_hex_pairs_colon(&mut value, data.as_slice());
            proof {
                assert(value@ =~= hex_pairs_colon(data@));
            }
            leaf_attr1("<push", "data", value.as_str())
        },
        Instruction::Pop { amt } => leaf_attr1("<pop", "amt", u64_string(*amt).as_str()),
        Instruction::Allocate { amt } => leaf_attr1(
            "<allocate",
            "amt",
            u64_string(*amt).as_str(),
        ),
        Instruction::LoadLocal { name } => leaf_attr1("<load_local", "name", name.as_str()),
        Instruction::StoreLocal { name } => leaf_attr1("<store_local", "name", name.as_str()),
        Instruction::LoadParam { name } => leaf_attr1("<load_param", "name", name.as_str()),
        Instruction::StoreParam { name } => leaf_attr1("<store_param", "name", name.as_str()),
        Instruction::LoadGlobal { name } => leaf_attr1("<load_global", "name", name.as_str()),
        Instruction::StoreGlobal { name } => leaf_attr1("<store_global", "name", name.as_str()),
        Instruction::LoadMem { offset } => leaf_attr1(
            "<load_mem",
            "offset",
            i64_string(*offset).as_str(),
        ),
        Instruction::StoreMem { offset } => leaf_attr1(
            "<store_mem",
            "offset",
            i64_string(*offset).as_str(),
        ),
        Instruction::LoadLocalAddr { name } => leaf_attr1(
            "<load_local_addr",
            "name",
            name.as_str(),
        ),
        Instruction::LoadParamAddr { name } => leaf_attr1(
            "<load_param_addr",
            "name",
            name.as_str(),
        ),
        Instruction::LoadGlobalAddr { name } => leaf_attr1(
            "<load_global_addr",
            "name",
            name.as_str(),
        ),
        Instruction::LoadFuncAddr { name } => leaf_attr1(
            "<load_func_addr",
            "name",
            name.as_str(),
        ),
        Instruction::Add { data_type } => leaf_attr1("<add", "data_type", data_type.as_str()),
        Instruction::Sub { data_type } => leaf_attr1("<sub", "data_type", data_type.as_str()),
        Instruction::Mul { data_type } => leaf_attr1("<mul", "data_type", data_type.as_str()),
        Instruction::Div { data_type } => leaf_attr1("<div", "data_type", data_type.as_str()),
        Instruction::Mod { data_type } => leaf_attr1("<mod", "data_type", data_type.as_str()),
        Instruction::Inc { data_type } => leaf_attr1("<inc", "data_type", data_type.as_str()),
        Instruction::Dec { data_type } => leaf_attr1("<dec", "data_type", data_type.as_str()),
        Instruction::Eq { data_type } => leaf_attr1("<eq", "data_type", data_type.as_str()),
        Instruction::Neq { data_type } => leaf_attr1("<neq", "data_type", data_type.as_str()),
        Instruction::Gt { data_type } => leaf_attr1("<gt", "data_type", data_type.as_str()),
        Instruction::Lt { data_type } => leaf_attr1("<lt", "data_type", data_type.as_str()),
        Instruction::GtEq { data_type } => leaf_attr1("<gteq", "data_type", data_type.as_str()),
        Instruction::LtEq { data_type } => leaf_attr1("<lteq", "data_type", data_type.as_str()),
        Instruction::Neg { data_type } => leaf_attr1("<neg", "data_type", data_type.as_str()),
        Instruction::Or => leaf0("<or />"),
        Instruction::And => leaf0("<and />"),
        Instruction::Xor => leaf0("<xor />"),
        Instruction::Not => leaf0("<not />"),
        Instruction::Shl => leaf0("<shl />"),
        Instruction::Shr => leaf0("<shr />"),
        Instruction::Convert { from, to } => leaf_attr2(
            "<convert",
            "from",
            from.as_str(),
            "to",
            to.as_str(),
        ),
        Instruction::Jump { target } => leaf_attr1("<jump", "target", target.as_str()),
        Instruction::CondJump { true_target, false_target } => leaf_attr2(
            "<cond_jump",
            "true_target",
            true_target.as_str(),
            "false_target",
            false_target.as_str(),
        ),
        Instruction::Call { target } => leaf_attr1("<call", "target", target.as_str()),
        Instruction::IndirectCall { param_buffer_size, ret_buffer_size } => leaf_attr2(
            "<indirect_call",
            "param_buffer_size",
            u64_string(*param_buffer_size).as_str(),
            "ret_buffer_size",
            u64_string(*ret_buffer_size).as_str(),
        ),
        Instruction::Ret => leaf0("<ret />"),
    }
}

/// Renders one function as its XML element; the function's entry must
/// have been set, else `MissingEntry` is reported.
pub fn emit_function(function: &Function) -> (r: Result<String, SlasmError>)
    ensures
        function@.entry is None ==> r == Result::<String, SlasmError>::Err(
            SlasmError::MissingEntry,
        ),
        function@.entry is Some ==> r is Ok && (r->Ok_0)@ == function_xml(function@),
{
    if !function.has_entry() {
        return Err(SlasmError::MissingEntry);
    }
    let ghost f = function@;
    let mut out = String::new();
    push_str(&mut out, "<function");
    push_attr(&mut out, "name", function.name().as_str());
    push_attr(&mut out, "entry", function.entry().as_str());
    push_char(&mut out, '>');
    let ghost head = "<function"@ + attr_chars("name"@, f.name) + attr_chars("entry"@, f.entry->0)
        + seq!['>'];
    proof {
        assert(out@ =~= head);
    }

    let params = function.params();
    let mut i: usize = 0;
    while i < params.len()
        invariant
            crate::names::entry_views(params@) == f.params,
            i <= params@.len(),
            out@ == head + concat_map(f.params.take(i as int), |e: (Seq<char>, u64)| param_xml(e)),
        decreases params@.len() - i,
    {
        proof {
            lemma_concat_map_take_snoc(f.params, |e: (Seq<char>, u64)| param_xml(e), i as int);
            assert(f.params[i as int] == (params@[i as int].0@, params@[i as int].1));
        }
        let size = u64_string(params[i].1);
        push_str(&mut out, "<param");
        push_attr(&mut out, "name", params[i].0.as_str());
        push_attr(&mut out, "size", size.as_str());
        push_str(&mut out, " />");
        proof {
            assert(out@ =~= head + concat_map(
                f.params.take(i + 1),
                |e: (Seq<char>, u64)| param_xml(e),
            ));
        }
        i = i + 1;
    }
    let ghost head2 = head + concat_map(f.params, |e: (Seq<char>, u64)| param_xml(e));
    proof {
        assert(f.params.take(f.params.len() as int) =~= f.params);
    }

    let locals = function.locals();
    let mut i: usize = 0;
    while i < locals.len()
        invariant
            crate::names::entry_views(locals@) == f.locals,
            i <= locals@.len(),
            head2 == head + concat_map(f.params, |e: (Seq<char>, u64)| param_xml(e)),
            out@ == head2 + concat_map(f.locals.take(i as int), |e: (Seq<char>, u64)| local_xml(e)),
        decreases locals@.len() - i,
    {
        proof {
            lemma_concat_map_take_snoc(f.locals, |e: (Seq<char>, u64)| local_xml(e), i as int);
            assert(f.locals[i as int] == (locals@[i as int].0@, locals@[i as int].1));
        }
        let size = u64_string(locals[i].1);
        push_str(&mut out, "<local");
        push_attr(&mut out, "name", locals[i].0.as_str());
        push_attr(&mut out, "size", size.as_str());
        push_str(&mut out, " />");
        proof {
            assert(out@ =~= head2 + concat_map(
                f.locals.take(i + 1),
                |e: (Seq<char>, u64)| local_xml(e),
            ));
        }
        i = i + 1;
    }
    let ghost head3 = head2 + concat_map(f.locals, |e: (Seq<char>, u64)| local_xml(e));
    proof {
        assert(f.locals.take(f.locals.len() as int) =~= f.locals);
    }

    let rets = function.return_sizes();
    let mut i: usize = 0;
    while i < rets.len()
        invariant
            rets@ == f.rets,
            i <= rets@.len(),
            head3 == head2 + concat_map(f.locals, |e: (Seq<char>, u64)| local_xml(e)),
            out@ == head3 + concat_map(f.rets.take(i as int), |s: u64| return_xml(s)),
        decreases rets@.len() - i,
    {
        proof {
            lemma_concat_map_take_snoc(f.rets, |s: u64| return_xml(s), i as int);
        }
        let size = u64_string(rets[i]);
        push_str(&mut out, "<return");
        push_attr(&mut out, "size", size.as_str());
        push_str(&mut out, " />");
        proof {
            assert(out@ =~= head3 + concat_map(f.rets.take(i + 1), |s: u64| return_xml(s)));
        }
        i = i + 1;
    }
    let ghost head4 = head3 + concat_map(f.rets, |s: u64| return_xml(s));
    proof {
        assert(f.rets.take(f.rets.len() as int) =~= f.rets);
    }

    let blocks = function.basic_blocks();
    let mut i: usize = 0;
    while i < blocks.len()
        invariant
            crate::names::entry_views(blocks@) == f.basic_blocks,
            i <= blocks@.len(),
            head4 == head3 + concat_map(f.rets, |s: u64| return_xml(s)),
            out@ == head4 + concat_map(
                f.basic_blocks.take(i as int),
                |e: (Seq<char>, Seq<InstrView>)| block_xml(e),
            ),
        decreases blocks@.len() - i,
    {
        proof {
            lemma_concat_map_take_snoc(
                f.basic_blocks,
                |e: (Seq<char>, Seq<InstrView>)| block_xml(e),
                i as int,
            );
            assert(f.basic_blocks[i as int] == (blocks@[i as int].0@, blocks@[i as int].1@));
        }
        let ghost before_block = out@;
        push_str(&mut out, "<basic_block");
        push_attr(&mut out, "label", blocks[i].0.as_str());
        push_char(&mut out, '>');
        let ghost block_head = before_block + "<basic_block"@ + attr_chars(
            "label"@,
            f.basic_blocks[i as int].0,
        ) + seq!['>'];
        proof {
            assert(out@ =~= block_head);
        }
        let instrs = blocks[i].1.iter();
        let ghost bv = f.basic_blocks[i as int].1;
        let mut j: usize = 0;
        while j < instrs.len()
            invariant
                instrs@.map_values(|x: Instruction| x@) == bv,
                j <= instrs@.len(),
                block_head == before_block + "<basic_block"@ + attr_chars("label"@, f.basic_blocks[i as int].0) + seq!['>'],
                out@ == block_head + concat_map(bv.take(j as int), |x: InstrView| instr_xml(x)),
            decreases instrs@.len() - j,
        {
            proof {
                lemma_concat_map_take_snoc(bv, |x: InstrView| instr_xml(x), j as int);
                assert(bv[j as int] == instrs@[j as int]@);
            }
            let text = emit_instruction(&instrs[j]);
            push_str(&mut out, text.as_str());
            proof {
                assert(out@ =~= block_head + concat_map(
                    bv.take(j + 1),
                    |x: InstrView| instr_xml(x),
                ));
            }
            j = j + 1;
        }
        push_str(&mut out, "</basic_block>");
        proof {
            assert(bv.take(bv.len() as int) =~= bv);
            assert(out@ =~= before_block + block_xml(f.basic_blocks[i as int]));
            assert(out@ =~= head4 + concat_map(
                f.basic_blocks.take(i + 1),
                |e: (Seq<char>, Seq<InstrView>)| block_xml(e),
            ));
        }
        i = i + 1;
    }
    push_str(&mut out, "</function>");
    proof {
        assert(f.basic_blocks.take(f.basic_blocks.len() as int) =~= f.basic_blocks);
        assert(out@ =~= function_xml(f));
    }
    Ok(out)
}

/// The XML document is a function of the program's mathematical view
/// alone: two programs with equal views serialize to identical bytes, so
/// serialization is deterministic once the insertion order of the
/// underlying containers is fixed.
pub proof fn lemma_serialization_deterministic(p1: ProgramView, p2: ProgramView)
    requires
        p1 == p2,
    ensures
        program_xml(p1) == program_xml(p2),
{
}

/// Renders a whole program as a single `<program>` element; the program
/// entry and every function entry must have been set, else
/// `MissingEntry` is reported.
pub fn emit_program(program: &Program) -> (r: Result<String, SlasmError>)
    ensures
        !all_entries_set(program@) ==> r == Result::<String, SlasmError>::Err(
            SlasmError::MissingEntry,
        ),
        all_entries_set(program@) ==> r is Ok && (r->Ok_0)@ == program_xml(program@),
{
    let ghost p = program@;
    if !program.has_entry() {
        return Err(SlasmError::MissingEntry);
    }
    let mut out = String::new();
    push_str(&mut out, "<program");
    push_attr(&mut out, "slasm_version", crate::word::version());
    push_attr(&mut out, "entry", program.entry().as_str());
    push_char(&mut out, '>');
    let ghost head = "<program"@ + attr_chars("slasm_version"@, version_chars()) + attr_chars(
        "entry"@,
        p.entry->0,
    ) + seq!['>'];
    proof {
        assert(out@ =~= head);
    }

    let globals = program.globals();
    let mut i: usize = 0;
    while i < globals.len()
        invariant
            crate::names::entry_views(globals@) == p.globals,
            i <= globals@.len(),
            head == "<program"@ + attr_chars("slasm_version"@, version_chars()) + attr_chars(
                "entry"@,
                p.entry->0,
            ) + seq!['>'],
            out@ == head + concat_map(
                p.globals.take(i as int),
                |e: (Seq<char>, Seq<u8>)| global_xml(e),
            ),
        decreases globals@.len() - i,
    {
        proof {
            lemma_concat_map_take_snoc(
                p.globals,
                |e: (Seq<char>, Seq<u8>)| global_xml(e),
                i as int,
            );
            assert(p.globals[i as int] == (globals@[i as int].0@, globals@[i as int].1@));
        }
        let mut data = String::new();
        push_hex_pairs_colon(&mut data, globals[i].1.as_slice());
        proof {
            assert(data@ =~= hex_pairs_colon(p.globals[i as int].1));
        }
        push_str(&mut out, "<global");
        push_attr(&mut out, "name", globals[i].0.as_str());
        push_attr(&mut out, "data", data.as_str());
        push_str(&mut out, " />");
        proof {
            assert(out@ =~= head + concat_map(
                p.globals.take(i + 1),
                |e: (Seq<char>, Seq<u8>)| global_xml(e),
            ));
        }
        i = i + 1;
    }
    let ghost head2 = head + concat_map(p.globals, |e: (Seq<char>, Seq<u8>)| global_xml(e));
    proof {
        assert(p.globals.take(p.globals.len() as int) =~= p.globals);
    }

    let functions = program.functions();
    let mut i: usize = 0;
    while i < functions.len()
        invariant
            p == program@,
            functions@.map_values(|f: Function| f@) == p.functions,
            i <= functions@.len(),
            head2 == head + concat_map(p.globals, |e: (Seq<char>, Seq<u8>)| global_xml(e)),
            forall|j: int| 0 <= j < i ==> (#[trigger] p.functions[j]).entry is Some,
            out@ == head2 + concat_map(
                p.functions.take(i as int),
                |f: FunctionView| function_xml(f),
            ),
        decreases functions@.len() - i,
    {
        proof {
            lemma_concat_map_take_snoc(p.functions, |f: FunctionView| function_xml(f), i as int);
            assert(p.functions[i as int] == functions@[i as int]@);
        }
        let text = match emit_function(&functions[i]) {
            Ok(text) => text,
            Err(e) => {
                proof {
                    assert(p.functions[i as int].entry is None);
                    assert(!all_entries_set(p));
                }
                return Err(e);
            },
        };
        push_str(&mut out, text.as_str());
        proof {
            assert(out@ =~= head2 + concat_map(
                p.functions.take(i + 1),
                |f: FunctionView| function_xml(f),
            ));
        }
        i = i + 1;
    }
    push_str(&mut out, "</program>");
    proof {
        assert(p.functions.take(p.functions.len() as int) =~= p.functions);
        assert(out@ =~= program_xml(p));
    }
    Ok(out)
}

} // verus!
