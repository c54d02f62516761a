//! The SLASM instruction set: a closed tagged union of opcodes with
//! per-variant operands, together with its mathematical view.

use vstd::prelude::*;
use crate::word::DataType;

verus! {

/// One SLASM instruction. Values live on the runtime stack; the
/// Load/Store family refers to parameters, locals and globals by name,
/// and control flow refers to basic blocks and functions by name.
#[derive(Debug)]
pub enum Instruction {
    Noop,
    Push { data: Vec<u8> },
    Pop { amt: u64 },
    Allocate { amt: u64 },
    LoadLocal { name: String },
    StoreLocal { name: String },
    LoadParam { name: String },
    StoreParam { name: String },
    LoadGlobal { name: String },
    StoreGlobal { name: String },
    LoadMem { offset: i64 },
    StoreMem { offset: i64 },
    LoadLocalAddr { name: String },
    LoadParamAddr { name: String },
    LoadGlobalAddr { name: String },
    LoadFuncAddr { name: String },
    Add { data_type: DataType },
    Sub { data_type: DataType },
    Mul { data_type: DataType },
    Div { data_type: DataType },
    Mod { data_type: DataType },
    Inc { data_type: DataType },
    Dec { data_type: DataType },
    Eq { data_type: DataType },
    Neq { data_type: DataType },
    Gt { data_type: DataType },
    Lt { data_type: DataType },
    GtEq { data_type: DataType },
    LtEq { data_type: DataType },
    Neg { data_type: DataType },
    Or,
    And,
    Xor,
    Not,
    Shl,
    Shr,
    Convert { from: DataType, to: DataType },
    Jump { target: String },
    CondJump { true_target: String, false_target: String },
    Call { target: String },
    IndirectCall { param_buffer_size: u64, ret_buffer_size: u64 },
    Ret,
}

/// The mathematical view of an instruction: the same tags with byte and
/// name payloads abstracted to sequences.
pub enum InstrView {
    Noop,
    Push { data: Seq<u8> },
    Pop { amt: u64 },
    Allocate { amt: u64 },
    LoadLocal { name: Seq<char> },
    StoreLocal { name: Seq<char> },
    LoadParam { name: Seq<char> },
    StoreParam { name: Seq<char> },
    LoadGlobal { name: Seq<char> },
    StoreGlobal { name: Seq<char> },
    LoadMem { offset: i64 },
    StoreMem { offset: i64 },
    LoadLocalAddr { name: Seq<char> },
    LoadParamAddr { name: Seq<char> },
    LoadGlobalAddr { name: Seq<char> },
    LoadFuncAddr { name: Seq<char> },
    Add { data_type: DataType },
    Sub { data_type: DataType },
    Mul { data_type: DataType },
    Div { data_type: DataType },
    Mod { data_type: DataType },
    Inc { data_type: DataType },
    Dec { data_type: DataType },
    Eq { data_type: DataType },
    Neq { data_type: DataType },
    Gt { data_type: DataType },
    Lt { data_type: DataType },
    GtEq { data_type: DataType },
    LtEq { data_type: DataType },
    Neg { data_type: DataType },
    Or,
    And,
    Xor,
    Not,
    Shl,
    Shr,
    Convert { from: DataType, to: DataType },
    Jump { target: Seq<char> },
    CondJump { true_target: Seq<char>, false_target: Seq<char> },
    Call { target: Seq<char> },
    IndirectCall { param_buffer_size: u64, ret_buffer_size: u64 },
    Ret,
}

impl View for Instruction {
    type V = InstrView;

    open spec fn view(&self) -> InstrView {
        match self {
            Instruction::Noop => InstrView::Noop,
            Instruction::Push { data } => InstrView::Push { data: data@ },
            Instruction::Pop { amt } => InstrView::Pop { amt: *amt },
            Instruction::Allocate { amt } => InstrView::Allocate { amt: *amt },
            Instruction::LoadLocal { name } => InstrView::LoadLocal { name: name@ },
            Instruction::StoreLocal { name } => InstrView::StoreLocal { name: name@ },
            Instruction::LoadParam { name } => InstrView::LoadParam { name: name@ },
            Instruction::StoreParam { name } => InstrView::StoreParam { name: name@ },
            Instruction::LoadGlobal { name } => InstrView::LoadGlobal { name: name@ },
            Instruction::StoreGlobal { name } => InstrView::StoreGlobal { name: name@ },
            Instruction::LoadMem { offset } => InstrView::LoadMem { offset: *offset },
            Instruction::StoreMem { offset } => InstrView::StoreMem { offset: *offset },
            Instruction::LoadLocalAddr { name } => InstrView::LoadLocalAddr { name: name@ },
            Instruction::LoadParamAddr { name } => InstrView::LoadParamAddr { name: name@ },
            Instruction::LoadGlobalAddr { name } => InstrView::LoadGlobalAddr { name: name@ },
            Instruction::LoadFuncAddr { name } => InstrView::LoadFuncAddr { name: name@ },
            Instruction::Add { data_type } => InstrView::Add { data_type: *data_type },
            Instruction::Sub { data_type } => InstrView::Sub { data_type: *data_type },
            Instruction::Mul { data_type } => InstrView::Mul { data_type: *data_type },
            Instruction::Div { data_type } => InstrView::Div { data_type: *data_type },
            Instruction::Mod { data_type } => InstrView::Mod { data_type: *data_type },
            Instruction::Inc { data_type } => InstrView::Inc { data_type: *data_type },
            Instruction::Dec { data_type } => InstrView::Dec { data_type: *data_type },
            Instruction::Eq { data_type } => InstrView::Eq { data_type: *data_type },
            Instruction::Neq { data_type } => InstrView::Neq { data_type: *data_type },
            Instruction::Gt { data_type } => InstrView::Gt { data_type: *data_type },
            Instruction::Lt { data_type } => InstrView::Lt { data_type: *data_type },
            Instruction::GtEq { data_type } => InstrView::GtEq { data_type: *data_type },
            Instruction::LtEq { data_type } => InstrView::LtEq { data_type: *data_type },
            Instruction::Neg { data_type } => InstrView::Neg { data_type: *data_type },
            Instruction::Or => InstrView::Or,
            Instruction::And => InstrView::And,
            Instruction::Xor => InstrView::Xor,
            Instruction::Not => InstrView::Not,
            Instruction::Shl => InstrView::Shl,
            Instruction::Shr => InstrView::Shr,
            Instruction::Convert { from, to } => InstrView::Convert { from: *from, to: *to },
            Instruction::Jump { target } => InstrView::Jump { target: target@ },
            Instruction::CondJump { true_target, false_target } => InstrView::CondJump {
                true_target: true_target@,
                false_target: false_target@,
            },
            Instruction::Call { target } => InstrView::Call { target: target@ },
            Instruction::IndirectCall { param_buffer_size, ret_buffer_size } => {
                InstrView::IndirectCall {
                    param_buffer_size: *param_buffer_size,
                    ret_buffer_size: *ret_buffer_size,
                }
            },
            Instruction::Ret => InstrView::Ret,
        }
    }
}

/// A terminator ends a basic block: a jump, a conditional jump, or a
/// return.
pub open spec fn is_terminator(i: InstrView) -> bool {
    match i {
        InstrView::Jump { .. } => true,
        InstrView::CondJump { .. } => true,
        InstrView::Ret => true,
        _ => false,
    }
}

} // verus!
