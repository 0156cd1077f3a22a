use vstd::prelude::*;

use crate::ir::block::BasicBlockId;
use crate::ir::value::IRValueId;

verus! {

#[derive(Debug, Clone, Copy, PartialEq, Eq)]
pub enum IRBinaryOp {
    Add,
    Sub,
    Mul,
    Div,
    And,
    Or,
    Eq,
    Ne,
    Lt,
    Le,
    Gt,
    Ge,
}

#[derive(Debug, Clone, Copy, PartialEq, Eq)]
pub enum IRUnaryOp {
    Neg,
    Not,
}

/// An operand. A floating-point constant is held as its IEEE-754 binary64
/// bit pattern.
#[derive(Debug)]
pub enum IROperand {
    Value(IRValueId),
    Integer(i64),
    Float(u64),
    Boolean(bool),
    Text(String),
}

#[derive(Debug)]
pub enum IRInstructionKind {
    Assign { target: IRValueId, value: IROperand, original: Option<String> },
    Binary { target: IRValueId, op: IRBinaryOp, left: IROperand, right: IROperand },
    Unary { target: IRValueId, op: IRUnaryOp, operand: IROperand },
    Phi { target: IRValueId, incoming: Vec<(IRValueId, BasicBlockId)>, original: Option<String> },
    Jump { target: BasicBlockId },
    Branch { condition: IROperand, then_block: BasicBlockId, else_block: BasicBlockId },
    Return(Option<IROperand>),
    Call { target: Option<IRValueId>, callee: String, arguments: Vec<IROperand>, original: Option<String> },
    Nop,
}

#[derive(Debug)]
pub struct IRInstruction {
    pub kind: IRInstructionKind,
}

/// The value an instruction defines, if any.
pub open spec fn defined_value(k: IRInstructionKind) -> Option<Seq<char>> {
    match k {
        IRInstructionKind::Assign { target, .. } => Some(target.0@),
        IRInstructionKind::Binary { target, .. } => Some(target.0@),
        IRInstructionKind::Unary { target, .. } => Some(target.0@),
        IRInstructionKind::Phi { target, .. } => Some(target.0@),
        IRInstructionKind::Call { target: Some(target), .. } => Some(target.0@),
        _ => None,
    }
}

/// Whether an instruction ends a block: a jump, a branch or a return.
pub open spec fn is_terminator_kind(k: IRInstructionKind) -> bool {
    k is Jump || k is Branch || k is Return
}

/// The value an operand reads, if it reads one.
pub open spec fn operand_use(o: IROperand) -> Seq<Seq<char>> {
    match o {
        IROperand::Value(id) => seq![id.0@],
        _ => Seq::empty(),
    }
}

/// The values that the operands of a list read, in order.
pub open spec fn operands_uses(os: Seq<IROperand>) -> Seq<Seq<char>>
    decreases os.len(),
{
    if os.len() == 0 {
        Seq::empty()
    } else {
        operands_uses(os.drop_last()) + operand_use(os.last())
    }
}

/// The values that a phi node reads, in order.
pub open spec fn incoming_uses(inc: Seq<(IRValueId, BasicBlockId)>) -> Seq<Seq<char>> {
    inc.map_values(|p: (IRValueId, BasicBlockId)| p.0.0@)
}

/// The values an instruction reads, in order.
pub open spec fn used_values_of(k: IRInstructionKind) -> Seq<Seq<char>> {
    match k {
        IRInstructionKind::Assign { value, .. } => operand_use(value),
        IRInstructionKind::Binary { left, right, .. } => operand_use(left) + operand_use(right),
        IRInstructionKind::Unary { operand, .. } => operand_use(operand),
        IRInstructionKind::Phi { incoming, .. } => incoming_uses(incoming@),
        IRInstructionKind::Branch { condition, .. } => operand_use(condition),
        IRInstructionKind::Return(Some(o)) => operand_use(o),
        IRInstructionKind::Call { arguments, .. } => operands_uses(arguments@),
        _ => Seq::empty(),
    }
}

/// A copy of an operand's use.
fn push_operand_use(out: &mut Vec<IRValueId>, o: &IROperand)
    ensures
        final(out)@.map_values(|d: IRValueId| d.0@) == old(out)@.map_values(|d: IRValueId| d.0@) + operand_use(*o),
{
    let ghost before = out@.map_values(|d: IRValueId| d.0@);
    match o {
        IROperand::Value(id) => {
            out.push(id.clone());
            assert(out@.map_values(|d: IRValueId| d.0@) =~= before + operand_use(*o));
        },
        _ => {
            assert(out@.map_values(|d: IRValueId| d.0@) =~= before + operand_use(*o));
        },
    }
}

impl IRInstruction {
    pub fn new(kind: IRInstructionKind) -> (r: IRInstruction)
        ensures
            r.kind == kind,
    {
        IRInstruction { kind }
    }

    /// The value the instruction defines, if any.
    pub fn defines_value(&self) -> (r: Option<&IRValueId>)
        ensures
            match r {
                Some(id) => defined_value(self.kind) == Some(id.0@),
                None => defined_value(self.kind) is None,
            },
    {
        match &self.kind {
            IRInstructionKind::Assign { target, .. } => Some(target),
            IRInstructionKind::Binary { target, .. } => Some(target),
            IRInstructionKind::Unary { target, .. } => Some(target),
            IRInstructionKind::Phi { target, .. } => Some(target),
            IRInstructionKind::Call { target: Some(target), .. } => Some(target),
            _ => None,
        }
    }

    /// Whether the instruction ends a block.
    pub fn is_terminator(&self) -> (r: bool)
        ensures
            r == is_terminator_kind(self.kind),
    {
        match &self.kind {
            IRInstructionKind::Jump { .. } | IRInstructionKind::Branch { .. } | IRInstructionKind::Return(_) => true,
            _ => false,
        }
    }

    /// The values the instruction reads, in order.
    pub fn used_values(&self) -> (r: Vec<IRValueId>)
        ensures
            r@.map_values(|d: IRValueId| d.0@) == used_values_of(self.kind),
    {
        let mut out: Vec<IRValueId> = Vec::new();
        assert(out@.map_values(|d: IRValueId| d.0@) =~= Seq::<Seq<char>>::empty());
        match &self.kind {
            IRInstructionKind::Assign { value, .. } => {
                push_operand_use(&mut out, value);
                assert(Seq::<Seq<char>>::empty() + operand_use(*value) =~= operand_use(*value));
            },
            IRInstructionKind::Binary { left, right, .. } => {
                push_operand_use(&mut out, left);
                push_operand_use(&mut out, right);
                assert(Seq::<Seq<char>>::empty() + operand_use(*left) =~= operand_use(*left));
            },
            IRInstructionKind::Unary { operand, .. } => {
                push_operand_use(&mut out, operand);
                assert(Seq::<Seq<char>>::empty() + operand_use(*operand) =~= operand_use(*operand));
            },
            IRInstructionKind::Phi { incoming, .. } => {
                let mut k: usize = 0;
                while k < incoming.len()
                    invariant
                        0 <= k <= incoming@.len(),
                        out@.map_values(|d: IRValueId| d.0@) == incoming_uses(incoming@).take(k as int),
                    decreases incoming@.len() - k,
                {
                    out.push(incoming[k].0.clone());
                    assert(incoming_uses(incoming@).take(k + 1) =~= incoming_uses(incoming@).take(k as int).push(
                        incoming@[k as int].0.0@,
                    ));
                    assert(out@.map_values(|d: IRValueId| d.0@) =~= incoming_uses(incoming@).take(k + 1));
                    k = k + 1;
                }
                assert(incoming_uses(incoming@).take(k as int) =~= incoming_uses(incoming@));
            },
            IRInstructionKind::Branch { condition, .. } => {
                push_operand_use(&mut out, condition);
                assert(Seq::<Seq<char>>::empty() + operand_use(*condition) =~= operand_use(*condition));
            },
            IRInstructionKind::Return(Some(o)) => {
                push_operand_use(&mut out, o);
                assert(Seq::<Seq<char>>::empty() + operand_use(*o) =~= operand_use(*o));
            },
            IRInstructionKind::Call { arguments, .. } => {
                let mut k: usize = 0;
                while k < arguments.len()
                    invariant
                        0 <= k <= arguments@.len(),
                        out@.map_values(|d: IRValueId| d.0@) == operands_uses(arguments@.take(k as int)),
                    decreases arguments@.len() - k,
                {
                    push_operand_use(&mut out, &arguments[k]);
                    assert(arguments@.take(k + 1).drop_last() =~= arguments@.take(k as int));
                    k = k + 1;
                }
                assert(arguments@.take(k as int) =~= arguments@);
            },
            _ => {},
        }
        out
    }
}

} // verus!
