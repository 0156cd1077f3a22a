use vstd::prelude::*;

pub mod block;
pub mod dominance;
pub mod instruction;
pub mod lowering;
pub mod module;
pub mod naming;
pub mod renaming;
pub mod ssa;
pub mod value;

pub use block::{BasicBlock, BasicBlockId, ControlFlowGraph};
pub use instruction::{IRBinaryOp, IRInstruction, IRInstructionKind, IROperand, IRUnaryOp};
pub use lowering::{IRLoweringError, IRLoweringResult};
pub use module::{IRFunction, IRModule};
pub use naming::{IRNaming, SSAValueGenerator};
pub use ssa::run_ssa_renaming;
pub use value::{IRValue, IRValueId, IRValueKind};
